//! Directives, and the parser that reads one from a line of a command's
//! run sequence.
//!
//! A line is trimmed first. Its leading token decides what it is:
//!
//! * `CMD name` invokes another command. The name is one token and is taken
//!   as written.
//! * `CD path` changes the working directory.
//! * `RUN line` hands the rest of the line to the shell.
//! * `PRINT "text"` prints the text between the quotes, in which `\"` stands
//!   for a quote and `\\` for a backslash.
//! * Any other line is handed to the shell whole.
//!
//! Placeholders are interpolated in the path, in the shell line and in the
//! printed text, after the line has been taken apart.

use vstd::prelude::*;
use crate::alias::{AliasTable, AliasView};
use crate::error::{ExecutionError, ExecutionErrorView};
use crate::interpolate::{interpolate_chars, interpolated};
use crate::platform::Platform;
use crate::text::{
    chars_of,
    same_text,
    skip_spaces,
    skip_spaces_in,
    slice_of,
    string_of,
    token_end,
    token_end_in,
    trim,
    trimmed,
};

verus! {

/// One instruction of a command's run sequence.
#[derive(Debug, PartialEq, Eq)]
pub enum Directive {
    /// Run the named command, then go on.
    InvokeCommand(String),
    /// Make the given directory the working directory.
    ChangeDirectory(String),
    /// Run the line in the platform's shell.
    RunShell(String),
    /// Write the text and a newline to standard output.
    Print(String),
}

/// A directive as mathematical data.
pub enum DirectiveView {
    InvokeCommand(Seq<char>),
    ChangeDirectory(Seq<char>),
    RunShell(Seq<char>),
    Print(Seq<char>),
}

impl View for Directive {
    type V = DirectiveView;

    open spec fn view(&self) -> DirectiveView {
        match *self {
            Directive::InvokeCommand(name) => DirectiveView::InvokeCommand(name@),
            Directive::ChangeDirectory(path) => DirectiveView::ChangeDirectory(path@),
            Directive::RunShell(line) => DirectiveView::RunShell(line@),
            Directive::Print(text) => DirectiveView::Print(text@),
        }
    }
}

impl Clone for Directive {
    fn clone(&self) -> (r: Self)
        ensures
            r@ == self@,
    {
        match self {
            Directive::InvokeCommand(name) => Directive::InvokeCommand(name.clone()),
            Directive::ChangeDirectory(path) => Directive::ChangeDirectory(path.clone()),
            Directive::RunShell(line) => Directive::RunShell(line.clone()),
            Directive::Print(text) => Directive::Print(text.clone()),
        }
    }
}

/// `c` in front of a text, where there is one.
pub open spec fn cons(c: char, rest: Option<Seq<char>>) -> Option<Seq<char>> {
    match rest {
        Some(text) => Some(seq![c] + text),
        None => None,
    }
}

/// The text of a quoted literal, read from index `i`, which lies after the
/// opening quote. The closing quote must be the last character of `arg`.
pub open spec fn unquoted_from(arg: Seq<char>, i: int) -> Option<Seq<char>>
    decreases arg.len() - i,
{
    if i < 0 || i >= arg.len() {
        None
    } else if arg[i] == '"' {
        if i == arg.len() - 1 {
            Some(Seq::empty())
        } else {
            None
        }
    } else if arg[i] == '\\' && i + 1 < arg.len() && (arg[i + 1] == '"' || arg[i + 1] == '\\') {
        cons(arg[i + 1], unquoted_from(arg, i + 2))
    } else {
        cons(arg[i], unquoted_from(arg, i + 1))
    }
}

/// The text that the quoted literal `arg` stands for; `None` where `arg` is
/// no quoted literal.
pub open spec fn unquoted(arg: Seq<char>) -> Option<Seq<char>> {
    if arg.len() > 0 && arg[0] == '"' {
        unquoted_from(arg, 1)
    } else {
        None
    }
}

/// The verb of a trimmed line: its leading token.
pub open spec fn verb_of(line: Seq<char>) -> Seq<char> {
    line.take(token_end(line, 0))
}

/// The argument of a trimmed line: what follows the verb and the spaces
/// after it.
pub open spec fn argument_of(line: Seq<char>) -> Seq<char> {
    line.skip(skip_spaces(line, token_end(line, 0)))
}

/// The directive that holds the interpolation of `text`, or the failure of
/// that interpolation.
pub open spec fn interpolated_into(
    text: Seq<char>,
    table: Seq<AliasView>,
    platform: Platform,
    wrap: spec_fn(Seq<char>) -> DirectiveView,
) -> Result<DirectiveView, ExecutionErrorView> {
    match interpolated(text, table, platform) {
        Ok(value) => Ok(wrap(value)),
        Err(name) => Err(ExecutionErrorView::UnknownAlias(name)),
    }
}

/// What a source line means.
pub open spec fn parsed(line: Seq<char>, table: Seq<AliasView>, platform: Platform) -> Result<
    DirectiveView,
    ExecutionErrorView,
> {
    let text = trimmed(line);
    let verb = verb_of(text);
    let arg = argument_of(text);
    if verb == "CMD"@ {
        if arg.len() > 0 && token_end(arg, 0) == arg.len() {
            Ok(DirectiveView::InvokeCommand(arg))
        } else {
            Err(ExecutionErrorView::MalformedDirective(line))
        }
    } else if verb == "CD"@ {
        if arg.len() > 0 {
            interpolated_into(arg, table, platform, |t: Seq<char>| DirectiveView::ChangeDirectory(t))
        } else {
            Err(ExecutionErrorView::MalformedDirective(line))
        }
    } else if verb == "RUN"@ {
        if arg.len() > 0 {
            interpolated_into(arg, table, platform, |t: Seq<char>| DirectiveView::RunShell(t))
        } else {
            Err(ExecutionErrorView::MalformedDirective(line))
        }
    } else if verb == "PRINT"@ {
        match unquoted(arg) {
            Some(literal) => interpolated_into(
                literal,
                table,
                platform,
                |t: Seq<char>| DirectiveView::Print(t),
            ),
            None => Err(ExecutionErrorView::MalformedDirective(line)),
        }
    } else {
        interpolated_into(text, table, platform, |t: Seq<char>| DirectiveView::RunShell(t))
    }
}

/// Reads the quoted literal `arg`.
pub fn unquote(arg: &Vec<char>) -> (r: Option<Vec<char>>)
    ensures
        match unquoted(arg@) {
            Some(text) => r matches Some(v) && v@ == text,
            None => r is None,
        },
{
    let n = arg.len();
    if n == 0 || arg[0] != '"' {
        return None;
    }
    let mut out: Vec<char> = Vec::new();
    let mut i: usize = 1;
    while i < n
        invariant
            n == arg.len(),
            1 <= i <= n,
            unquoted(arg@) == match unquoted_from(arg@, i as int) {
                Some(rest) => Some(out@ + rest),
                None => None,
            },
        decreases n - i,
    {
        let c = arg[i];
        let ghost before = out@;
        if c == '"' {
            if i == n - 1 {
                assert(out@ + Seq::<char>::empty() =~= out@);
                return Some(out);
            } else {
                return None;
            }
        } else if c == '\\' && i + 1 < n && (arg[i + 1] == '"' || arg[i + 1] == '\\') {
            out.push(arg[i + 1]);
            proof {
                match unquoted_from(arg@, i as int + 2) {
                    Some(rest) => {
                        assert(before.push(arg@[i as int + 1]) + rest =~= before + (seq![
                            arg@[i as int + 1],
                        ] + rest));
                    },
                    None => {},
                }
            }
            i += 2;
        } else {
            out.push(c);
            proof {
                match unquoted_from(arg@, i as int + 1) {
                    Some(rest) => {
                        assert(before.push(c) + rest =~= before + (seq![c] + rest));
                    },
                    None => {},
                }
            }
            i += 1;
        }
    }
    None
}

fn text_of(chars: &Vec<char>) -> (s: String)
    ensures
        s@ == chars@,
{
    assert(chars@.subrange(0, chars@.len() as int) =~= chars@);
    string_of(chars, 0, chars.len())
}

fn malformed(line: &str) -> (r: Result<Directive, ExecutionError>)
    ensures
        r matches Err(e) && e@ == ExecutionErrorView::MalformedDirective(line@),
{
    Err(ExecutionError::MalformedDirective(String::from_str(line)))
}

/// Reads one source line of a command's run sequence.
///
/// Fails with `MalformedDirective`, carrying the line as given, where the
/// line starts with a verb but its arguments are missing or ill-formed, and
/// with `UnknownAlias` where the line is well-formed but a placeholder in it
/// names no alias.
pub fn parse_directive(line: &str, table: &AliasTable, platform: Platform) -> (r: Result<
    Directive,
    ExecutionError,
>)
    ensures
        match parsed(line@, table@, platform) {
            Ok(directive) => r matches Ok(d) && d@ == directive,
            Err(error) => r matches Err(e) && e@ == error,
        },
{
    let raw = chars_of(line);
    let text = trim(&raw);
    let verb_end = token_end_in(&text, 0);
    let arg_start = skip_spaces_in(&text, verb_end);
    let verb = string_of(&text, 0, verb_end);
    let arg = slice_of(&text, arg_start, text.len());
    if same_text(verb.as_str(), "CMD") {
        if arg.len() > 0 && token_end_in(&arg, 0) == arg.len() {
            Ok(Directive::InvokeCommand(text_of(&arg)))
        } else {
            malformed(line)
        }
    } else if same_text(verb.as_str(), "CD") {
        if arg.len() > 0 {
            match interpolate_chars(&arg, table, platform) {
                Ok(path) => Ok(Directive::ChangeDirectory(text_of(&path))),
                Err(e) => Err(e),
            }
        } else {
            malformed(line)
        }
    } else if same_text(verb.as_str(), "RUN") {
        if arg.len() > 0 {
            match interpolate_chars(&arg, table, platform) {
                Ok(shell) => Ok(Directive::RunShell(text_of(&shell))),
                Err(e) => Err(e),
            }
        } else {
            malformed(line)
        }
    } else if same_text(verb.as_str(), "PRINT") {
        match unquote(&arg) {
            Some(literal) => match interpolate_chars(&literal, table, platform) {
                Ok(printed) => Ok(Directive::Print(text_of(&printed))),
                Err(e) => Err(e),
            },
            None => malformed(line),
        }
    } else {
        match interpolate_chars(&text, table, platform) {
            Ok(shell) => Ok(Directive::RunShell(text_of(&shell))),
            Err(e) => Err(e),
        }
    }
}

/// The views of a list of directives.
pub open spec fn directives_view(directives: Seq<Directive>) -> Seq<DirectiveView> {
    Seq::new(directives.len(), |i: int| directives[i]@)
}

/// The directives of the first `count` lines of a run sequence, or the
/// failure of the first line that cannot be read.
pub open spec fn parsed_run(
    lines: Seq<Seq<char>>,
    table: Seq<AliasView>,
    platform: Platform,
    count: int,
) -> Result<Seq<DirectiveView>, ExecutionErrorView>
    decreases count,
{
    if count <= 0 || count > lines.len() {
        Ok(Seq::empty())
    } else {
        match parsed_run(lines, table, platform, count - 1) {
            Err(error) => Err(error),
            Ok(directives) => match parsed(lines[count - 1], table, platform) {
                Ok(directive) => Ok(directives.push(directive)),
                Err(error) => Err(error),
            },
        }
    }
}

/// A run sequence that can be read gives one directive per line.
pub proof fn lemma_parsed_run_len(
    lines: Seq<Seq<char>>,
    table: Seq<AliasView>,
    platform: Platform,
    count: int,
)
    requires
        0 <= count <= lines.len(),
    ensures
        parsed_run(lines, table, platform, count) matches Ok(directives) ==> directives.len()
            == count,
    decreases count,
{
    if count > 0 {
        lemma_parsed_run_len(lines, table, platform, count - 1);
    }
}

/// Once a line cannot be read, looking at more lines does not change the
/// failure.
pub proof fn lemma_parsed_run_failure_stays(
    lines: Seq<Seq<char>>,
    table: Seq<AliasView>,
    platform: Platform,
    failing: int,
    count: int,
)
    requires
        0 <= failing <= count <= lines.len(),
        parsed_run(lines, table, platform, failing) is Err,
    ensures
        parsed_run(lines, table, platform, count) == parsed_run(lines, table, platform, failing),
    decreases count,
{
    if failing < count {
        lemma_parsed_run_failure_stays(lines, table, platform, failing, count - 1);
    }
}

/// Reads every line of a run sequence, in order. Fails with the error of
/// the first line that cannot be read.
pub fn parse_run(lines: &Vec<String>, table: &AliasTable, platform: Platform) -> (r: Result<
    Vec<Directive>,
    ExecutionError,
>)
    ensures
        match parsed_run(lines.deep_view(), table@, platform, lines.len() as int) {
            Ok(directives) => r matches Ok(v) && directives_view(v@) == directives,
            Err(error) => r matches Err(e) && e@ == error,
        },
{
    let mut out: Vec<Directive> = Vec::new();
    let mut i: usize = 0;
    assert(directives_view(out@) =~= Seq::<DirectiveView>::empty());
    while i < lines.len()
        invariant
            i <= lines.len(),
            parsed_run(lines.deep_view(), table@, platform, i as int) == Ok::<
                Seq<DirectiveView>,
                ExecutionErrorView,
            >(directives_view(out@)),
        decreases lines.len() - i,
    {
        let ghost before = directives_view(out@);
        assert(lines@[i as int]@ == lines.deep_view()[i as int]);
        match parse_directive(lines[i].as_str(), table, platform) {
            Ok(directive) => {
                out.push(directive);
                assert(directives_view(out@) =~= before.push(directive@));
            },
            Err(error) => {
                proof {
                    lemma_parsed_run_failure_stays(
                        lines.deep_view(),
                        table@,
                        platform,
                        i as int + 1,
                        lines.len() as int,
                    );
                }
                return Err(error);
            },
        }
        i += 1;
    }
    Ok(out)
}

/// A line whose leading token is none of the four verbs is handed to the
/// shell whole: trimmed and interpolated. It gives exactly one directive.
pub proof fn law_bare_line_runs_in_the_shell(
    line: Seq<char>,
    table: Seq<AliasView>,
    platform: Platform,
)
    requires
        verb_of(trimmed(line)) != "CMD"@,
        verb_of(trimmed(line)) != "CD"@,
        verb_of(trimmed(line)) != "RUN"@,
        verb_of(trimmed(line)) != "PRINT"@,
    ensures
        match interpolated(trimmed(line), table, platform) {
            Ok(text) => parsed(line, table, platform) == Ok::<DirectiveView, ExecutionErrorView>(
                DirectiveView::RunShell(text),
            ),
            Err(name) => parsed(line, table, platform) == Err::<DirectiveView, ExecutionErrorView>(
                ExecutionErrorView::UnknownAlias(name),
            ),
        },
{
}

} // verus!
