//! The interpolator: rewrites `{name}` placeholders in a line into the values
//! of the aliases they name.
//!
//! A placeholder is an opening brace, a name that holds no brace, and a
//! closing brace. Placeholders are found from left to right; a value that
//! was substituted is never scanned again. A brace that opens or closes no
//! placeholder is ordinary text.

use vstd::prelude::*;
use crate::alias::{lookup, AliasTable, AliasView};
use crate::error::{ExecutionError, ExecutionErrorView};
use crate::platform::Platform;
use crate::text::{append_chars, chars_of, string_of};

verus! {

/// Index of the first brace of `s` at or after `from`; `s.len()` when there
/// is none.
pub open spec fn brace_after(s: Seq<char>, from: int) -> int
    decreases s.len() - from,
{
    if from < 0 || from >= s.len() {
        s.len() as int
    } else if s[from] == '{' || s[from] == '}' {
        from
    } else {
        brace_after(s, from + 1)
    }
}

/// A placeholder starts at index `i` of `s`.
pub open spec fn placeholder_at(s: Seq<char>, i: int) -> bool {
    &&& 0 <= i < s.len()
    &&& s[i] == '{'
    &&& i < brace_after(s, i + 1) < s.len()
    &&& s[brace_after(s, i + 1)] == '}'
}

/// The name inside the placeholder that starts at index `i` of `s`.
pub open spec fn placeholder_name(s: Seq<char>, i: int) -> Seq<char> {
    s.subrange(i + 1, brace_after(s, i + 1))
}

/// A placeholder starts at index `i` of `line` and names no alias of `table`.
pub open spec fn unknown_placeholder_at(line: Seq<char>, table: Seq<AliasView>, i: int) -> bool {
    placeholder_at(line, i) && lookup(table, placeholder_name(line, i)) is None
}

/// `prefix` in front of a result, where there is one.
pub open spec fn prepend(prefix: Seq<char>, rest: Result<Seq<char>, Seq<char>>) -> Result<
    Seq<char>,
    Seq<char>,
> {
    match rest {
        Ok(text) => Ok(prefix + text),
        Err(name) => Err(name),
    }
}

/// The interpolation of `line` from index `i` on: the rewritten text, or the
/// name of the leftmost placeholder that names no alias.
pub open spec fn interpolated_from(
    line: Seq<char>,
    i: int,
    table: Seq<AliasView>,
    platform: Platform,
) -> Result<Seq<char>, Seq<char>>
    decreases line.len() - i,
{
    if i < 0 || i >= line.len() {
        Ok(Seq::empty())
    } else if placeholder_at(line, i) {
        match lookup(table, placeholder_name(line, i)) {
            None => Err(placeholder_name(line, i)),
            Some(alias) => prepend(
                alias.resolve(platform),
                interpolated_from(line, brace_after(line, i + 1) + 1, table, platform),
            ),
        }
    } else {
        prepend(seq![line[i]], interpolated_from(line, i + 1, table, platform))
    }
}

/// The interpolation of a whole line.
pub open spec fn interpolated(line: Seq<char>, table: Seq<AliasView>, platform: Platform) -> Result<
    Seq<char>,
    Seq<char>,
> {
    interpolated_from(line, 0, table, platform)
}

/// `brace_after` finds the least index at or after `from` that holds a brace.
pub proof fn lemma_brace_after(s: Seq<char>, from: int)
    requires
        0 <= from <= s.len(),
    ensures
        from <= brace_after(s, from) <= s.len(),
        brace_after(s, from) < s.len() ==> s[brace_after(s, from)] == '{' || s[brace_after(
            s,
            from,
        )] == '}',
        forall|j: int| from <= j < brace_after(s, from) ==> s[j] != '{' && s[j] != '}',
    decreases s.len() - from,
{
    if from < s.len() && !(s[from] == '{' || s[from] == '}') {
        lemma_brace_after(s, from + 1);
    }
}

fn find_brace(chars: &Vec<char>, from: usize) -> (r: usize)
    requires
        from <= chars.len(),
    ensures
        r == brace_after(chars@, from as int),
        from <= r <= chars.len(),
{
    let mut i: usize = from;
    while i < chars.len()
        invariant
            from <= i <= chars.len(),
            brace_after(chars@, from as int) == brace_after(chars@, i as int),
        decreases chars.len() - i,
    {
        if chars[i] == '{' || chars[i] == '}' {
            return i;
        }
        i += 1;
    }
    i
}

/// Replaces every placeholder among `chars` by the value, on `platform`, of
/// the alias it names. Fails with `UnknownAlias` on the leftmost placeholder
/// whose name the table does not hold.
pub fn interpolate_chars(chars: &Vec<char>, table: &AliasTable, platform: Platform) -> (r: Result<
    Vec<char>,
    ExecutionError,
>)
    ensures
        match interpolated(chars@, table@, platform) {
            Ok(text) => r matches Ok(v) && v@ == text,
            Err(name) => r matches Err(e) && e@ == ExecutionErrorView::UnknownAlias(name),
        },
{
    let n = chars.len();
    let mut out: Vec<char> = Vec::new();
    let mut i: usize = 0;
    let ghost line = chars@;
    assert(prepend(Seq::empty(), interpolated(line, table@, platform)) =~= interpolated(
        line,
        table@,
        platform,
    )) by {
        match interpolated(line, table@, platform) {
            Ok(text) => {
                assert(Seq::<char>::empty() + text =~= text);
            },
            Err(_) => {},
        }
    }
    while i < n
        invariant
            chars@ == line,
            n == chars.len(),
            i <= n,
            interpolated(line, table@, platform) == prepend(
                out@,
                interpolated_from(line, i as int, table@, platform),
            ),
        decreases n - i,
    {
        let c = chars[i];
        let ghost before = out@;
        let ghost rest = interpolated_from(line, i as int, table@, platform);
        let mut substituted = false;
        if c == '{' {
            let close = find_brace(chars, i + 1);
            if close < n && chars[close] == '}' {
                let name = string_of(chars, i + 1, close);
                match table.get(name.as_str()) {
                    None => {
                        return Err(ExecutionError::UnknownAlias(name));
                    },
                    Some(alias) => {
                        let value = chars_of(alias.resolve(platform).as_str());
                        append_chars(&mut out, &value);
                        proof {
                            let tail = interpolated_from(line, close as int + 1, table@, platform);
                            assert(rest == prepend(value@, tail));
                            match tail {
                                Ok(text) => {
                                    assert((before + value@) + text =~= before + (value@ + text));
                                },
                                Err(_) => {},
                            }
                        }
                        i = close + 1;
                        substituted = true;
                    },
                }
            }
        }
        if !substituted {
            out.push(c);
            proof {
                let tail = interpolated_from(line, i as int + 1, table@, platform);
                assert(rest == prepend(seq![c], tail));
                match tail {
                    Ok(text) => {
                        assert(before.push(c) + text =~= before + (seq![c] + text));
                    },
                    Err(_) => {},
                }
            }
            i += 1;
        }
    }
    proof {
        assert(out@ + Seq::<char>::empty() =~= out@);
    }
    Ok(out)
}

/// Replaces every placeholder of `line` by the value, on `platform`, of the
/// alias it names. Fails with `UnknownAlias` on the leftmost placeholder
/// whose name the table does not hold; nothing is substituted in that case.
pub fn interpolate(line: &str, table: &AliasTable, platform: Platform) -> (r: Result<
    String,
    ExecutionError,
>)
    ensures
        match interpolated(line@, table@, platform) {
            Ok(text) => r matches Ok(s) && s@ == text,
            Err(name) => r matches Err(e) && e@ == ExecutionErrorView::UnknownAlias(name),
        },
{
    let chars = chars_of(line);
    match interpolate_chars(&chars, table, platform) {
        Ok(out) => {
            assert(out@.subrange(0, out@.len() as int) =~= out@);
            Ok(string_of(&out, 0, out.len()))
        },
        Err(e) => Err(e),
    }
}

/// Interpolating from index `i` a line in which no placeholder starts at or
/// after `i` gives back the rest of the line.
pub proof fn lemma_plain_rest_unchanged(
    line: Seq<char>,
    i: int,
    table: Seq<AliasView>,
    platform: Platform,
)
    requires
        0 <= i <= line.len(),
        forall|j: int| i <= j < line.len() ==> !placeholder_at(line, j),
    ensures
        interpolated_from(line, i, table, platform) == Ok::<Seq<char>, Seq<char>>(
            line.skip(i),
        ),
    decreases line.len() - i,
{
    if i < line.len() {
        lemma_plain_rest_unchanged(line, i + 1, table, platform);
        assert(seq![line[i]] + line.skip(i + 1) =~= line.skip(i));
    } else {
        assert(line.skip(i) =~= Seq::<char>::empty());
    }
}

/// A line that holds no placeholder is unchanged by interpolation, whatever
/// the alias table and the platform.
pub proof fn law_line_without_placeholder_is_unchanged(
    line: Seq<char>,
    table: Seq<AliasView>,
    platform: Platform,
)
    requires
        forall|j: int| 0 <= j < line.len() ==> !placeholder_at(line, j),
    ensures
        interpolated(line, table, platform) == Ok::<Seq<char>, Seq<char>>(line),
{
    lemma_plain_rest_unchanged(line, 0, table, platform);
    assert(line.skip(0) =~= line);
}

/// A line without an opening brace, or without a closing brace, holds no
/// placeholder and is therefore unchanged by interpolation.
pub proof fn law_line_without_brace_pair_is_unchanged(
    line: Seq<char>,
    table: Seq<AliasView>,
    platform: Platform,
)
    requires
        !line.contains('{') || !line.contains('}'),
    ensures
        interpolated(line, table, platform) == Ok::<Seq<char>, Seq<char>>(line),
{
    assert forall|j: int| 0 <= j < line.len() implies !placeholder_at(line, j) by {
        if placeholder_at(line, j) {
            assert(line.contains(line[j]));
            assert(line.contains(line[brace_after(line, j + 1)]));
        }
    }
    law_line_without_placeholder_is_unchanged(line, table, platform);
}

/// From index `from` on, interpolation fails exactly when some placeholder
/// at or after `from` names no alias, and then reports the name of the
/// leftmost such placeholder.
pub proof fn lemma_failure_from(
    line: Seq<char>,
    from: int,
    table: Seq<AliasView>,
    platform: Platform,
)
    requires
        0 <= from <= line.len(),
    ensures
        interpolated_from(line, from, table, platform) is Err <==> exists|i: int|
            from <= i && unknown_placeholder_at(line, table, i),
        interpolated_from(line, from, table, platform) matches Err(name) ==> exists|i: int|
            {
                &&& from <= i
                &&& unknown_placeholder_at(line, table, i)
                &&& name == placeholder_name(line, i)
                &&& forall|j: int| from <= j < i ==> !unknown_placeholder_at(line, table, j)
            },
    decreases line.len() - from,
{
    if from >= line.len() {
    } else if placeholder_at(line, from) {
        let close = brace_after(line, from + 1);
        lemma_brace_after(line, from + 1);
        if lookup(table, placeholder_name(line, from)) is None {
            assert(unknown_placeholder_at(line, table, from));
        } else {
            lemma_failure_from(line, close + 1, table, platform);
            assert forall|j: int| from <= j <= close implies !unknown_placeholder_at(
                line,
                table,
                j,
            ) by {}
            if interpolated_from(line, from, table, platform) is Err {
                let name = interpolated_from(line, from, table, platform)->Err_0;
                let i = choose|i: int|
                    {
                        &&& close + 1 <= i
                        &&& unknown_placeholder_at(line, table, i)
                        &&& name == placeholder_name(line, i)
                        &&& forall|j: int|
                            close + 1 <= j < i ==> !unknown_placeholder_at(line, table, j)
                    };
                assert(from <= i && unknown_placeholder_at(line, table, i));
                assert(forall|j: int| from <= j < i ==> !unknown_placeholder_at(line, table, j));
            }
        }
    } else {
        lemma_failure_from(line, from + 1, table, platform);
        if interpolated_from(line, from, table, platform) is Err {
            let name = interpolated_from(line, from, table, platform)->Err_0;
            let i = choose|i: int|
                {
                    &&& from + 1 <= i
                    &&& unknown_placeholder_at(line, table, i)
                    &&& name == placeholder_name(line, i)
                    &&& forall|j: int| from + 1 <= j < i ==> !unknown_placeholder_at(line, table, j)
                };
            assert(from <= i && unknown_placeholder_at(line, table, i));
            assert(forall|j: int| from <= j < i ==> !unknown_placeholder_at(line, table, j));
        }
    }
}

/// Interpolation fails exactly when the line holds a placeholder that names
/// no alias of the table; the error then carries the name of the leftmost
/// such placeholder. In every other case it succeeds.
pub proof fn law_unknown_alias_fails(line: Seq<char>, table: Seq<AliasView>, platform: Platform)
    ensures
        interpolated(line, table, platform) is Err <==> exists|i: int|
            unknown_placeholder_at(line, table, i),
        interpolated(line, table, platform) matches Err(name) ==> exists|i: int|
            {
                &&& unknown_placeholder_at(line, table, i)
                &&& name == placeholder_name(line, i)
                &&& forall|j: int| 0 <= j < i ==> !unknown_placeholder_at(line, table, j)
            },
{
    lemma_failure_from(line, 0, table, platform);
    if interpolated(line, table, platform) is Err {
        let name = interpolated(line, table, platform)->Err_0;
        let i = choose|i: int|
            {
                &&& 0 <= i
                &&& unknown_placeholder_at(line, table, i)
                &&& name == placeholder_name(line, i)
                &&& forall|j: int| 0 <= j < i ==> !unknown_placeholder_at(line, table, j)
            };
        assert(unknown_placeholder_at(line, table, i));
    }
}

} // verus!
