use dosh::alias::{Alias, AliasTable};
use dosh::directive::{parse_directive, parse_run, unquote, Directive};
use dosh::error::ExecutionError;
use dosh::platform::Platform;

fn table() -> AliasTable {
    let mut table = AliasTable::new();
    table.insert(Alias::new("hugo", "hugo").with_variant(Platform::Windows, "hugo.exe"));
    table.insert(Alias::new("out", "public"));
    table.insert(Alias::new("quote", "\"q\""));
    table
}

fn parse(line: &str) -> Result<Directive, ExecutionError> {
    parse_directive(line, &table(), Platform::Linux)
}

fn malformed(line: &str) -> Result<Directive, ExecutionError> {
    Err(ExecutionError::MalformedDirective(line.to_string()))
}

#[test]
fn bare_line_is_one_shell_directive() {
    assert_eq!(parse("{hugo} server -D"), Ok(Directive::RunShell("hugo server -D".to_string())));
}

#[test]
fn bare_line_is_trimmed() {
    assert_eq!(parse("  git status \t"), Ok(Directive::RunShell("git status".to_string())));
}

#[test]
fn bare_line_may_be_empty() {
    assert_eq!(parse(""), Ok(Directive::RunShell(String::new())));
    assert_eq!(parse("   "), Ok(Directive::RunShell(String::new())));
}

#[test]
fn verbs_are_upper_case_whole_tokens() {
    assert_eq!(parse("cmd build"), Ok(Directive::RunShell("cmd build".to_string())));
    assert_eq!(parse("CMDX build"), Ok(Directive::RunShell("CMDX build".to_string())));
    assert_eq!(parse("RUNNER x"), Ok(Directive::RunShell("RUNNER x".to_string())));
    assert_eq!(parse("PRINTER"), Ok(Directive::RunShell("PRINTER".to_string())));
}

#[test]
fn cmd_names_a_command() {
    assert_eq!(parse("CMD build"), Ok(Directive::InvokeCommand("build".to_string())));
    assert_eq!(parse("  CMD \t build  "), Ok(Directive::InvokeCommand("build".to_string())));
}

#[test]
fn cmd_name_is_not_interpolated() {
    assert_eq!(parse("CMD {hugo}"), Ok(Directive::InvokeCommand("{hugo}".to_string())));
    assert_eq!(parse("CMD {nope}"), Ok(Directive::InvokeCommand("{nope}".to_string())));
}

#[test]
fn cmd_without_one_name_is_malformed() {
    assert_eq!(parse("CMD"), malformed("CMD"));
    assert_eq!(parse("  CMD  "), malformed("  CMD  "));
    assert_eq!(parse("CMD build now"), malformed("CMD build now"));
}

#[test]
fn cd_names_a_path() {
    assert_eq!(parse("CD public"), Ok(Directive::ChangeDirectory("public".to_string())));
    assert_eq!(parse("CD .."), Ok(Directive::ChangeDirectory("..".to_string())));
    assert_eq!(parse("CD /var/www"), Ok(Directive::ChangeDirectory("/var/www".to_string())));
    assert_eq!(parse("CD my site/out"), Ok(Directive::ChangeDirectory("my site/out".to_string())));
}

#[test]
fn cd_path_is_interpolated() {
    assert_eq!(parse("CD {out}/css"), Ok(Directive::ChangeDirectory("public/css".to_string())));
    assert_eq!(parse("CD {nope}"), Err(ExecutionError::UnknownAlias("nope".to_string())));
}

#[test]
fn cd_without_a_path_is_malformed() {
    assert_eq!(parse("CD"), malformed("CD"));
    assert_eq!(parse("CD   "), malformed("CD   "));
}

#[test]
fn run_takes_the_rest_of_the_line() {
    assert_eq!(parse("RUN git add ."), Ok(Directive::RunShell("git add .".to_string())));
    assert_eq!(
        parse("RUN   echo  \"a  b\"  "),
        Ok(Directive::RunShell("echo  \"a  b\"".to_string()))
    );
    assert_eq!(parse("RUN CMD build"), Ok(Directive::RunShell("CMD build".to_string())));
}

#[test]
fn run_line_is_interpolated() {
    assert_eq!(parse("RUN {hugo} -d {out}"), Ok(Directive::RunShell("hugo -d public".to_string())));
    assert_eq!(
        parse_directive("RUN {hugo}", &table(), Platform::Windows),
        Ok(Directive::RunShell("hugo.exe".to_string()))
    );
    assert_eq!(parse("RUN {hugo} {x}"), Err(ExecutionError::UnknownAlias("x".to_string())));
}

#[test]
fn run_without_a_line_is_malformed() {
    assert_eq!(parse("RUN"), malformed("RUN"));
    assert_eq!(parse(" RUN "), malformed(" RUN "));
}

#[test]
fn print_strips_the_quotes() {
    assert_eq!(parse("PRINT \"DONE.\""), Ok(Directive::Print("DONE.".to_string())));
    assert_eq!(parse("PRINT \"\""), Ok(Directive::Print(String::new())));
    assert_eq!(parse("PRINT   \" a  b \"  "), Ok(Directive::Print(" a  b ".to_string())));
}

#[test]
fn print_handles_escaped_quotes_and_backslashes() {
    assert_eq!(
        parse("PRINT \"say \\\"hi\\\"\""),
        Ok(Directive::Print("say \"hi\"".to_string()))
    );
    assert_eq!(parse("PRINT \"a\\\\b\""), Ok(Directive::Print("a\\b".to_string())));
    assert_eq!(parse("PRINT \"a\\nb\""), Ok(Directive::Print("a\\nb".to_string())));
    assert_eq!(parse("PRINT \"end\\\\\""), Ok(Directive::Print("end\\".to_string())));
}

#[test]
fn print_text_is_interpolated_after_unquoting() {
    assert_eq!(parse("PRINT \"built with {hugo}\""), Ok(Directive::Print("built with hugo".to_string())));
    assert_eq!(parse("PRINT \"{quote}\""), Ok(Directive::Print("\"q\"".to_string())));
    assert_eq!(parse("PRINT \"{nope}\""), Err(ExecutionError::UnknownAlias("nope".to_string())));
}

#[test]
fn print_without_a_quoted_literal_is_malformed() {
    for line in [
        "PRINT",
        "PRINT DONE.",
        "PRINT \"DONE.",
        "PRINT DONE.\"",
        "PRINT \"a\" b",
        "PRINT \"a\"b\"",
        "PRINT \"a\\\"",
        "PRINT \"",
    ] {
        assert_eq!(parse(line), malformed(line));
    }
}

#[test]
fn malformed_directive_comes_before_unknown_alias() {
    assert_eq!(parse("PRINT {nope}"), malformed("PRINT {nope}"));
}

#[test]
fn unquote_reads_a_literal() {
    let literal: Vec<char> = "\"a\\\"b\"".chars().collect();
    assert_eq!(unquote(&literal), Some(vec!['a', '"', 'b']));
    let open: Vec<char> = "\"ab".chars().collect();
    assert_eq!(unquote(&open), None);
    assert_eq!(unquote(&Vec::new()), None);
}

#[test]
fn parse_run_reads_every_line_in_order() {
    let lines = vec![
        "CMD build".to_string(),
        "CD public".to_string(),
        "RUN git add .".to_string(),
        "CD ..".to_string(),
        "PRINT \"DONE.\"".to_string(),
    ];
    assert_eq!(
        parse_run(&lines, &table(), Platform::Linux),
        Ok(vec![
            Directive::InvokeCommand("build".to_string()),
            Directive::ChangeDirectory("public".to_string()),
            Directive::RunShell("git add .".to_string()),
            Directive::ChangeDirectory("..".to_string()),
            Directive::Print("DONE.".to_string()),
        ])
    );
    assert_eq!(parse_run(&Vec::new(), &table(), Platform::Linux), Ok(Vec::new()));
}

#[test]
fn parse_run_fails_with_the_first_bad_line() {
    let lines = vec!["RUN ok".to_string(), "RUN {x}".to_string(), "CD".to_string()];
    assert_eq!(
        parse_run(&lines, &table(), Platform::Linux),
        Err(ExecutionError::UnknownAlias("x".to_string()))
    );
}

#[test]
fn directive_clone_is_equal() {
    for directive in [
        Directive::InvokeCommand("a".to_string()),
        Directive::ChangeDirectory("b".to_string()),
        Directive::RunShell("c".to_string()),
        Directive::Print("d".to_string()),
    ] {
        assert_eq!(directive.clone(), directive);
    }
}
