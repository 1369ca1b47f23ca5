use dosh::alias::{Alias, AliasTable};
use dosh::error::ExecutionError;
use dosh::interpolate::{interpolate, interpolate_chars};
use dosh::platform::Platform;
use dosh::text::{chars_of, same_text, string_of, trim};

fn table() -> AliasTable {
    let mut table = AliasTable::new();
    table.insert(Alias::new("hugo", "hugo").with_variant(Platform::Windows, "hugo.exe"));
    table.insert(Alias::new("outer", "{hugo}"));
    table.insert(Alias::new("out dir", "public"));
    table
}

#[test]
fn interpolate_replaces_a_placeholder() {
    assert_eq!(
        interpolate("{hugo} server -D", &table(), Platform::Linux),
        Ok("hugo server -D".to_string())
    );
    assert_eq!(
        interpolate("{hugo} server -D", &table(), Platform::Windows),
        Ok("hugo.exe server -D".to_string())
    );
}

#[test]
fn interpolate_replaces_every_placeholder() {
    assert_eq!(
        interpolate("{hugo}{hugo} -d {out dir}/{hugo}", &table(), Platform::Linux),
        Ok("hugohugo -d public/hugo".to_string())
    );
}

#[test]
fn interpolate_leaves_a_line_without_placeholders_unchanged() {
    for line in ["git add .", "", "   ", "echo {", "a } b { c", "}{", "{", "}", "ünïcödé → ok"] {
        assert_eq!(interpolate(line, &table(), Platform::Linux), Ok(line.to_string()));
    }
}

#[test]
fn interpolate_fails_on_an_unknown_alias() {
    assert_eq!(
        interpolate("{hugo} {nope} {hugo}", &table(), Platform::Linux),
        Err(ExecutionError::UnknownAlias("nope".to_string()))
    );
}

#[test]
fn interpolate_reports_the_leftmost_unknown_alias() {
    assert_eq!(
        interpolate("{first} {second}", &table(), Platform::Linux),
        Err(ExecutionError::UnknownAlias("first".to_string()))
    );
}

#[test]
fn interpolate_with_an_empty_table_fails_on_any_placeholder() {
    assert_eq!(
        interpolate("run {x}", &AliasTable::new(), Platform::Mac),
        Err(ExecutionError::UnknownAlias("x".to_string()))
    );
    assert_eq!(interpolate("run x", &AliasTable::new(), Platform::Mac), Ok("run x".to_string()));
}

#[test]
fn interpolate_does_not_scan_a_substituted_value_again() {
    assert_eq!(interpolate("{outer}", &table(), Platform::Linux), Ok("{hugo}".to_string()));
}

#[test]
fn interpolate_takes_the_innermost_braces_as_the_placeholder() {
    assert_eq!(interpolate("{ {hugo} }", &table(), Platform::Linux), Ok("{ hugo }".to_string()));
    assert_eq!(interpolate("{{hugo}}", &table(), Platform::Linux), Ok("{hugo}".to_string()));
    assert_eq!(interpolate("{a{hugo}", &table(), Platform::Linux), Ok("{ahugo".to_string()));
}

#[test]
fn interpolate_reads_an_empty_name_as_a_placeholder() {
    assert_eq!(
        interpolate("a {} b", &table(), Platform::Linux),
        Err(ExecutionError::UnknownAlias(String::new()))
    );
}

#[test]
fn interpolate_matches_names_exactly() {
    assert_eq!(
        interpolate("{Hugo}", &table(), Platform::Linux),
        Err(ExecutionError::UnknownAlias("Hugo".to_string()))
    );
    assert_eq!(
        interpolate("{ hugo }", &table(), Platform::Linux),
        Err(ExecutionError::UnknownAlias(" hugo ".to_string()))
    );
}

#[test]
fn interpolate_chars_agrees_with_interpolate() {
    let line: Vec<char> = "x {hugo} y".chars().collect();
    let expected: Vec<char> = "x hugo y".chars().collect();
    assert_eq!(interpolate_chars(&line, &table(), Platform::Bsd), Ok(expected));
}

#[test]
fn text_round_trips_through_characters() {
    let chars = chars_of("héllo");
    assert_eq!(chars, vec!['h', 'é', 'l', 'l', 'o']);
    assert_eq!(string_of(&chars, 0, 5), "héllo");
    assert_eq!(string_of(&chars, 1, 3), "él");
    assert_eq!(string_of(&chars, 2, 2), "");
}

#[test]
fn text_trim_drops_spaces_at_both_ends() {
    assert_eq!(trim(&chars_of(" \t a b \r\n")), chars_of("a b"));
    assert_eq!(trim(&chars_of("ab")), chars_of("ab"));
    assert_eq!(trim(&chars_of("   ")), chars_of(""));
    assert_eq!(trim(&chars_of("")), chars_of(""));
}

#[test]
fn text_comparison_is_exact() {
    assert!(same_text("abc", "abc"));
    assert!(!same_text("abc", "abd"));
    assert!(!same_text("abc", "ab"));
    assert!(same_text("", ""));
}
