use dosh::path::{join, resolve, split, walk};

fn texts(items: &[&str]) -> Vec<String> {
    items.iter().map(|s| s.to_string()).collect()
}

#[test]
fn resolve_enters_a_directory() {
    assert_eq!(resolve("/home/user/site", "public"), "/home/user/site/public");
}

#[test]
fn resolve_leaves_a_directory() {
    assert_eq!(resolve("/home/user/site/public", ".."), "/home/user/site");
}

#[test]
fn resolve_enter_then_leave_returns() {
    let inside = resolve("/srv/www", "public");
    assert_eq!(resolve(&inside, ".."), "/srv/www");
}

#[test]
fn resolve_follows_several_segments() {
    assert_eq!(resolve("/a/b", "../c/./d//e/"), "/a/c/d/e");
    assert_eq!(resolve("/a/b", "c/../../x"), "/a/x");
}

#[test]
fn resolve_takes_an_absolute_path_as_it_is() {
    assert_eq!(resolve("/a/b", "/x/y"), "/x/y");
    assert_eq!(resolve("/a/b", "/"), "/");
    assert_eq!(resolve("relative", "/x/../y"), "/y");
}

#[test]
fn resolve_stays_at_the_root() {
    assert_eq!(resolve("/", ".."), "/");
    assert_eq!(resolve("/a", "../../.."), "/");
    assert_eq!(resolve("/", "a"), "/a");
}

#[test]
fn resolve_keeps_leading_parents_of_a_relative_directory() {
    assert_eq!(resolve("a", ".."), ".");
    assert_eq!(resolve("a", "../.."), "..");
    assert_eq!(resolve("a", "../../../b"), "../../b");
    assert_eq!(resolve("", "x"), "x");
    assert_eq!(resolve("", ""), ".");
}

#[test]
fn resolve_normalises_the_working_directory() {
    assert_eq!(resolve("/a//b/./c/..", "."), "/a/b");
    assert_eq!(resolve("C:/Users/me/site", ".."), "C:/Users/me");
}

#[test]
fn split_cuts_at_every_slash() {
    assert_eq!(split("/a//b/"), texts(&["", "a", "", "b", ""]));
    assert_eq!(split("a"), texts(&["a"]));
    assert_eq!(split(""), texts(&[""]));
}

#[test]
fn walk_and_join_compose() {
    let mut stack = texts(&["", "a"]);
    walk(&mut stack, &texts(&["b", "..", "c"]));
    assert_eq!(stack, texts(&["", "a", "c"]));
    assert_eq!(join(&stack), "/a/c");
    assert_eq!(join(&texts(&[""])), "/");
    assert_eq!(join(&Vec::new()), ".");
    assert_eq!(join(&texts(&["a", "b"])), "a/b");
}
