use dosh::command::Command;
use dosh::error::ExecutionError;
use dosh::text::{decimal_of, join_with};

#[test]
fn decimal_of_writes_every_digit() {
    assert_eq!(decimal_of(0), "0");
    assert_eq!(decimal_of(7), "7");
    assert_eq!(decimal_of(10), "10");
    assert_eq!(decimal_of(1234567890), "1234567890");
    assert_eq!(decimal_of(2147483647), "2147483647");
}

#[test]
fn decimal_of_writes_a_minus_sign() {
    assert_eq!(decimal_of(-1), "-1");
    assert_eq!(decimal_of(-907), "-907");
    assert_eq!(decimal_of(i32::MIN), "-2147483648");
}

#[test]
fn join_with_puts_the_separator_between() {
    let items = vec!["a".to_string(), "".to_string(), "c".to_string()];
    assert_eq!(join_with(&items, ", "), "a, , c");
    assert_eq!(join_with(&items[..1].to_vec(), ", "), "a");
    assert_eq!(join_with(&Vec::new(), ", "), "");
}

#[test]
fn message_names_what_went_wrong() {
    assert_eq!(
        ExecutionError::CommandNotFound("publish".to_string()).message(),
        "command not found: publish"
    );
    assert_eq!(ExecutionError::UnknownAlias("huga".to_string()).message(), "unknown alias: huga");
    assert_eq!(
        ExecutionError::MalformedDirective("CD".to_string()).message(),
        "malformed directive: CD"
    );
    assert_eq!(
        ExecutionError::DirectoryNotFound("public".to_string()).message(),
        "directory not found: public"
    );
    assert_eq!(ExecutionError::Interrupted.message(), "interrupted");
}

#[test]
fn message_carries_the_environments() {
    let error = ExecutionError::EnvironmentMismatch {
        command: "deploy".to_string(),
        active: "TEST".to_string(),
        required: vec!["PROD".to_string(), "STAGE".to_string()],
    };
    assert_eq!(
        error.message(),
        "command deploy cannot run in environment TEST, it requires one of: PROD, STAGE"
    );
}

#[test]
fn message_carries_the_chain() {
    let error = ExecutionError::CyclicInvocation(vec![
        "A".to_string(),
        "B".to_string(),
        "A".to_string(),
    ]);
    assert_eq!(error.message(), "cyclic invocation: A -> B -> A");
}

#[test]
fn message_carries_the_exit_code_and_the_line() {
    let failed = ExecutionError::ShellCommandFailed { line: "git add .".to_string(), code: 128 };
    assert_eq!(failed.message(), "exit code 128 from: git add .");
    let negative = ExecutionError::ShellCommandFailed { line: "x".to_string(), code: -7 };
    assert_eq!(negative.message(), "exit code -7 from: x");
    let spawn = ExecutionError::SpawnError { line: "hugo".to_string(), cause: "no sh".to_string() };
    assert_eq!(spawn.message(), "could not run: hugo, no sh");
}

#[test]
fn exit_code_is_never_zero() {
    assert_eq!(ExecutionError::ShellCommandFailed { line: String::new(), code: 3 }.exit_code(), 3);
    assert_eq!(ExecutionError::ShellCommandFailed { line: String::new(), code: -1 }.exit_code(), -1);
    assert_eq!(ExecutionError::ShellCommandFailed { line: String::new(), code: 0 }.exit_code(), 1);
    assert_eq!(ExecutionError::Interrupted.exit_code(), 1);
    assert_eq!(ExecutionError::CommandNotFound("x".to_string()).exit_code(), 1);
    assert_eq!(ExecutionError::CyclicInvocation(Vec::new()).exit_code(), 1);
}

#[test]
fn script_file_declares_a_command() {
    assert_eq!(Command::from_script("build.bzl", "Build"), Some(Command::new("build", "Build")));
    assert_eq!(Command::from_script("a.b.bzl", ""), Some(Command::new("a.b", "")));
    assert_eq!(Command::from_script(".bzl", ""), Some(Command::new("", "")));
}

#[test]
fn other_files_declare_no_command() {
    assert_eq!(Command::from_script("build", ""), None);
    assert_eq!(Command::from_script("build.bzl.txt", ""), None);
    assert_eq!(Command::from_script("bzl", ""), None);
    assert_eq!(Command::from_script("", ""), None);
    assert_eq!(Command::from_script("build.BZL", ""), None);
}
