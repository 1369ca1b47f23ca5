//! The ways in which an invocation can fail.

use vstd::prelude::*;
use crate::text::{copy_texts, decimal, decimal_of, join_with, joined_with};

verus! {

/// Why an invocation stopped. Every failure is final: nothing is retried and
/// nothing that already ran is rolled back.
#[derive(Debug, PartialEq, Eq)]
pub enum ExecutionError {
    /// No command of this name exists in the configuration.
    CommandNotFound(String),
    /// The command is restricted to environments that do not include the
    /// active one.
    EnvironmentMismatch { command: String, active: String, required: Vec<String> },
    /// The command is already being expanded. The chain is the call stack at
    /// that point, with the repeated name appended.
    CyclicInvocation(Vec<String>),
    /// A placeholder names an alias that the alias table does not hold.
    UnknownAlias(String),
    /// The line starts with a directive verb whose arguments are missing or
    /// ill-formed.
    MalformedDirective(String),
    /// The directory, as written in the directive, does not exist.
    DirectoryNotFound(String),
    /// The shell ran the line and it ended with a status other than zero.
    ShellCommandFailed { line: String, code: i32 },
    /// The shell could not be started for the line.
    SpawnError { line: String, cause: String },
    /// The invocation was cancelled from outside.
    Interrupted,
}

/// What an [`ExecutionError`] holds, as mathematical text.
pub enum ExecutionErrorView {
    CommandNotFound(Seq<char>),
    EnvironmentMismatch { command: Seq<char>, active: Seq<char>, required: Seq<Seq<char>> },
    CyclicInvocation(Seq<Seq<char>>),
    UnknownAlias(Seq<char>),
    MalformedDirective(Seq<char>),
    DirectoryNotFound(Seq<char>),
    ShellCommandFailed { line: Seq<char>, code: i32 },
    SpawnError { line: Seq<char>, cause: Seq<char> },
    Interrupted,
}

impl View for ExecutionError {
    type V = ExecutionErrorView;

    open spec fn view(&self) -> ExecutionErrorView {
        match *self {
            ExecutionError::CommandNotFound(name) => ExecutionErrorView::CommandNotFound(name@),
            ExecutionError::EnvironmentMismatch { command, active, required } => {
                ExecutionErrorView::EnvironmentMismatch {
                    command: command@,
                    active: active@,
                    required: required.deep_view(),
                }
            },
            ExecutionError::CyclicInvocation(chain) => ExecutionErrorView::CyclicInvocation(
                chain.deep_view(),
            ),
            ExecutionError::UnknownAlias(name) => ExecutionErrorView::UnknownAlias(name@),
            ExecutionError::MalformedDirective(line) => ExecutionErrorView::MalformedDirective(
                line@,
            ),
            ExecutionError::DirectoryNotFound(path) => ExecutionErrorView::DirectoryNotFound(
                path@,
            ),
            ExecutionError::ShellCommandFailed { line, code } => {
                ExecutionErrorView::ShellCommandFailed { line: line@, code }
            },
            ExecutionError::SpawnError { line, cause } => ExecutionErrorView::SpawnError {
                line: line@,
                cause: cause@,
            },
            ExecutionError::Interrupted => ExecutionErrorView::Interrupted,
        }
    }
}

impl Clone for ExecutionError {
    fn clone(&self) -> (r: Self)
        ensures
            r@ == self@,
    {
        match self {
            ExecutionError::CommandNotFound(name) => ExecutionError::CommandNotFound(name.clone()),
            ExecutionError::EnvironmentMismatch { command, active, required } => {
                ExecutionError::EnvironmentMismatch {
                    command: command.clone(),
                    active: active.clone(),
                    required: copy_texts(required),
                }
            },
            ExecutionError::CyclicInvocation(chain) => ExecutionError::CyclicInvocation(
                copy_texts(chain),
            ),
            ExecutionError::UnknownAlias(name) => ExecutionError::UnknownAlias(name.clone()),
            ExecutionError::MalformedDirective(line) => ExecutionError::MalformedDirective(
                line.clone(),
            ),
            ExecutionError::DirectoryNotFound(path) => ExecutionError::DirectoryNotFound(
                path.clone(),
            ),
            ExecutionError::ShellCommandFailed { line, code } => {
                ExecutionError::ShellCommandFailed { line: line.clone(), code: *code }
            },
            ExecutionError::SpawnError { line, cause } => ExecutionError::SpawnError {
                line: line.clone(),
                cause: cause.clone(),
            },
            ExecutionError::Interrupted => ExecutionError::Interrupted,
        }
    }
}

/// The message that describes an error to the user.
pub open spec fn message_text(error: ExecutionErrorView) -> Seq<char> {
    match error {
        ExecutionErrorView::CommandNotFound(name) => "command not found: "@ + name,
        ExecutionErrorView::EnvironmentMismatch { command, active, required } => "command "@
            + command + " cannot run in environment "@ + active + ", it requires one of: "@
            + joined_with(required, ", "@, required.len() as int),
        ExecutionErrorView::CyclicInvocation(chain) => "cyclic invocation: "@ + joined_with(
            chain,
            " -> "@,
            chain.len() as int,
        ),
        ExecutionErrorView::UnknownAlias(name) => "unknown alias: "@ + name,
        ExecutionErrorView::MalformedDirective(line) => "malformed directive: "@ + line,
        ExecutionErrorView::DirectoryNotFound(path) => "directory not found: "@ + path,
        ExecutionErrorView::ShellCommandFailed { line, code } => "exit code "@ + decimal(
            code as int,
        ) + " from: "@ + line,
        ExecutionErrorView::SpawnError { line, cause } => "could not run: "@ + line + ", "@
            + cause,
        ExecutionErrorView::Interrupted => "interrupted"@,
    }
}

/// The exit status with which a program reports an error: the status of the
/// shell line that failed where there is one, and 1 otherwise. It is never
/// zero.
pub open spec fn exit_status(error: ExecutionErrorView) -> i32 {
    match error {
        ExecutionErrorView::ShellCommandFailed { line, code } => if code != 0 {
            code
        } else {
            1
        },
        _ => 1,
    }
}

impl ExecutionError {
    /// The message that describes the error to the user: what went wrong,
    /// with the name, line, path, chain or exit code that it went wrong on.
    pub fn message(&self) -> (r: String)
        ensures
            r@ == message_text(self@),
    {
        match self {
            ExecutionError::CommandNotFound(name) => {
                String::from_str("command not found: ").concat(name.as_str())
            },
            ExecutionError::EnvironmentMismatch { command, active, required } => {
                let list = join_with(required, ", ");
                String::from_str("command ").concat(command.as_str()).concat(
                    " cannot run in environment ",
                ).concat(active.as_str()).concat(", it requires one of: ").concat(list.as_str())
            },
            ExecutionError::CyclicInvocation(chain) => {
                let list = join_with(chain, " -> ");
                String::from_str("cyclic invocation: ").concat(list.as_str())
            },
            ExecutionError::UnknownAlias(name) => {
                String::from_str("unknown alias: ").concat(name.as_str())
            },
            ExecutionError::MalformedDirective(line) => {
                String::from_str("malformed directive: ").concat(line.as_str())
            },
            ExecutionError::DirectoryNotFound(path) => {
                String::from_str("directory not found: ").concat(path.as_str())
            },
            ExecutionError::ShellCommandFailed { line, code } => {
                let number = decimal_of(*code);
                String::from_str("exit code ").concat(number.as_str()).concat(" from: ").concat(
                    line.as_str(),
                )
            },
            ExecutionError::SpawnError { line, cause } => {
                String::from_str("could not run: ").concat(line.as_str()).concat(", ").concat(
                    cause.as_str(),
                )
            },
            ExecutionError::Interrupted => String::from_str("interrupted"),
        }
    }

    /// The exit status with which a program reports the error.
    pub fn exit_code(&self) -> (r: i32)
        ensures
            r == exit_status(self@),
            r != 0,
    {
        match self {
            ExecutionError::ShellCommandFailed { line, code } => {
                if *code != 0 {
                    *code
                } else {
                    1
                }
            },
            _ => 1,
        }
    }
}

} // verus!
