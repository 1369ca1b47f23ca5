//! Commands: what the user names on the command line.

use vstd::prelude::*;
use crate::error::{ExecutionError, ExecutionErrorView};
use crate::text::{chars_of, copy_texts, find_text, lemma_position, position, same_text, string_of};

verus! {

/// A named command: a help text, the environments it is restricted to, and
/// the source lines of its run sequence.
///
/// A command without required environments runs under every environment.
/// A command whose run was given as one line holds that line alone.
#[derive(Debug, PartialEq, Eq)]
pub struct Command {
    pub name: String,
    pub description: String,
    pub required_environments: Vec<String>,
    pub run: Vec<String>,
}

/// A command as mathematical data.
pub struct CommandView {
    pub name: Seq<char>,
    pub description: Seq<char>,
    pub required_environments: Seq<Seq<char>>,
    pub run: Seq<Seq<char>>,
}

impl CommandView {
    /// Whether the command may run when `active` is the active environment.
    pub open spec fn eligible(self, active: Seq<char>) -> bool {
        self.required_environments.len() == 0 || self.required_environments.contains(active)
    }
}

impl View for Command {
    type V = CommandView;

    open spec fn view(&self) -> CommandView {
        CommandView {
            name: self.name@,
            description: self.description@,
            required_environments: self.required_environments.deep_view(),
            run: self.run.deep_view(),
        }
    }
}

impl Clone for Command {
    fn clone(&self) -> (r: Self)
        ensures
            r@ == self@,
    {
        Command {
            name: self.name.clone(),
            description: self.description.clone(),
            required_environments: copy_texts(&self.required_environments),
            run: copy_texts(&self.run),
        }
    }
}

impl Command {
    /// A command with a name and a help text, no required environment and
    /// an empty run sequence.
    pub fn new(name: &str, description: &str) -> (r: Self)
        ensures
            r@ == (CommandView {
                name: name@,
                description: description@,
                required_environments: Seq::empty(),
                run: Seq::empty(),
            }),
    {
        let r = Command {
            name: String::from_str(name),
            description: String::from_str(description),
            required_environments: Vec::new(),
            run: Vec::new(),
        };
        assert(r.required_environments.deep_view() =~= Seq::<Seq<char>>::empty());
        assert(r.run.deep_view() =~= Seq::<Seq<char>>::empty());
        r
    }

    /// The command that a script file declares: a file called `name.bzl`
    /// declares the command `name`, with the given help text. A file of
    /// another kind declares none.
    pub fn from_script(file_name: &str, description: &str) -> (r: Option<Self>)
        ensures
            match script_command_name(file_name@) {
                Some(name) => r matches Some(command) && command@ == (CommandView {
                    name,
                    description: description@,
                    required_environments: Seq::empty(),
                    run: Seq::empty(),
                }),
                None => r is None,
            },
    {
        let chars = chars_of(file_name);
        let suffix = chars_of(".bzl");
        if chars.len() < suffix.len() {
            return None;
        }
        let split = chars.len() - suffix.len();
        let ending = string_of(&chars, split, chars.len());
        if same_text(ending.as_str(), ".bzl") {
            let name = string_of(&chars, 0, split);
            Some(Command::new(name.as_str(), description))
        } else {
            None
        }
    }

    /// The same command with `line` added at the end of its run sequence.
    pub fn with_line(self, line: &str) -> (r: Self)
        ensures
            r@ == (CommandView { run: self@.run.push(line@), ..self@ }),
    {
        let mut r = self;
        r.run.push(String::from_str(line));
        assert(r.run.deep_view() =~= self@.run.push(line@));
        r
    }

    /// The same command with `environment` added to the environments it is
    /// restricted to.
    pub fn with_environment(self, environment: &str) -> (r: Self)
        ensures
            r@ == (CommandView {
                required_environments: self@.required_environments.push(environment@),
                ..self@
            }),
    {
        let mut r = self;
        r.required_environments.push(String::from_str(environment));
        assert(r.required_environments.deep_view() =~= self@.required_environments.push(
            environment@,
        ));
        r
    }

    /// Whether the command may run when `active` is the active environment.
    pub fn is_eligible(&self, active: &str) -> (r: bool)
        ensures
            r == self@.eligible(active@),
    {
        proof {
            lemma_position(self@.required_environments, active@);
        }
        self.required_environments.len() == 0 || find_text(
            &self.required_environments,
            active,
        ).is_some()
    }

    /// Passes where the command may run under `active`, and fails with
    /// `EnvironmentMismatch` where it may not.
    pub fn check_eligible(&self, active: &str) -> (r: Result<(), ExecutionError>)
        ensures
            match r {
                Ok(_) => self@.eligible(active@),
                Err(e) => !self@.eligible(active@) && e@ == (
                ExecutionErrorView::EnvironmentMismatch {
                    command: self@.name,
                    active: active@,
                    required: self@.required_environments,
                }),
            },
    {
        if self.is_eligible(active) {
            Ok(())
        } else {
            Err(
                ExecutionError::EnvironmentMismatch {
                    command: self.name.clone(),
                    active: String::from_str(active),
                    required: copy_texts(&self.required_environments),
                },
            )
        }
    }
}

/// The name of the command that a script file declares: the file name
/// without its ending `.bzl`; `None` where the file name does not end so.
pub open spec fn script_command_name(file_name: Seq<char>) -> Option<Seq<char>> {
    let split = file_name.len() - ".bzl"@.len();
    if split >= 0 && file_name.skip(split) == ".bzl"@ {
        Some(file_name.take(split))
    } else {
        None
    }
}

/// The names of a list of commands, in order.
pub open spec fn command_names(commands: Seq<CommandView>) -> Seq<Seq<char>> {
    Seq::new(commands.len(), |i: int| commands[i].name)
}

/// The command called `name`, if the list holds one.
pub open spec fn find_command(commands: Seq<CommandView>, name: Seq<char>) -> Option<CommandView> {
    let i = position(command_names(commands), name);
    if i < commands.len() {
        Some(commands[i])
    } else {
        None
    }
}

/// No two commands of the list share a name.
pub open spec fn distinct_commands(commands: Seq<CommandView>) -> bool {
    command_names(commands).no_duplicates()
}

/// The views of a list of commands.
pub open spec fn commands_view(commands: Seq<Command>) -> Seq<CommandView> {
    Seq::new(commands.len(), |i: int| commands[i]@)
}

} // verus!
