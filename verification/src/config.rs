//! The configuration: the aliases, commands and environments that the
//! engine works from. The engine only reads it.

use vstd::prelude::*;
use crate::alias::{distinct_aliases, lookup, Alias, AliasTable, AliasView};
use crate::command::{
    command_names,
    commands_view,
    distinct_commands,
    find_command,
    Command,
    CommandView,
};
use crate::error::{ExecutionError, ExecutionErrorView};
use crate::text::{find_text, lemma_position, position, position_from, same_text};

verus! {

/// Aliases, commands and environments. No two aliases share a name, and no
/// two commands do.
#[derive(Debug)]
pub struct Config {
    aliases: AliasTable,
    commands: Vec<Command>,
    environments: Vec<String>,
}

/// A configuration as mathematical data.
pub struct ConfigView {
    pub aliases: Seq<AliasView>,
    pub commands: Seq<CommandView>,
    pub environments: Seq<Seq<char>>,
}

impl ConfigView {
    /// The invariant of a configuration: names are unique among its aliases
    /// and among its commands.
    pub open spec fn well_formed(self) -> bool {
        distinct_aliases(self.aliases) && distinct_commands(self.commands)
    }
}

impl View for Config {
    type V = ConfigView;

    closed spec fn view(&self) -> ConfigView {
        ConfigView {
            aliases: self.aliases@,
            commands: commands_view(self.commands@),
            environments: self.environments.deep_view(),
        }
    }
}

impl Config {
    #[verifier::type_invariant]
    spec fn inv(&self) -> bool {
        self@.well_formed()
    }

    /// A configuration that holds nothing.
    pub fn new() -> (r: Self)
        ensures
            r@ == (ConfigView {
                aliases: Seq::empty(),
                commands: Seq::empty(),
                environments: Seq::empty(),
            }),
            r@.well_formed(),
    {
        let aliases = AliasTable::new();
        let r = Config { aliases, commands: Vec::new(), environments: Vec::new() };
        assert(r@.commands =~= Seq::<CommandView>::empty());
        assert(r@.environments =~= Seq::<Seq<char>>::empty());
        r
    }

    /// Adds `alias` unless an alias of that name exists already, and says
    /// whether it was added.
    pub fn add_alias(&mut self, alias: Alias) -> (added: bool)
        ensures
            added == (lookup(old(self)@.aliases, alias@.name) is None),
            final(self)@ == if added {
                ConfigView { aliases: old(self)@.aliases.push(alias@), ..old(self)@ }
            } else {
                old(self)@
            },
            final(self)@.well_formed(),
    {
        proof {
            use_type_invariant(&*self);
        }
        let mut table = AliasTable::new();
        std::mem::swap(&mut table, &mut self.aliases);
        let added = table.insert(alias);
        self.aliases = table;
        added
    }

    /// Adds `command` unless a command of that name exists already, and
    /// says whether it was added.
    pub fn add_command(&mut self, command: Command) -> (added: bool)
        ensures
            added == (find_command(old(self)@.commands, command@.name) is None),
            final(self)@ == if added {
                ConfigView { commands: old(self)@.commands.push(command@), ..old(self)@ }
            } else {
                old(self)@
            },
            final(self)@.well_formed(),
    {
        proof {
            use_type_invariant(&*self);
        }
        let found = self.find_command(command.name.as_str()).is_some();
        if found {
            return false;
        }
        proof {
            let names = command_names(self@.commands);
            lemma_position(names, command@.name);
            assert(command_names(self@.commands.push(command@)) =~= names.push(command@.name));
            assert(!names.contains(command@.name));
            assert(names.push(command@.name).no_duplicates());
        }
        let mut commands: Vec<Command> = Vec::new();
        std::mem::swap(&mut commands, &mut self.commands);
        commands.push(command);
        assert(commands_view(commands@) =~= old(self)@.commands.push(command@));
        self.commands = commands;
        true
    }

    /// Declares `environment` unless it is declared already, and says
    /// whether it was added.
    pub fn add_environment(&mut self, environment: &str) -> (added: bool)
        ensures
            added == !old(self)@.environments.contains(environment@),
            final(self)@ == if added {
                ConfigView {
                    environments: old(self)@.environments.push(environment@),
                    ..old(self)@
                }
            } else {
                old(self)@
            },
            final(self)@.well_formed(),
    {
        proof {
            use_type_invariant(&*self);
            lemma_position(self@.environments, environment@);
        }
        if find_text(&self.environments, environment).is_some() {
            return false;
        }
        let mut environments: Vec<String> = Vec::new();
        std::mem::swap(&mut environments, &mut self.environments);
        environments.push(String::from_str(environment));
        assert(environments.deep_view() =~= old(self)@.environments.push(environment@));
        self.environments = environments;
        true
    }

    /// The alias table.
    pub fn aliases(&self) -> (r: &AliasTable)
        ensures
            r@ == self@.aliases,
    {
        &self.aliases
    }

    /// The declared environments, in the order of their declaration.
    pub fn environments(&self) -> (r: &Vec<String>)
        ensures
            r.deep_view() == self@.environments,
    {
        &self.environments
    }

    /// The environment that is active where the caller names none: the
    /// first declared one.
    pub fn default_environment(&self) -> (r: Option<&String>)
        ensures
            match r {
                Some(environment) => self@.environments.len() > 0 && environment@
                    == self@.environments[0],
                None => self@.environments.len() == 0,
            },
    {
        if self.environments.len() > 0 {
            Some(&self.environments[0])
        } else {
            None
        }
    }

    /// The number of commands.
    pub fn command_count(&self) -> (r: usize)
        ensures
            r == self@.commands.len(),
            self@.well_formed(),
    {
        proof {
            use_type_invariant(self);
        }
        self.commands.len()
    }

    /// The command called `name`, if there is one.
    pub fn find_command(&self, name: &str) -> (r: Option<&Command>)
        ensures
            match r {
                Some(command) => find_command(self@.commands, name@) == Some(command@),
                None => find_command(self@.commands, name@) is None,
            },
    {
        let mut i: usize = 0;
        while i < self.commands.len()
            invariant
                i <= self.commands.len(),
                position(command_names(self@.commands), name@) == position_from(
                    command_names(self@.commands),
                    name@,
                    i as int,
                ),
            decreases self.commands.len() - i,
        {
            if same_text(self.commands[i].name.as_str(), name) {
                return Some(&self.commands[i]);
            }
            i += 1;
        }
        None
    }

    /// The command called `name`; fails with `CommandNotFound` where there
    /// is none.
    pub fn resolve(&self, name: &str) -> (r: Result<&Command, ExecutionError>)
        ensures
            match find_command(self@.commands, name@) {
                Some(command) => r matches Ok(c) && c@ == command,
                None => r matches Err(e) && e@ == ExecutionErrorView::CommandNotFound(name@),
            },
    {
        match self.find_command(name) {
            Some(command) => Ok(command),
            None => Err(ExecutionError::CommandNotFound(String::from_str(name))),
        }
    }

    /// The commands, in the order in which they were added.
    pub fn get_commands(self) -> (r: Vec<Command>)
        ensures
            commands_view(r@) == self@.commands,
    {
        self.commands
    }

    /// The name and the help text of every command, in the order in which
    /// the commands were added.
    pub fn available_commands(&self) -> (r: Vec<(String, String)>)
        ensures
            r.len() == self@.commands.len(),
            forall|i: int|
                0 <= i < r.len() ==> (#[trigger] r@[i]).0@ == self@.commands[i].name && r@[i].1@
                    == self@.commands[i].description,
    {
        let mut r: Vec<(String, String)> = Vec::new();
        let mut i: usize = 0;
        while i < self.commands.len()
            invariant
                i <= self.commands.len(),
                r.len() == i,
                forall|j: int|
                    0 <= j < i ==> (#[trigger] r@[j]).0@ == self@.commands[j].name && r@[j].1@
                        == self@.commands[j].description,
            decreases self.commands.len() - i,
        {
            let command = &self.commands[i];
            r.push((command.name.clone(), command.description.clone()));
            i += 1;
        }
        r
    }
}

} // verus!
