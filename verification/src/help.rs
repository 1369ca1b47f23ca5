//! The usage text: a heading and one line for every command.

use vstd::prelude::*;
use crate::command::CommandView;
use crate::config::{Config, ConfigView};

verus! {

/// The heading of the usage text.
pub open spec fn heading() -> Seq<char> {
    "Available commands:"@
}

/// `text` between the terminal's codes for cyan and for the end of styling.
pub open spec fn in_cyan(text: Seq<char>) -> Seq<char> {
    "\x1b[36m"@ + text + "\x1b[0m"@
}

/// The line of the usage text that describes one command.
pub open spec fn entry_line(command: CommandView) -> Seq<char> {
    "  > "@ + command.name + ": "@ + command.description
}

/// The usage text under the given title: the title, then the line of every
/// command, in order.
pub open spec fn help_text(title: Seq<char>, commands: Seq<CommandView>) -> Seq<Seq<char>> {
    seq![title] + Seq::new(commands.len(), |i: int| entry_line(commands[i]))
}

/// Styles `text` with `console::style(text).cyan()` and writes the styled
/// value out. The crate decides by the terminal and the environment whether
/// colours are in use: where they are, the text comes back between the code
/// for cyan and the code that ends styling; where they are not, it comes
/// back as it was. Which of the two happens is not known here.
#[verifier::external_body]
fn cyan(text: &str) -> (r: String)
    ensures
        r@ == text@ || r@ == in_cyan(text@),
{
    console::style(text).cyan().to_string()
}

/// The usage text of a configuration.
#[derive(Debug)]
pub struct Help {
    config: Config,
}

impl Help {
    /// The configuration that the usage text describes.
    pub closed spec fn configuration(&self) -> ConfigView {
        self.config@
    }

    /// The usage text of `config`.
    pub fn new(config: Config) -> (r: Self)
        ensures
            r.configuration() == config@,
    {
        Help { config }
    }

    /// The usage text under a title of the caller's choice.
    pub fn render(&self, title: &str) -> (r: Vec<String>)
        ensures
            r.deep_view() == help_text(title@, self.configuration().commands),
    {
        let commands = self.config.available_commands();
        let mut lines: Vec<String> = Vec::new();
        lines.push(String::from_str(title));
        assert(lines.deep_view() =~= seq![title@] + Seq::new(
            0nat,
            |j: int| entry_line(self.config@.commands[j]),
        ));
        let mut i: usize = 0;
        while i < commands.len()
            invariant
                i <= commands.len(),
                commands.len() == self.config@.commands.len(),
                forall|j: int|
                    0 <= j < commands.len() ==> (#[trigger] commands@[j]).0@
                        == self.config@.commands[j].name && commands@[j].1@
                        == self.config@.commands[j].description,
                lines.deep_view() == seq![title@] + Seq::new(
                    i as nat,
                    |j: int| entry_line(self.config@.commands[j]),
                ),
            decreases commands.len() - i,
        {
            let ghost before = lines.deep_view();
            let mut line = String::from_str("  > ");
            line.append(commands[i].0.as_str());
            line.append(": ");
            line.append(commands[i].1.as_str());
            lines.push(line);
            assert(line@ == entry_line(self.config@.commands[i as int]));
            assert(lines.deep_view() =~= before.push(line@));
            assert(before.push(line@) =~= seq![title@] + Seq::new(
                (i + 1) as nat,
                |j: int| entry_line(self.config@.commands[j]),
            ));
            i += 1;
        }
        lines
    }

    /// The usage text under the standard heading. The heading is in cyan
    /// where the terminal takes colours and plain where it does not.
    pub fn lines(&self) -> (r: Vec<String>)
        ensures
            r.deep_view() == help_text(heading(), self.configuration().commands) || r.deep_view()
                == help_text(in_cyan(heading()), self.configuration().commands),
    {
        let title = cyan("Available commands:");
        self.render(title.as_str())
    }
}

} // verus!
