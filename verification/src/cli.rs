//! The data model of the command-line surface. The interactive layer parses
//! arguments and prompts the user; the core only ever sees these plain
//! values.

use vstd::prelude::*;

use crate::text::str_eq;

verus! {

/// A parsed invocation.
pub struct Cli {
    pub command: Commands,
}

/// The subcommands the tool offers.
pub enum Commands {
    /// List connected USB devices.
    Devices,
    /// Flash an image to a device.
    Flash { image: String },
    /// Run a script from a file.
    Script { script: String },
    /// Interactive shell of single commands.
    Shell,
}

/// What the interactive shell does with one entered line.
#[derive(Debug)]
pub enum ShellAction {
    /// Leave the shell.
    Quit,
    /// An empty entry: prompt again without contacting the device.
    Skip,
    /// Hand the line to the device driver as a command.
    Run,
}

/// Decides what the interactive shell does with an entered line: `exit` or
/// `quit` leaves, an empty line is ignored, anything else is run as a
/// device command.
pub fn shell_action(entry: &str) -> (a: ShellAction)
    ensures
        (entry@ == "exit"@ || entry@ == "quit"@) <==> a is Quit,
        (entry@ != "exit"@ && entry@ != "quit"@ && entry@.len() == 0) <==> a is Skip,
        (entry@ != "exit"@ && entry@ != "quit"@ && entry@.len() > 0) <==> a is Run,
{
    if str_eq(entry, "exit") || str_eq(entry, "quit") {
        ShellAction::Quit
    } else if entry.is_empty() {
        ShellAction::Skip
    } else {
        ShellAction::Run
    }
}

} // verus!
