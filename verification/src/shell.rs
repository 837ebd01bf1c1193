//! What the interactive shell does with one line of input.
use crate::token::str_equal;
use vstd::prelude::*;

verus! {

/// The shell's answer to a line.
#[derive(Debug, PartialEq, Eq, Structural)]
pub enum ShellAction {
    /// An empty line: prompt again.
    Skip,
    /// `\q`: leave the shell.
    Exit,
    /// Anything else: report it as an unknown command.
    Report,
}

/// Decides what the shell does with a line, read without its line break.
pub fn shell_step(line: &str) -> (r: ShellAction)
    ensures
        r == if line@.len() == 0 {
            ShellAction::Skip
        } else if line@ == "\\q"@ {
            ShellAction::Exit
        } else {
            ShellAction::Report
        },
{
    if line.unicode_len() == 0 {
        ShellAction::Skip
    } else if str_equal(line, "\\q") {
        ShellAction::Exit
    } else {
        ShellAction::Report
    }
}

} // verus!
