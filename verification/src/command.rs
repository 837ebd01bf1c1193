//! Command is the representation for a DB command that provides additional information about
//! tables, and other database objects. It is sort of a meta command in SQLite sense.
use crate::text::{trim, trimmed};
use crate::token::str_equal;
use vstd::prelude::*;

verus! {

#[derive(Debug, PartialEq)]
pub enum Command {
    DescribeTable(String),
    Unknown(String),
    ShowTables,
    ShowDatabases,
    Exit,
}

impl Command {
    /// Reads a command from a line of input, without the white space at
    /// either end of it (`From<&str>`).
    pub fn from(input: &str) -> (r: Command)
        ensures
            ({
                let line = trimmed(input@);
                match r {
                    Command::Exit => line == "\\q"@,
                    Command::ShowTables => line == "\\dt"@,
                    Command::ShowDatabases => line == "\\dd"@,
                    Command::Unknown(u) => u@ == line && line != "\\q"@ && line != "\\dt"@
                        && line != "\\dd"@,
                    Command::DescribeTable(_) => false,
                }
            }),
    {
        let input = trim(input);
        if str_equal(input.as_str(), "\\q") {
            Command::Exit
        } else if str_equal(input.as_str(), "\\dt") {
            Command::ShowTables
        } else if str_equal(input.as_str(), "\\dd") {
            Command::ShowDatabases
        } else {
            Command::Unknown(input)
        }
    }
}

} // verus!
