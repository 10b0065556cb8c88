//! The command resolver: the closed set of editor commands and the mapping
//! from a command name to its variant.

use vstd::prelude::*;
use vstd::string::StringExecFns;
use crate::errors::EditorError;
use crate::strings::str_eq;

verus! {

/// The six commands the editor understands.
#[derive(Clone, Copy, Debug, PartialEq, Eq, Structural)]
pub enum Command {
    View,
    Create,
    StrReplace,
    Insert,
    Delete,
    UndoEdit,
}

/// The command denoted by a command name, if any.
pub open spec fn command_of(s: Seq<char>) -> Option<Command> {
    if s == "view"@ {
        Some(Command::View)
    } else if s == "create"@ {
        Some(Command::Create)
    } else if s == "str_replace"@ {
        Some(Command::StrReplace)
    } else if s == "insert"@ {
        Some(Command::Insert)
    } else if s == "delete"@ {
        Some(Command::Delete)
    } else if s == "undo_edit"@ {
        Some(Command::UndoEdit)
    } else {
        None
    }
}

impl Command {
    /// The name under which each command is requested.
    pub open spec fn name_spec(self) -> Seq<char> {
        match self {
            Command::View => "view"@,
            Command::Create => "create"@,
            Command::StrReplace => "str_replace"@,
            Command::Insert => "insert"@,
            Command::Delete => "delete"@,
            Command::UndoEdit => "undo_edit"@,
        }
    }

    /// Returns the command's name.
    pub fn name(&self) -> (r: String)
        ensures
            r@ == self.name_spec(),
    {
        match self {
            Command::View => String::from_str("view"),
            Command::Create => String::from_str("create"),
            Command::StrReplace => String::from_str("str_replace"),
            Command::Insert => String::from_str("insert"),
            Command::Delete => String::from_str("delete"),
            Command::UndoEdit => String::from_str("undo_edit"),
        }
    }
}

/// Resolves a command name; an unknown name is rejected with an error that
/// carries the name verbatim.
pub fn parse_command(s: &str) -> (r: Result<Command, EditorError>)
    ensures
        match r {
            Ok(c) => command_of(s@) == Some(c),
            Err(e) => command_of(s@) is None && match e {
                EditorError::UnknownCommand(name) => name@ == s@,
                _ => false,
            },
        },
{
    if str_eq(s, "view") {
        Ok(Command::View)
    } else if str_eq(s, "create") {
        Ok(Command::Create)
    } else if str_eq(s, "str_replace") {
        Ok(Command::StrReplace)
    } else if str_eq(s, "insert") {
        Ok(Command::Insert)
    } else if str_eq(s, "delete") {
        Ok(Command::Delete)
    } else if str_eq(s, "undo_edit") {
        Ok(Command::UndoEdit)
    } else {
        Err(EditorError::UnknownCommand(s.to_owned()))
    }
}

impl core::str::FromStr for Command {
    type Err = EditorError;

    fn from_str(s: &str) -> Result<Command, EditorError> {
        parse_command(s)
    }
}

} // verus!
