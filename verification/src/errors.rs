//! The classified errors of the engine, with structured payloads, and the
//! verified rendering of each to its observable message text.

use vstd::prelude::*;
use vstd::string::StringExecFns;
use crate::strings::usize_to_string;
use crate::strings::dec_rep;

verus! {

/// Everything that can go wrong while resolving and performing one command.
/// Payloads are structured (paths, counts, sub-messages); the observable
/// message text comes from [`EditorError::render`].
#[derive(Debug)]
pub enum EditorError {
    /// The command name is not one of the six known commands.
    UnknownCommand(String),
    /// The path does not start with `/`.
    NotAbsolutePath(String),
    /// The path must exist for this command but does not.
    PathNotFound(String),
    /// `create` refuses to overwrite an existing path.
    FileAlreadyExists(String),
    /// Only `view` may target a directory.
    DirectoryNotAllowed(String),
    /// A line range, insert position or delete range is malformed or out of
    /// bounds; the payload describes the violated bound.
    InvalidRange(String),
    /// A `view_range` was supplied while viewing a directory.
    ViewRangeForDirectory,
    /// The replacement found no occurrence at all.
    NoMatch { use_pattern: bool },
    /// The replacement found more than one occurrence and multi-replacement
    /// was not allowed.
    AmbiguousMatch { use_pattern: bool, count: usize },
    /// The pattern did not compile; the payload is the compiler's message.
    InvalidPattern(String),
    /// A field required by the resolved command was absent.
    MissingFileText,
    MissingOldStr,
    MissingNewStr,
    MissingInsertLine,
    MissingDeleteRange,
    /// Undo is not supported in this stateless deployment.
    UndoUnavailable,
    /// An underlying file-system failure, wrapping the native error text.
    Io(String),
}

/// The exact message text of each error.
pub open spec fn message_of(e: EditorError) -> Seq<char> {
    match e {
        EditorError::UnknownCommand(name) => "Unrecognized command "@ + name@
            + ". The allowed commands for the str_replace_editor tool are: view, create, str_replace, insert, delete, undo_edit"@,
        EditorError::NotAbsolutePath(p) => "The path "@ + p@
            + " is not an absolute path, it should start with `/`. Maybe you meant /"@ + p@ + "?"@,
        EditorError::PathNotFound(p) => "The path "@ + p@
            + " does not exist. Please provide a valid path."@,
        EditorError::FileAlreadyExists(p) => "File already exists at: "@ + p@
            + ". Cannot overwrite files using command `create`."@,
        EditorError::DirectoryNotAllowed(p) => "The path "@ + p@
            + " is a directory and only the `view` command can be used on directories"@,
        EditorError::InvalidRange(m) => "Invalid range: "@ + m@,
        EditorError::ViewRangeForDirectory =>
            "The `view_range` parameter is not allowed when `path` points to a directory."@,
        EditorError::NoMatch { use_pattern } => if use_pattern {
            "The regex pattern does not match anywhere in the file."@
        } else {
            "The string was not found in the file."@
        },
        EditorError::AmbiguousMatch { use_pattern, count } => if use_pattern {
            "The regex pattern matches in multiple places ("@ + dec_rep(count as nat)
                + " matches). Use `allow_multi: true` if you want to replace all occurrences."@
        } else {
            "The string occurs in multiple places ("@ + dec_rep(count as nat)
                + " occurrences). Use `allow_multi: true` if you want to replace all occurrences."@
        },
        EditorError::InvalidPattern(m) => "Invalid regex pattern: "@ + m@,
        EditorError::MissingFileText => "Parameter `file_text` is required for command: create"@,
        EditorError::MissingOldStr => "Parameter `old_str` is required for command: str_replace"@,
        EditorError::MissingNewStr => "Parameter `new_str` is required for command: insert"@,
        EditorError::MissingInsertLine =>
            "Parameter `insert_line` is required for command: insert"@,
        EditorError::MissingDeleteRange =>
            "Parameter `delete_range` is required for command: delete"@,
        EditorError::UndoUnavailable =>
            "The undo_edit command is not implemented in this CLI. Please use git for version control."@,
        EditorError::Io(m) => "IO error: "@ + m@,
    }
}

impl EditorError {
    /// Renders the error as its observable message text.
    pub fn render(&self) -> (s: String)
        ensures
            s@ == message_of(*self),
    {
        match self {
            EditorError::UnknownCommand(name) => {
                let mut s = String::from_str("Unrecognized command ");
                s.append(name.as_str());
                s.append(
                    ". The allowed commands for the str_replace_editor tool are: view, create, str_replace, insert, delete, undo_edit",
                );
                s
            },
            EditorError::NotAbsolutePath(p) => {
                let mut s = String::from_str("The path ");
                s.append(p.as_str());
                s.append(" is not an absolute path, it should start with `/`. Maybe you meant /");
                s.append(p.as_str());
                s.append("?");
                s
            },
            EditorError::PathNotFound(p) => {
                let mut s = String::from_str("The path ");
                s.append(p.as_str());
                s.append(" does not exist. Please provide a valid path.");
                s
            },
            EditorError::FileAlreadyExists(p) => {
                let mut s = String::from_str("File already exists at: ");
                s.append(p.as_str());
                s.append(". Cannot overwrite files using command `create`.");
                s
            },
            EditorError::DirectoryNotAllowed(p) => {
                let mut s = String::from_str("The path ");
                s.append(p.as_str());
                s.append(" is a directory and only the `view` command can be used on directories");
                s
            },
            EditorError::InvalidRange(m) => {
                let mut s = String::from_str("Invalid range: ");
                s.append(m.as_str());
                s
            },
            EditorError::ViewRangeForDirectory => String::from_str(
                "The `view_range` parameter is not allowed when `path` points to a directory.",
            ),
            EditorError::NoMatch { use_pattern } => {
                if *use_pattern {
                    String::from_str("The regex pattern does not match anywhere in the file.")
                } else {
                    String::from_str("The string was not found in the file.")
                }
            },
            EditorError::AmbiguousMatch { use_pattern, count } => {
                if *use_pattern {
                    let mut s = String::from_str("The regex pattern matches in multiple places (");
                    let n = usize_to_string(*count);
                    s.append(n.as_str());
                    s.append(
                        " matches). Use `allow_multi: true` if you want to replace all occurrences.",
                    );
                    s
                } else {
                    let mut s = String::from_str("The string occurs in multiple places (");
                    let n = usize_to_string(*count);
                    s.append(n.as_str());
                    s.append(
                        " occurrences). Use `allow_multi: true` if you want to replace all occurrences.",
                    );
                    s
                }
            },
            EditorError::InvalidPattern(m) => {
                let mut s = String::from_str("Invalid regex pattern: ");
                s.append(m.as_str());
                s
            },
            EditorError::MissingFileText => String::from_str(
                "Parameter `file_text` is required for command: create",
            ),
            EditorError::MissingOldStr => String::from_str(
                "Parameter `old_str` is required for command: str_replace",
            ),
            EditorError::MissingNewStr => String::from_str(
                "Parameter `new_str` is required for command: insert",
            ),
            EditorError::MissingInsertLine => String::from_str(
                "Parameter `insert_line` is required for command: insert",
            ),
            EditorError::MissingDeleteRange => String::from_str(
                "Parameter `delete_range` is required for command: delete",
            ),
            EditorError::UndoUnavailable => String::from_str(
                "The undo_edit command is not implemented in this CLI. Please use git for version control.",
            ),
            EditorError::Io(m) => {
                let mut s = String::from_str("IO error: ");
                s.append(m.as_str());
                s
            },
        }
    }
}

} // verus!
