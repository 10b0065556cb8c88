//! The request model and the dispatcher: path validation per command, and
//! the mapping from one decoded request to one operation's outcome.

use vstd::prelude::*;
use vstd::string::StrSliceExecFns;
use crate::command::Command;
use crate::errors::EditorError;
use crate::errors::message_of;
use crate::ops::EditOutcome;
use crate::ops::create;
use crate::ops::created_message;
use crate::ops::delete;
use crate::ops::delete_result_matches;
use crate::ops::insert;
use crate::ops::insert_result_matches;
use crate::ops::str_replace;
use crate::ops::str_replace_result_matches;
use crate::view::opt_entries_view;
use crate::view::opt_range_view;
use crate::view::opt_str_view;
use crate::view::view;
use crate::view::view_matches;

verus! {

/// A decoded request: the command, the target path, and the
/// command-specific optional fields.
pub struct Input {
    pub command: Command,
    pub path: String,
    pub view_range: Option<Vec<i32>>,
    pub max_depth: Option<usize>,
    pub old_str: Option<String>,
    pub new_str: Option<String>,
    pub insert_line: Option<i32>,
    pub file_text: Option<String>,
    pub delete_range: Option<Vec<i32>>,
    pub allow_multi: Option<bool>,
    pub use_regex: Option<bool>,
}

/// The request envelope.
pub struct Request {
    pub input: Input,
}

/// The response: a message, and an error mark set only on failure.
pub struct CliResult {
    pub content: String,
    pub is_error: Option<bool>,
}

impl CliResult {
    /// A success response: the message alone, no error mark.
    pub fn success(content: String) -> (r: CliResult)
        ensures
            r.content == content,
            r.is_error is None,
    {
        CliResult { content, is_error: None }
    }

    /// An error response: the rendered message, marked as an error.
    pub fn error(err: EditorError) -> (r: CliResult)
        ensures
            r.content@ == message_of(err),
            r.is_error == Some(true),
    {
        CliResult { content: err.render(), is_error: Some(true) }
    }
}

/// A path is absolute when it starts with `/`.
pub open spec fn is_absolute_path(p: Seq<char>) -> bool {
    p.len() > 0 && p[0] == '/'
}

/// The conditions under which a path passes validation for a command:
/// absolute always; for `create` the path must be new; for everything else
/// it must exist, and only `view` may target a directory.
pub open spec fn validate_ok(path: Seq<char>, exists: bool, is_dir: bool, command: Command) -> bool {
    is_absolute_path(path) && (if command == Command::Create {
        !exists
    } else {
        exists && (!is_dir || command == Command::View)
    })
}

/// What path validation returns, including which error names which
/// violation.
pub open spec fn validate_result_matches(
    r: Result<(), EditorError>,
    path: Seq<char>,
    exists: bool,
    is_dir: bool,
    command: Command,
) -> bool {
    if !is_absolute_path(path) {
        r matches Err(EditorError::NotAbsolutePath(p)) && p@ == path
    } else if command == Command::Create {
        if exists {
            r matches Err(EditorError::FileAlreadyExists(p)) && p@ == path
        } else {
            r is Ok
        }
    } else if !exists {
        r matches Err(EditorError::PathNotFound(p)) && p@ == path
    } else if is_dir && command != Command::View {
        r matches Err(EditorError::DirectoryNotAllowed(p)) && p@ == path
    } else {
        r is Ok
    }
}

/// Validates the path for a command against the observed facts: whether the
/// path exists, and whether it is a directory.
pub fn validate_path(path: &str, exists: bool, is_dir: bool, command: &Command) -> (r: Result<
    (),
    EditorError,
>)
    ensures
        validate_result_matches(r, path@, exists, is_dir, *command),
        r is Ok <==> validate_ok(path@, exists, is_dir, *command),
{
    let n = path.unicode_len();
    if n == 0 || path.get_char(0) != '/' {
        return Err(EditorError::NotAbsolutePath(path.to_owned()));
    }
    match command {
        Command::Create => {
            if exists {
                Err(EditorError::FileAlreadyExists(path.to_owned()))
            } else {
                Ok(())
            }
        },
        _ => {
            if !exists {
                return Err(EditorError::PathNotFound(path.to_owned()));
            }
            if is_dir && *command != Command::View {
                return Err(EditorError::DirectoryNotAllowed(path.to_owned()));
            }
            Ok(())
        },
    }
}

pub open spec fn string_field(o: Option<String>) -> Seq<char> {
    match o {
        Some(s) => s@,
        None => Seq::empty(),
    }
}

pub open spec fn range_field(o: Option<Vec<i32>>) -> Seq<i32> {
    match o {
        Some(v) => v@,
        None => Seq::empty(),
    }
}

pub open spec fn flag_field(o: Option<bool>) -> bool {
    match o {
        Some(b) => b,
        None => false,
    }
}

pub open spec fn line_field(o: Option<i32>) -> int {
    match o {
        Some(i) => i as int,
        None => 0,
    }
}

pub open spec fn owned_range_view(o: Option<Vec<i32>>) -> Option<Seq<i32>> {
    match o {
        Some(v) => Some(v@),
        None => None,
    }
}

/// What one handled request returns: missing required fields first, then
/// path validation, then the operation's own result.
pub open spec fn handle_result_matches(
    r: Result<EditOutcome, EditorError>,
    input: Input,
    exists: bool,
    is_dir: bool,
    content: Seq<char>,
    entries: Seq<Seq<char>>,
) -> bool {
    let path = input.path@;
    match input.command {
        Command::View => {
            if !validate_ok(path, exists, is_dir, Command::View) {
                r matches Err(e) && validate_result_matches(
                    Err(e),
                    path,
                    exists,
                    is_dir,
                    Command::View,
                )
            } else {
                match r {
                    Ok(o) => o.new_content is None && view_matches(
                        Ok(o.message),
                        path,
                        is_dir,
                        content,
                        entries,
                        owned_range_view(input.view_range),
                        input.max_depth,
                    ),
                    Err(e) => view_matches(
                        Err(e),
                        path,
                        is_dir,
                        content,
                        entries,
                        owned_range_view(input.view_range),
                        input.max_depth,
                    ),
                }
            }
        },
        Command::Create => {
            if input.file_text is None {
                r matches Err(EditorError::MissingFileText)
            } else if !validate_ok(path, exists, is_dir, Command::Create) {
                r matches Err(e) && validate_result_matches(
                    Err(e),
                    path,
                    exists,
                    is_dir,
                    Command::Create,
                )
            } else {
                r matches Ok(o) && (o.message@ == created_message(path) && (
                o.new_content matches Some(c) && c@ == string_field(input.file_text)))
            }
        },
        Command::StrReplace => {
            if input.old_str is None {
                r matches Err(EditorError::MissingOldStr)
            } else if !validate_ok(path, exists, is_dir, Command::StrReplace) {
                r matches Err(e) && validate_result_matches(
                    Err(e),
                    path,
                    exists,
                    is_dir,
                    Command::StrReplace,
                )
            } else {
                str_replace_result_matches(
                    r,
                    path,
                    content,
                    string_field(input.old_str),
                    string_field(input.new_str),
                    flag_field(input.allow_multi),
                    flag_field(input.use_regex),
                )
            }
        },
        Command::Insert => {
            if input.insert_line is None {
                r matches Err(EditorError::MissingInsertLine)
            } else if input.new_str is None {
                r matches Err(EditorError::MissingNewStr)
            } else if !validate_ok(path, exists, is_dir, Command::Insert) {
                r matches Err(e) && validate_result_matches(
                    Err(e),
                    path,
                    exists,
                    is_dir,
                    Command::Insert,
                )
            } else {
                insert_result_matches(
                    r,
                    path,
                    content,
                    line_field(input.insert_line),
                    string_field(input.new_str),
                )
            }
        },
        Command::Delete => {
            if input.delete_range is None {
                r matches Err(EditorError::MissingDeleteRange)
            } else if !validate_ok(path, exists, is_dir, Command::Delete) {
                r matches Err(e) && validate_result_matches(
                    Err(e),
                    path,
                    exists,
                    is_dir,
                    Command::Delete,
                )
            } else {
                delete_result_matches(r, path, content, range_field(input.delete_range))
            }
        },
        Command::UndoEdit => r matches Err(EditorError::UndoUnavailable),
    }
}

/// Performs one command on the observed state of the path: `exists` and
/// `is_dir` as the caller found them, `content` the file's text when the
/// path is an existing file, `entries` the relative paths under it when it
/// is a directory.  An error means nothing is to be written.
pub fn handle_command(
    input: &Input,
    exists: bool,
    is_dir: bool,
    content: Option<&String>,
    entries: Option<&Vec<String>>,
) -> (r: Result<EditOutcome, EditorError>)
    requires
        exists && !is_dir ==> content is Some,
        is_dir ==> entries is Some,
        content matches Some(c) ==> c@.len() < usize::MAX,
        input.new_str matches Some(s) ==> s@.len() <= usize::MAX - 8,
    ensures
        handle_result_matches(r, *input, exists, is_dir, opt_str_view(content), opt_entries_view(
            entries,
        )),
{
    let path = input.path.as_str();
    match input.command {
        Command::View => {
            match validate_path(path, exists, is_dir, &Command::View) {
                Err(e) => Err(e),
                Ok(()) => {
                    let vr = input.view_range.as_ref();
                    proof {
                        assert(opt_range_view(vr) == owned_range_view(input.view_range));
                    }
                    match view(path, is_dir, content, entries, vr, input.max_depth) {
                        Ok(s) => Ok(EditOutcome { message: s, new_content: None }),
                        Err(e) => Err(e),
                    }
                },
            }
        },
        Command::Create => {
            let file_text = match &input.file_text {
                None => {
                    return Err(EditorError::MissingFileText);
                },
                Some(t) => t,
            };
            match validate_path(path, exists, is_dir, &Command::Create) {
                Err(e) => Err(e),
                Ok(()) => Ok(create(path, file_text.as_str())),
            }
        },
        Command::StrReplace => {
            let old_str = match &input.old_str {
                None => {
                    return Err(EditorError::MissingOldStr);
                },
                Some(s) => s,
            };
            let new_str = match &input.new_str {
                Some(s) => s.as_str(),
                None => "",
            };
            proof {
                reveal_strlit("");
                assert(new_str@ == string_field(input.new_str));
            }
            let allow_multi = match input.allow_multi {
                Some(b) => b,
                None => false,
            };
            let use_regex = match input.use_regex {
                Some(b) => b,
                None => false,
            };
            match validate_path(path, exists, is_dir, &Command::StrReplace) {
                Err(e) => Err(e),
                Ok(()) => {
                    let text = match content {
                        Some(c) => c,
                        None => unreached(),
                    };
                    str_replace(path, text.as_str(), old_str.as_str(), new_str, allow_multi,
                        use_regex)
                },
            }
        },
        Command::Insert => {
            let insert_line = match input.insert_line {
                None => {
                    return Err(EditorError::MissingInsertLine);
                },
                Some(l) => l,
            };
            let new_str = match &input.new_str {
                None => {
                    return Err(EditorError::MissingNewStr);
                },
                Some(s) => s,
            };
            match validate_path(path, exists, is_dir, &Command::Insert) {
                Err(e) => Err(e),
                Ok(()) => {
                    let text = match content {
                        Some(c) => c,
                        None => unreached(),
                    };
                    insert(path, text.as_str(), insert_line, new_str.as_str())
                },
            }
        },
        Command::Delete => {
            let delete_range = match &input.delete_range {
                None => {
                    return Err(EditorError::MissingDeleteRange);
                },
                Some(v) => v,
            };
            match validate_path(path, exists, is_dir, &Command::Delete) {
                Err(e) => Err(e),
                Ok(()) => {
                    let text = match content {
                        Some(c) => c,
                        None => unreached(),
                    };
                    delete(path, text.as_str(), delete_range)
                },
            }
        },
        Command::UndoEdit => Err(EditorError::UndoUnavailable),
    }
}

} // verus!
