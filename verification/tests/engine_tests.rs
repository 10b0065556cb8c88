use text_editor::command::Command;
use text_editor::engine::handle_command;
use text_editor::engine::validate_path;
use text_editor::engine::CliResult;
use text_editor::engine::Input;
use text_editor::errors::EditorError;
use std::str::FromStr;

fn make_input(command: &str, path: &str) -> Input {
    Input {
        command: Command::from_str(command).unwrap_or(Command::View),
        path: path.to_string(),
        view_range: None,
        max_depth: None,
        old_str: None,
        new_str: None,
        insert_line: None,
        file_text: None,
        delete_range: None,
        allow_multi: None,
        use_regex: None,
    }
}

#[test]
fn test_undo_not_implemented() {
    let input = make_input("undo_edit", "/test/file.txt");
    let text = "Original content\n".to_string();
    let result = handle_command(&input, true, false, Some(&text), None);
    assert!(matches!(result, Err(EditorError::UndoUnavailable)));
}

#[test]
fn test_invalid_command() {
    let cmd_result = Command::from_str("invalid_command");
    assert!(matches!(cmd_result, Err(EditorError::UnknownCommand(_))));

    if let Err(EditorError::UnknownCommand(cmd)) = cmd_result {
        assert_eq!(cmd, "invalid_command");
    }
}

#[test]
fn test_path_validation() {
    assert!(matches!(
        validate_path("relative/path.txt", true, false, &Command::View),
        Err(EditorError::NotAbsolutePath(_))
    ));

    assert!(matches!(
        validate_path("/nonexistent/file.txt", false, false, &Command::View),
        Err(EditorError::PathNotFound(_))
    ));

    assert!(matches!(
        validate_path("/existing/file.txt", true, false, &Command::Create),
        Err(EditorError::FileAlreadyExists(_))
    ));

    assert!(matches!(
        validate_path("/existing/dir", true, true, &Command::StrReplace),
        Err(EditorError::DirectoryNotAllowed(_))
    ));
}

#[test]
fn test_create_file() {
    let mut input = make_input("create", "/test/new_file.txt");
    input.file_text = Some("This is new content".to_string());
    let outcome = handle_command(&input, false, false, None, None).unwrap();
    assert!(outcome.message.contains("File created successfully"));
    assert_eq!(outcome.new_content.unwrap().trim(), "This is new content");
}

#[test]
fn test_create_file_with_parent_dirs() {
    let mut input = make_input("create", "/test/nested/dirs/that/dont/exist/new_file.txt");
    input.file_text = Some("Content in nested directories".to_string());
    let outcome = handle_command(&input, false, false, None, None).unwrap();
    assert!(outcome.message.contains("File created successfully"));
    assert_eq!(outcome.new_content.unwrap().trim(), "Content in nested directories");
}

#[test]
fn test_create_missing_file_text() {
    let input = make_input("create", "/test/new_file.txt");
    let result = handle_command(&input, false, false, None, None);
    assert!(matches!(result, Err(EditorError::MissingFileText)));
}

#[test]
fn test_insert_missing_fields() {
    let input = make_input("insert", "/test/file.txt");
    let text = "A\n".to_string();
    let result = handle_command(&input, true, false, Some(&text), None);
    assert!(matches!(result, Err(EditorError::MissingInsertLine)));

    let mut input2 = make_input("insert", "/test/file.txt");
    input2.insert_line = Some(0);
    let result2 = handle_command(&input2, true, false, Some(&text), None);
    assert!(matches!(result2, Err(EditorError::MissingNewStr)));
}

#[test]
fn test_error_response_marks_error() {
    let input = make_input("view", "/nonexistent/file.txt");
    let result = handle_command(&input, false, false, None, None);
    let err = result.err().unwrap();
    let response = CliResult::error(err);
    assert_eq!(response.is_error, Some(true));
    assert!(response.content.contains("/nonexistent/file.txt"));
    assert!(response.content.contains("does not exist"));
}

#[test]
fn test_success_response_has_no_error_mark() {
    let response = CliResult::success("done".to_string());
    assert_eq!(response.is_error, None);
    assert_eq!(response.content, "done");
}

#[test]
fn test_error_messages_exact() {
    assert_eq!(
        EditorError::UnknownCommand("bogus".to_string()).render(),
        "Unrecognized command bogus. The allowed commands for the str_replace_editor tool are: \
         view, create, str_replace, insert, delete, undo_edit"
    );
    assert_eq!(
        EditorError::NotAbsolutePath("relative.txt".to_string()).render(),
        "The path relative.txt is not an absolute path, it should start with `/`. Maybe you \
         meant /relative.txt?"
    );
    assert_eq!(EditorError::Io("disk gone".to_string()).render(), "IO error: disk gone");
    assert_eq!(
        EditorError::AmbiguousMatch { use_pattern: false, count: 2 }.render(),
        "The string occurs in multiple places (2 occurrences). Use `allow_multi: true` if you \
         want to replace all occurrences."
    );
    assert_eq!(
        EditorError::UndoUnavailable.render(),
        "The undo_edit command is not implemented in this CLI. Please use git for version \
         control."
    );
}

#[test]
fn test_command_names_round_trip() {
    for name in ["view", "create", "str_replace", "insert", "delete", "undo_edit"] {
        let cmd = Command::from_str(name).unwrap();
        assert_eq!(cmd.name(), name);
    }
}

#[test]
fn test_directory_edit_rejected() {
    let mut input = make_input("str_replace", "/test/dir");
    input.old_str = Some("a".to_string());
    let result = handle_command(&input, true, true, None, Some(&Vec::new()));
    assert!(matches!(result, Err(EditorError::DirectoryNotAllowed(_))));
}
