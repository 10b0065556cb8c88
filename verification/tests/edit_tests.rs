use text_editor::command::Command;
use text_editor::engine::handle_command;
use text_editor::engine::Input;
use text_editor::errors::EditorError;
use text_editor::ops::EditOutcome;
use std::str::FromStr;

fn make_input(command: &str, path: &str) -> Input {
    Input {
        command: Command::from_str(command).unwrap_or(Command::View),
        path: path.to_string(),
        view_range: None,
        max_depth: None,
        old_str: None,
        new_str: None,
        insert_line: None,
        file_text: None,
        delete_range: None,
        allow_multi: None,
        use_regex: None,
    }
}

fn run_insert(content: &str, line: i32, new_str: &str) -> Result<EditOutcome, EditorError> {
    let mut input = make_input("insert", "/test/file.txt");
    input.insert_line = Some(line);
    input.new_str = Some(new_str.to_string());
    let text = content.to_string();
    handle_command(&input, true, false, Some(&text), None)
}

fn run_delete(content: &str, range: Option<Vec<i32>>) -> Result<EditOutcome, EditorError> {
    let mut input = make_input("delete", "/test/file.txt");
    input.delete_range = range;
    let text = content.to_string();
    handle_command(&input, true, false, Some(&text), None)
}

#[test]
fn test_insert_middle() {
    let outcome = run_insert("Line 1\nLine 2\nLine 3\n", 2, "New Line").unwrap();
    assert!(outcome.message.contains("has been edited"));
    assert_eq!(outcome.new_content.unwrap().trim(), "Line 1\nLine 2\nNew Line\nLine 3");
}

#[test]
fn test_insert_beginning() {
    let outcome = run_insert("Line 1\nLine 2\n", 0, "New First Line").unwrap();
    assert!(outcome.message.contains("has been edited"));
    assert_eq!(outcome.new_content.unwrap().trim(), "New First Line\nLine 1\nLine 2");
}

#[test]
fn test_insert_end() {
    let outcome = run_insert("Line 1\nLine 2\n", 2, "New Last Line").unwrap();
    assert!(outcome.message.contains("has been edited"));
    assert_eq!(outcome.new_content.unwrap().trim(), "Line 1\nLine 2\nNew Last Line");
}

#[test]
fn test_insert_invalid_line() {
    let result = run_insert("Line 1\nLine 2\n", 5, "Invalid Line");
    assert!(matches!(result, Err(EditorError::InvalidRange(_))));
}

#[test]
fn test_insert_negative_line() {
    let result = run_insert("Line 1\nLine 2\n", -1, "Invalid Line");
    assert!(matches!(result, Err(EditorError::InvalidRange(_))));
}

#[test]
fn test_insert_scenario_exact() {
    let outcome = run_insert("Line 1\nLine 2\nLine 3", 1, "X").unwrap();
    assert_eq!(outcome.new_content.unwrap(), "Line 1\nX\nLine 2\nLine 3\n");
}

#[test]
fn test_insert_into_empty_file() {
    let outcome = run_insert("", 0, "X").unwrap();
    assert_eq!(outcome.new_content.unwrap(), "X\n");
}

#[test]
fn test_delete_lines() {
    let outcome = run_delete("Line 1\nLine 2\nLine 3\nLine 4\nLine 5\n", Some(vec![2, 4])).unwrap();
    assert!(outcome.message.contains("Deleted lines 2-4"));
    assert_eq!(outcome.new_content.unwrap().trim(), "Line 1\nLine 5");
}

#[test]
fn test_delete_missing_range() {
    let result = run_delete("Test content\n", None);
    assert!(matches!(result, Err(EditorError::MissingDeleteRange)));
}

#[test]
fn test_delete_invalid_range() {
    let result = run_delete("Line 1\nLine 2\nLine 3\n", Some(vec![3, 1]));
    assert!(matches!(result, Err(EditorError::InvalidRange(_))));

    let result2 = run_delete("Line 1\nLine 2\nLine 3\n", Some(vec![5, 6]));
    assert!(matches!(result2, Err(EditorError::InvalidRange(_))));
}

#[test]
fn test_delete_end_clamped_to_file() {
    let outcome = run_delete("A\nB\nC\n", Some(vec![2, 9])).unwrap();
    assert!(outcome.message.contains("Deleted lines 2-9"));
    assert_eq!(outcome.new_content.unwrap(), "A\n");
}

#[test]
fn test_insert_then_delete_restores() {
    let original = "A\nB\nC\n";
    let inserted = run_insert(original, 1, "X").unwrap().new_content.unwrap();
    assert_eq!(inserted, "A\nX\nB\nC\n");
    let restored = run_delete(&inserted, Some(vec![2, 2])).unwrap().new_content.unwrap();
    assert_eq!(restored, original);
}

#[test]
fn test_insert_message_exact() {
    let outcome = run_insert("A\nB\n", 1, "X").unwrap();
    assert_eq!(
        outcome.message,
        "The file /test/file.txt has been edited.\nHere's the result of running `cat -n` on a \
         snippet:\n     1\tA\n     2\tX\n     3\tB\n\nReview the changes and make sure they are \
         as expected (correct indentation, no duplicate lines, etc). Edit the file again if \
         necessary."
    );
}
