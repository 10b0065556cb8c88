use text_editor::command::Command;
use text_editor::engine::handle_command;
use text_editor::engine::Input;
use text_editor::errors::EditorError;
use text_editor::ops::EditOutcome;
use std::str::FromStr;

fn make_input(command: &str, path: &str) -> Input {
    Input {
        command: Command::from_str(command).unwrap_or(Command::View),
        path: path.to_string(),
        view_range: None,
        max_depth: None,
        old_str: None,
        new_str: None,
        insert_line: None,
        file_text: None,
        delete_range: None,
        allow_multi: None,
        use_regex: None,
    }
}

fn run_replace(
    content: &str,
    old: &str,
    new: &str,
    allow_multi: Option<bool>,
    use_regex: Option<bool>,
) -> Result<EditOutcome, EditorError> {
    let mut input = make_input("str_replace", "/test/file.txt");
    input.old_str = Some(old.to_string());
    input.new_str = Some(new.to_string());
    input.allow_multi = allow_multi;
    input.use_regex = use_regex;
    let text = content.to_string();
    handle_command(&input, true, false, Some(&text), None)
}

#[test]
fn test_str_replace_unique() {
    let outcome = run_replace("Original content\n", "Original", "New", None, None).unwrap();
    assert!(outcome.message.contains("has been edited"));
    assert_eq!(outcome.new_content.unwrap().trim(), "New content");
}

#[test]
fn test_str_replace_nonexistent() {
    let result = run_replace("Original content\n", "Nonexistent", "New", None, None);
    assert!(matches!(result, Err(EditorError::NoMatch { .. })));
    if let Err(e) = result {
        assert!(e.render().contains("not found"));
    }
}

#[test]
fn test_str_replace_multiple_occurrences() {
    let result = run_replace("Test test test\n", "test", "example", None, None);
    assert!(matches!(result, Err(EditorError::AmbiguousMatch { .. })));
}

#[test]
fn test_str_replace_multiple_allowed() {
    let outcome = run_replace("Test test test\n", "test", "example", Some(true), None).unwrap();
    assert!(outcome.message.contains("Replaced 2 occurrences"));
    assert_eq!(outcome.new_content.unwrap().trim(), "Test example example");
}

#[test]
fn test_str_replace_with_regex() {
    let outcome = run_replace("Test123\n", r"Test\d+", "Example", None, Some(true)).unwrap();
    assert!(outcome.message.contains("Replaced 1 occurrences"));
    assert_eq!(outcome.new_content.unwrap().trim(), "Example");
}

#[test]
fn test_str_replace_with_regex_multi() {
    let outcome = run_replace(
        "Test123 Test456 Test789\n",
        r"Test\d+",
        "Example",
        Some(true),
        Some(true),
    )
    .unwrap();
    assert!(outcome.message.contains("Replaced 3 occurrences"));
    assert_eq!(outcome.new_content.unwrap().trim(), "Example Example Example");
}

#[test]
fn test_str_replace_invalid_regex() {
    let result = run_replace("Test content\n", r"Test[", "Example", None, Some(true));
    assert!(matches!(result, Err(EditorError::InvalidPattern(_))));
    if let Err(e) = result {
        assert!(e.render().contains("Invalid regex pattern"));
    }
}

#[test]
fn test_replace_ambiguous_names_count() {
    let result = run_replace("Test test test\n", "test", "demo", Some(false), None);
    match result {
        Err(EditorError::AmbiguousMatch { use_pattern, count }) => {
            assert!(!use_pattern);
            assert_eq!(count, 2);
        }
        other => panic!("expected an ambiguous match, got {:?}", other.is_ok()),
    }
}

#[test]
fn test_replace_multi_exact_content() {
    let outcome = run_replace("Test test test", "test", "demo", Some(true), None).unwrap();
    assert!(outcome.message.contains("Replaced 2 occurrences"));
    assert_eq!(outcome.new_content.unwrap(), "Test demo demo");
}

#[test]
fn test_replace_round_trip_restores() {
    let original = "alpha beta\n";
    let replaced = run_replace(original, "beta", "gamma", None, None)
        .unwrap()
        .new_content
        .unwrap();
    assert_eq!(replaced, "alpha gamma\n");

    let gone = run_replace(&replaced, "beta", "anything", None, None);
    assert!(matches!(gone, Err(EditorError::NoMatch { .. })));

    let back = run_replace(&replaced, "gamma", "beta", None, None)
        .unwrap()
        .new_content
        .unwrap();
    assert_eq!(back, original);
}

#[test]
fn test_replace_error_leaves_no_content() {
    let result = run_replace("Test test test\n", "test", "demo", None, None);
    assert!(result.is_err());
}

#[test]
fn test_regex_snippet_anchored_at_first_match() {
    let content = "L1\nL2\nL3\nL4\nL5\nL6\nL7\nTest42\nL9\nL10\n";
    let outcome = run_replace(content, r"Test\d+", "X", None, Some(true)).unwrap();
    assert!(outcome.message.contains("     4\tL4"));
    assert!(outcome.message.contains("     8\tX"));
    assert!(!outcome.message.contains("     1\tL1"));
    assert_eq!(outcome.new_content.unwrap(), "L1\nL2\nL3\nL4\nL5\nL6\nL7\nX\nL9\nL10\n");
}

#[test]
fn test_literal_snippet_anchored_at_first_match() {
    let content = "L1\nL2\nL3\nL4\nL5\nL6\nL7\nneedle\nL9\nL10\n";
    let outcome = run_replace(content, "needle", "X", None, None).unwrap();
    assert!(outcome.message.contains("     4\tL4"));
    assert!(outcome.message.contains("     8\tX"));
    assert!(!outcome.message.contains("     1\tL1"));
}

#[test]
fn test_replace_missing_old_str() {
    let mut input = make_input("str_replace", "/test/file.txt");
    input.new_str = Some("New".to_string());
    let text = "content\n".to_string();
    let result = handle_command(&input, true, false, Some(&text), None);
    assert!(matches!(result, Err(EditorError::MissingOldStr)));
}
