use text_editor::command::Command;
use text_editor::engine::handle_command;
use text_editor::engine::Input;
use text_editor::errors::EditorError;
use std::str::FromStr;

fn make_input(command: &str, path: &str) -> Input {
    Input {
        command: Command::from_str(command).unwrap_or(Command::View),
        path: path.to_string(),
        view_range: None,
        max_depth: None,
        old_str: None,
        new_str: None,
        insert_line: None,
        file_text: None,
        delete_range: None,
        allow_multi: None,
        use_regex: None,
    }
}

fn view_file(content: &str, range: Option<Vec<i32>>) -> Result<String, EditorError> {
    let mut input = make_input("view", "/test/file.txt");
    input.view_range = range;
    let text = content.to_string();
    handle_command(&input, true, false, Some(&text), None).map(|o| {
        assert!(o.new_content.is_none());
        o.message
    })
}

fn view_dir(entries: &[&str], max_depth: Option<usize>) -> String {
    let mut input = make_input("view", "/test/dir");
    input.max_depth = max_depth;
    let list: Vec<String> = entries.iter().map(|e| e.to_string()).collect();
    let outcome = handle_command(&input, true, true, None, Some(&list)).unwrap();
    assert!(outcome.new_content.is_none());
    outcome.message
}

#[test]
fn test_view_existing_file() {
    let result = view_file("File content\n", None).unwrap();
    assert!(result.contains("File content"));
    assert_eq!(result, "File content");
}

#[test]
fn test_view_directory() {
    let result = view_dir(&["file1.txt", "file2.txt"], None);
    assert!(result.contains("file1.txt"));
    assert!(result.contains("file2.txt"));
}

#[test]
fn test_view_directory_custom_depth() {
    let entries = [
        "subdir",
        "subdir/nested",
        "subdir/nested/deep",
        "root.txt",
        "subdir/level1.txt",
        "subdir/nested/level2.txt",
        "subdir/nested/deep/level3.txt",
    ];

    let result = view_dir(&entries, None);
    assert!(result.contains("root.txt"));
    assert!(result.contains("subdir"));
    assert!(!result.contains("level2.txt"));
    assert!(!result.contains("level3.txt"));

    let deep_result = view_dir(&entries, Some(4));
    assert!(deep_result.contains("root.txt"));
    assert!(deep_result.contains("level1.txt"));
    assert!(deep_result.contains("level2.txt"));
    assert!(deep_result.contains("level3.txt"));
}

#[test]
fn test_view_file_with_range() {
    let result = view_file("Line 1\nLine 2\nLine 3\nLine 4\n", Some(vec![1, 2])).unwrap();
    assert!(result.contains("Line 1"));
    assert!(result.contains("Line 2"));
    assert!(!result.contains("Line 3"));
    assert!(!result.contains("Line 4"));
    assert!(result.contains("     1\tLine 1"));
    assert!(result.contains("     2\tLine 2"));
    assert!(result.contains("Here's the result of running `cat -n`"));
}

#[test]
fn test_view_file_with_negative_end() {
    let result = view_file("Line 1\nLine 2\nLine 3\nLine 4\n", Some(vec![1, -1])).unwrap();
    assert!(result.contains("Line 2"));
    assert!(result.contains("Line 3"));
    assert!(result.contains("Line 4"));
    assert!(result.contains("     1\tLine 1"));
    assert!(result.contains("     2\tLine 2"));
    assert!(result.contains("     3\tLine 3"));
    assert!(result.contains("     4\tLine 4"));
    assert!(result.contains("Here's the result of running `cat -n`"));
}

#[test]
fn test_view_file_invalid_range() {
    let result = view_file("Line 1\nLine 2\nLine 3\nLine 4\n", Some(vec![3, 2]));
    assert!(matches!(result, Err(EditorError::InvalidRange(_))));
}

#[test]
fn test_view_nonexistent_file() {
    let input = make_input("view", "/nonexistent/file.txt");
    let result = handle_command(&input, false, false, None, None);
    assert!(matches!(result, Err(EditorError::PathNotFound(_))));
}

#[test]
fn test_view_directory_with_range() {
    let mut input = make_input("view", "/test/dir");
    input.view_range = Some(vec![1, 2]);
    let entries: Vec<String> = Vec::new();
    let result = handle_command(&input, true, true, None, Some(&entries));
    assert!(matches!(result, Err(EditorError::ViewRangeForDirectory)));
}

#[test]
fn test_view_range_message_exact() {
    let result = view_file("L1\nL2\n", Some(vec![1, 2])).unwrap();
    assert_eq!(
        result,
        "Here's the result of running `cat -n` on /test/file.txt:\n     1\tL1\n     2\tL2\n"
    );
}

#[test]
fn test_view_range_start_beyond_file() {
    let result = view_file("L1\nL2\n", Some(vec![3, 3]));
    assert!(matches!(result, Err(EditorError::InvalidRange(_))));
}

#[test]
fn test_view_range_end_beyond_file() {
    let result = view_file("L1\nL2\n", Some(vec![1, 5]));
    assert!(matches!(result, Err(EditorError::InvalidRange(_))));
}

#[test]
fn test_view_empty_file_trimmed() {
    let result = view_file("", None).unwrap();
    assert_eq!(result, "");
}

#[test]
fn test_directory_default_depth_excludes_nested() {
    let entries = ["a.txt", "sub", "sub/b.txt"];

    let result = view_dir(&entries, None);
    assert!(result.contains("a.txt"));
    assert!(result.contains("sub"));
    assert!(!result.contains("sub/b.txt"));

    let deeper = view_dir(&entries, Some(2));
    assert!(deeper.contains("sub/b.txt"));
}

#[test]
fn test_directory_hides_dot_entries() {
    let result = view_dir(&[".hidden", "shown.txt", ".git/config"], Some(5));
    assert!(!result.contains(".hidden"));
    assert!(!result.contains(".git"));
    assert!(result.contains("shown.txt"));
}

#[test]
fn test_directory_listing_sorted() {
    let result = view_dir(&["b.txt", "a.txt", "c.txt"], None);
    let header_end = result.find(":\n").unwrap();
    let body = &result[header_end + 2..];
    assert_eq!(body, "a.txt\nb.txt\nc.txt\n");
}
