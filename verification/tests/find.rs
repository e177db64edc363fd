use basefmt::find::{find_files, WalkEvent};

fn entry(path: &str, is_file: bool) -> WalkEvent {
    WalkEvent::Entry {
        path: path.to_string(),
        is_file,
    }
}

fn failed(root: &str) -> WalkEvent {
    WalkEvent::Failed {
        root: root.to_string(),
    }
}

#[test]
fn test_find_files_nonexistent_path() {
    let nonexistent = "/nonexistent/path/file.txt";

    let result = find_files(&vec![failed(nonexistent)]);

    assert!(result.is_err());
}

#[test]
fn test_find_files_empty_directory() {
    let result = find_files(&vec![entry("/tmp/empty", false)]).unwrap();

    assert_eq!(result.len(), 0);
}

#[test]
fn found_files_come_in_walk_order_without_directories() {
    let events = vec![
        entry("/t", false),
        entry("/t/file1.txt", true),
        entry("/t/subdir", false),
        entry("/t/subdir/file2.txt", true),
    ];
    let result = find_files(&events).unwrap();
    assert_eq!(result, vec!["/t/file1.txt", "/t/subdir/file2.txt"]);
}

#[test]
fn no_events_give_no_files() {
    assert_eq!(find_files(&Vec::new()).unwrap(), Vec::<String>::new());
}

#[test]
fn failure_message_lists_each_failed_path() {
    let events = vec![
        entry("/t/a.txt", true),
        failed("/missing"),
        entry("/t/b.txt", true),
        failed("/t/locked"),
        failed("/t/locked"),
    ];
    let message = find_files(&events).unwrap_err();
    assert_eq!(
        message,
        "errors occurred while processing files: /missing, /t/locked, /t/locked"
    );
}

#[test]
fn single_failure_message_has_no_separator() {
    let message = find_files(&vec![failed("/nonexistent/path")]).unwrap_err();
    assert_eq!(
        message,
        "errors occurred while processing files: /nonexistent/path"
    );
}

#[test]
fn test_find_single_file() {
    let file_path = "/tmp/t/test.txt";

    let result = find_files(&vec![entry(file_path, true)]).unwrap();

    assert_eq!(result.len(), 1);
    assert_eq!(result[0], file_path);
}

#[test]
fn test_find_files_in_directory() {
    let file1 = "/tmp/t/file1.txt".to_string();
    let file2 = "/tmp/t/file2.txt".to_string();

    let result = find_files(&vec![
        entry("/tmp/t", false),
        entry(&file1, true),
        entry(&file2, true),
    ])
    .unwrap();

    assert_eq!(result.len(), 2);
    assert!(result.contains(&file1));
    assert!(result.contains(&file2));
}

#[test]
fn test_find_files_in_nested_directory() {
    let file1 = "/tmp/t/file1.txt".to_string();
    let file2 = "/tmp/t/subdir/file2.txt".to_string();

    let result = find_files(&vec![
        entry("/tmp/t", false),
        entry(&file1, true),
        entry("/tmp/t/subdir", false),
        entry(&file2, true),
    ])
    .unwrap();

    assert_eq!(result.len(), 2);
    assert!(result.contains(&file1));
    assert!(result.contains(&file2));
}

#[test]
fn test_find_files_from_multiple_paths() {
    let file1 = "/tmp/t1/file1.txt".to_string();
    let file2 = "/tmp/t2/file2.txt".to_string();

    let result = find_files(&vec![entry(&file1, true), entry(&file2, true)]).unwrap();

    assert_eq!(result.len(), 2);
    assert!(result.contains(&file1));
    assert!(result.contains(&file2));
}

#[test]
fn test_find_files_mixed_file_and_directory() {
    let file1 = "/tmp/t/file1.txt".to_string();
    let file2 = "/tmp/t/subdir/file2.txt".to_string();

    let result = find_files(&vec![
        entry(&file1, true),
        entry("/tmp/t/subdir", false),
        entry(&file2, true),
    ])
    .unwrap();

    assert_eq!(result.len(), 2);
    assert!(result.contains(&file1));
    assert!(result.contains(&file2));
}

#[test]
fn test_find_files_ignores_directories_in_results() {
    let file = "/tmp/t/subdir/file.txt";

    let result = find_files(&vec![
        entry("/tmp/t", false),
        entry("/tmp/t/subdir", false),
        entry(file, true),
    ])
    .unwrap();

    // Should only include the file, not the directory itself
    assert_eq!(result.len(), 1);
    assert_eq!(result[0], file);
}
