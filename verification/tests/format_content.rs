use basefmt::editorconfig::FormatRules;
use basefmt::format::format_content;

fn all_rules() -> FormatRules {
    FormatRules {
        ensure_final_newline: true,
        remove_trailing_spaces: true,
        remove_leading_newlines: true,
    }
}

#[test]
fn test_format_content_removes_leading_newlines() {
    let rules = all_rules();
    let input = "\n\nfirst line\nsecond line\n";
    let expected = "first line\nsecond line\n";
    assert_eq!(format_content(input, &rules), expected);
}

#[test]
fn test_format_content_removes_trailing_spaces() {
    let rules = all_rules();
    let input = "line with trailing spaces   \nanother line with spaces  \n";
    let expected = "line with trailing spaces\nanother line with spaces\n";
    assert_eq!(format_content(input, &rules), expected);
}

#[test]
fn test_format_content_adds_final_newline() {
    let rules = all_rules();
    let input = "first line\nsecond line";
    let expected = "first line\nsecond line\n";
    assert_eq!(format_content(input, &rules), expected);
}

#[test]
fn test_format_content_removes_multiple_final_newlines() {
    let rules = all_rules();
    let input = "first line\nsecond line\n\n\n";
    let expected = "first line\nsecond line\n";
    assert_eq!(format_content(input, &rules), expected);
}

#[test]
fn test_format_content_empty_file() {
    let rules = all_rules();
    let input = "";
    let expected = "";
    assert_eq!(format_content(input, &rules), expected);
}

#[test]
fn test_format_content_only_newlines() {
    let rules = all_rules();
    let input = "\n\n\n";
    let expected = "";
    assert_eq!(format_content(input, &rules), expected);
}
