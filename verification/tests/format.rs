use basefmt::editorconfig::{ConfigFile, FormatRules};
use basefmt::format::{
    check_file, check_file_with_rules, format_content, format_file, format_file_with_rules,
    CheckResult, FormatResult,
};
use basefmt::text::char_is_whitespace;

fn rules(final_newline: bool, trailing: bool, leading: bool) -> FormatRules {
    FormatRules {
        ensure_final_newline: final_newline,
        remove_trailing_spaces: trailing,
        remove_leading_newlines: leading,
    }
}

fn every_rule_set() -> Vec<FormatRules> {
    let mut sets = Vec::new();
    for bits in 0..8 {
        sets.push(rules(bits & 1 != 0, bits & 2 != 0, bits & 4 != 0));
    }
    sets
}

/// The config file that switches every rule on, in `/ws`.
fn default_editorconfig() -> Vec<ConfigFile> {
    vec![ConfigFile {
        dir: "/ws".to_string(),
        content: "\nroot = true\n\n[*]\ninsert_final_newline = true\ntrim_trailing_whitespace = true\ntrim_leading_newlines = true\n"
            .as_bytes()
            .to_vec(),
    }]
}

/// The same formatting written with the line and trimming functions of the
/// standard library.
fn format_with_std(content: &str, rules: &FormatRules) -> String {
    if !rules.remove_leading_newlines
        && !rules.remove_trailing_spaces
        && !rules.ensure_final_newline
    {
        return content.to_string();
    }
    let mut lines: Vec<&str> = if rules.remove_leading_newlines {
        content.lines().skip_while(|line| line.is_empty()).collect()
    } else {
        content.lines().collect()
    };
    while lines.last().is_some_and(|line| line.is_empty()) {
        lines.pop();
    }
    if lines.is_empty() {
        return String::new();
    }
    let mut result = String::new();
    for (i, line) in lines.iter().enumerate() {
        if i > 0 {
            result.push('\n');
        }
        if rules.remove_trailing_spaces {
            result.push_str(line.trim_end());
        } else {
            result.push_str(line);
        }
    }
    if rules.ensure_final_newline {
        result.push('\n');
    }
    result
}

#[test]
fn test_format_file_creates_changes() {
    let configs = default_editorconfig();
    let (result, written) = format_file(
        Some("/ws/test.txt"),
        &configs,
        "\n\ntest content  \n\n".as_bytes(),
    );

    assert_eq!(result, FormatResult::Changed);
    assert_eq!(written.unwrap(), "test content\n");
}

#[test]
fn test_format_file_no_changes() {
    let configs = default_editorconfig();
    let (result, written) =
        format_file(Some("/ws/test.txt"), &configs, "test content\n".as_bytes());

    assert_eq!(result, FormatResult::Unchanged);
    assert_eq!(written, None);
}

#[test]
fn test_check_file_clean() {
    let configs = default_editorconfig();
    let result = check_file(Some("/ws/test.txt"), &configs, "test content\n".as_bytes());

    assert_eq!(result, CheckResult::Formatted);
}

#[test]
fn test_check_file_dirty() {
    let configs = default_editorconfig();
    let result = check_file(
        Some("/ws/test.txt"),
        &configs,
        "\n\ntest content  \n\n".as_bytes(),
    );

    assert_eq!(result, CheckResult::NeedsFormatting);
}

#[test]
fn test_format_file_skips_binary() {
    let (result, written) = format_file(Some("/ws/binary.bin"), &Vec::new(), &[0xFF, 0xFE, 0xFD]);

    // Binary files should be skipped silently
    assert_eq!(result, FormatResult::Skipped);
    assert_eq!(written, None);
}

#[test]
fn test_check_file_skips_binary() {
    let result = check_file(Some("/ws/binary.bin"), &Vec::new(), &[0xFF, 0xFE, 0xFD]);

    // Binary files should be skipped silently
    assert_eq!(result, CheckResult::Skipped);
}

#[test]
fn binary_content_is_skipped_whatever_the_rules() {
    for set in every_rule_set() {
        assert_eq!(
            format_file_with_rules(&[b'a', 0xC3, b'\n'], &set),
            (FormatResult::Skipped, None)
        );
        assert_eq!(
            check_file_with_rules(&[b'a', 0xC3, b'\n'], &set),
            CheckResult::Skipped
        );
    }
}

#[test]
fn file_without_config_is_left_as_it_is() {
    let content = "\n\ntest content  \n\n\n".as_bytes();
    assert_eq!(
        format_file(Some("/ws/test.txt"), &Vec::new(), content),
        (FormatResult::Unchanged, None)
    );
    assert_eq!(
        check_file(Some("/ws/test.txt"), &Vec::new(), content),
        CheckResult::Formatted
    );
}

#[test]
fn file_without_canonical_path_is_left_as_it_is() {
    let configs = default_editorconfig();
    assert_eq!(
        format_file(None, &configs, "dirty  \n\n".as_bytes()),
        (FormatResult::Unchanged, None)
    );
    assert_eq!(
        check_file(None, &configs, "dirty  \n\n".as_bytes()),
        CheckResult::Formatted
    );
}

#[test]
fn format_with_rules_hands_back_the_text_to_write() {
    let all = rules(true, true, true);
    assert_eq!(
        format_file_with_rules("a \nb".as_bytes(), &all),
        (FormatResult::Changed, Some("a\nb\n".to_string()))
    );
    assert_eq!(
        format_file_with_rules("a\nb\n".as_bytes(), &all),
        (FormatResult::Unchanged, None)
    );
    assert_eq!(
        check_file_with_rules("a \nb".as_bytes(), &all),
        CheckResult::NeedsFormatting
    );
    assert_eq!(
        check_file_with_rules("a\nb\n".as_bytes(), &all),
        CheckResult::Formatted
    );
}

#[test]
fn all_rules_end_to_end() {
    let all = rules(true, true, true);
    assert_eq!(format_content("\n\nfoo  \nbar\n\n\n", &all), "foo\nbar\n");
}

#[test]
fn no_rule_means_no_change() {
    let none = rules(false, false, false);
    for input in [
        "",
        "foo",
        "foo\nbar",
        "\n\nfoo  \nbar\n\n\n",
        "\r\n",
        " \t ",
        "a\r\nb\r\n\r\n",
    ] {
        assert_eq!(format_content(input, &none), input);
        assert_eq!(
            format_file_with_rules(input.as_bytes(), &none),
            (FormatResult::Unchanged, None)
        );
    }
}

#[test]
fn single_rules_each_do_their_part() {
    let input = "\n\nfoo  \nbar \n\n\n";
    // Only the final newline: trailing blank lines collapse into one line feed.
    assert_eq!(
        format_content(input, &rules(true, false, false)),
        "\n\nfoo  \nbar \n"
    );
    // Only trimming: trailing blank lines go, and no line feed ends the text.
    assert_eq!(
        format_content(input, &rules(false, true, false)),
        "\n\nfoo\nbar"
    );
    // Only leading blank lines.
    assert_eq!(
        format_content(input, &rules(false, false, true)),
        "foo  \nbar "
    );
}

#[test]
fn blank_lines_inside_the_text_stay() {
    let all = rules(true, true, true);
    assert_eq!(format_content("a\n\n\nb\n", &all), "a\n\n\nb\n");
    assert_eq!(format_content("a\n  \n\t\nb", &all), "a\n\n\nb\n");
}

#[test]
fn carriage_return_before_line_feed_is_part_of_the_line_ending() {
    assert_eq!(
        format_content("a\r\nb\r\n", &rules(true, false, false)),
        "a\nb\n"
    );
    assert_eq!(
        format_content("\r\n\r\na\r\n\r\n", &rules(false, false, true)),
        "a"
    );
    // A carriage return elsewhere is an ordinary character.
    assert_eq!(
        format_content("a\rb\n", &rules(true, false, false)),
        "a\rb\n"
    );
    // Only one carriage return belongs to the line ending.
    assert_eq!(
        format_content("a\r\r\n", &rules(true, false, false)),
        "a\r\n"
    );
    // At the very end, without a line feed, it stays with the line.
    assert_eq!(format_content("a\r", &rules(false, false, true)), "a\r");
}

#[test]
fn trimming_takes_off_every_kind_of_white_space() {
    let trim = rules(false, true, false);
    assert_eq!(
        format_content("a \t\u{a0}\u{3000}\u{2003}\u{85}\r\u{b}\u{c}\nb\u{1680}", &trim),
        "a\nb"
    );
    // Characters that only look like space are kept.
    assert_eq!(
        format_content("a\u{200b}\nb\u{feff}\nc\u{180e}", &trim),
        "a\u{200b}\nb\u{feff}\nc\u{180e}"
    );
    // White space at the start of a line is kept.
    assert_eq!(format_content("  a  \n\tb\t", &trim), "  a\n\tb");
}

#[test]
fn text_of_blank_lines_only_becomes_empty() {
    for set in every_rule_set() {
        if set == rules(false, false, false) {
            continue;
        }
        assert_eq!(format_content("\n", &set), "");
        assert_eq!(format_content("\n\n\n\n", &set), "");
        assert_eq!(format_content("\r\n\r\n", &set), "");
        assert_eq!(format_content("", &set), "");
    }
}

#[test]
fn formatting_again_changes_nothing_for_ordinary_text() {
    let inputs = [
        "",
        "foo",
        "foo\n",
        "\n\nfoo  \nbar\n\n\n",
        "a\r\nb\r\n",
        "  indented\n\n\nmore \t\n",
        "\n \nx\n",
        "x\ny",
        "tabs\t\t\n\n",
    ];
    for set in every_rule_set() {
        for input in inputs {
            let once = format_content(input, &set);
            // A first or last line of white space alone is the known exception.
            if set.remove_trailing_spaces && (input == "\n \nx\n") && set.remove_leading_newlines {
                continue;
            }
            let twice = format_content(&once, &set);
            assert_eq!(twice, once, "{input:?} under {set:?}");
            assert_eq!(
                check_file_with_rules(once.as_bytes(), &set),
                CheckResult::Formatted
            );
            assert_eq!(
                format_file_with_rules(once.as_bytes(), &set),
                (FormatResult::Unchanged, None)
            );
        }
    }
}

#[test]
fn last_line_of_white_space_alone_takes_two_rounds() {
    let all = rules(true, true, true);
    let once = format_content("foo\n  ", &all);
    assert_eq!(once, "foo\n\n");
    let twice = format_content(&once, &all);
    assert_eq!(twice, "foo\n");
    assert_eq!(format_content(&twice, &all), twice);
}

#[test]
fn first_line_of_white_space_alone_takes_two_rounds() {
    let all = rules(true, true, true);
    let once = format_content(" \nfoo\n", &all);
    assert_eq!(once, "\nfoo\n");
    let twice = format_content(&once, &all);
    assert_eq!(twice, "foo\n");
    assert_eq!(format_content(&twice, &all), twice);
}

#[test]
fn carriage_return_at_the_end_of_a_line_takes_two_rounds() {
    let final_newline = rules(true, false, false);
    let once = format_content("a\r", &final_newline);
    assert_eq!(once, "a\r\n");
    let twice = format_content(&once, &final_newline);
    assert_eq!(twice, "a\n");
    assert_eq!(format_content(&twice, &final_newline), twice);
}

#[test]
fn formatting_agrees_with_the_standard_library_line_by_line() {
    let pieces = [
        "", "a", " ", "\n", "\r", "\r\n", "\t", "\u{a0}", "\u{3000}", "b  ", "\u{85}", "é",
    ];
    let sets = every_rule_set();
    let count = pieces.len();
    for code in 0..count * count * count * count {
        let mut input = String::new();
        let mut rest = code;
        for _ in 0..4 {
            input.push_str(pieces[rest % count]);
            rest /= count;
        }
        for set in &sets {
            assert_eq!(
                format_content(&input, set),
                format_with_std(&input, set),
                "{input:?} under {set:?}"
            );
        }
    }
}

#[test]
fn white_space_is_what_the_standard_library_takes_for_it() {
    let mut count = 0;
    for code in 0..=0x10FFFFu32 {
        if let Some(c) = char::from_u32(code) {
            assert_eq!(char_is_whitespace(c), c.is_whitespace(), "U+{code:04X}");
            if c.is_whitespace() {
                count += 1;
            }
        }
    }
    assert_eq!(count, 25);
}
