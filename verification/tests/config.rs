use basefmt::config::{Config, ErrorKind};

#[test]
fn test_config_default() {
    let config = Config::default();
    assert!(config.exclude.is_empty());
}

#[test]
fn test_config_load_nonexistent_file() {
    let config = Config::load(None).unwrap();

    // Should return default config when file doesn't exist
    assert!(config.exclude.is_empty());
}

#[test]
fn test_config_load_empty_exclude() {
    let config = Config::load(Some(Vec::new())).unwrap();

    assert!(config.exclude.is_empty());
}

#[test]
fn test_config_load_single_exclude_pattern() {
    let config = Config::load(Some(vec!["*.min.js".to_string()])).unwrap();

    assert_eq!(config.exclude, vec!["*.min.js"]);
}

#[test]
fn test_config_load_multiple_exclude_patterns() {
    let config = Config::load(Some(vec![
        "*.min.*".to_string(),
        "test/**".to_string(),
        "vendor/**".to_string(),
    ]))
    .unwrap();

    assert_eq!(config.exclude, vec!["*.min.*", "test/**", "vendor/**"]);
}

#[test]
fn test_is_excluded_simple_pattern() {
    let config = Config::with_exclude(vec!["*.min.js".to_string()]).unwrap();

    assert!(config.is_excluded("app.min.js"));
    assert!(!config.is_excluded("app.js"));
}

#[test]
fn test_is_excluded_wildcard_pattern() {
    let config = Config::with_exclude(vec!["*.min.*".to_string()]).unwrap();

    assert!(config.is_excluded("app.min.js"));
    assert!(config.is_excluded("style.min.css"));
    assert!(!config.is_excluded("app.js"));
}

#[test]
fn test_is_excluded_directory_pattern() {
    let config = Config::with_exclude(vec!["test/**".to_string()]).unwrap();

    assert!(config.is_excluded("test/foo.txt"));
    assert!(config.is_excluded("test/sub/bar.txt"));
    assert!(!config.is_excluded("src/test.txt"));
}

#[test]
fn test_is_excluded_multiple_patterns() {
    let config = Config::with_exclude(vec![
        "*.min.*".to_string(),
        "test/**".to_string(),
        "vendor/**".to_string(),
    ])
    .unwrap();

    // Should match first pattern
    assert!(config.is_excluded("app.min.js"));

    // Should match second pattern
    assert!(config.is_excluded("test/foo.txt"));

    // Should match third pattern
    assert!(config.is_excluded("vendor/lib.js"));

    // Should not match any pattern
    assert!(!config.is_excluded("src/main.js"));
}

#[test]
fn test_is_excluded_no_patterns() {
    let config = Config::with_exclude(Vec::new()).unwrap();

    // Nothing should be excluded when there are no patterns
    assert!(!config.is_excluded("anything.txt"));
    assert!(!config.is_excluded("test/foo.txt"));
}

#[test]
fn test_is_excluded_relative_path() {
    let config = Config::with_exclude(vec!["./test/**".to_string()]).unwrap();

    // Glob patterns with ./ prefix require exact match
    assert!(config.is_excluded("./test/foo.txt"));

    // Without ./ prefix, it won't match the ./test/** pattern
    assert!(!config.is_excluded("test/foo.txt"));
}

#[test]
fn test_is_excluded_nested_wildcards() {
    let config = Config::with_exclude(vec!["**/node_modules/**".to_string()]).unwrap();

    assert!(config.is_excluded("node_modules/pkg/file.js"));
    assert!(config.is_excluded("src/node_modules/pkg/file.js"));
    assert!(!config.is_excluded("src/file.js"));
}

#[test]
fn test_with_exclude_invalid_pattern() {
    let result = Config::with_exclude(vec!["[invalid".to_string()]);

    assert!(result.is_err());
    let err = result.unwrap_err();
    assert_eq!(err.kind(), ErrorKind::InvalidInput);
    assert!(err.to_string().contains("invalid glob pattern"));
}

#[test]
fn test_is_excluded_specific_file() {
    let config = Config::with_exclude(vec!["specific/file.txt".to_string()]).unwrap();

    assert!(config.is_excluded("specific/file.txt"));
    assert!(!config.is_excluded("specific/other.txt"));
    assert!(!config.is_excluded("other/file.txt"));
}

#[test]
fn test_is_excluded_case_sensitive() {
    let config = Config::with_exclude(vec!["*.TXT".to_string()]).unwrap();

    // Glob patterns are case-sensitive by default
    assert!(config.is_excluded("file.TXT"));
    assert!(!config.is_excluded("file.txt"));
}

#[test]
fn vendor_pattern_excludes_the_directory_and_not_a_file_of_that_name() {
    let config = Config::with_exclude(vec!["vendor/**".to_string()]).unwrap();

    assert!(config.is_excluded("vendor/lib.js"));
    assert!(!config.is_excluded("src/vendor.js"));
}

#[test]
fn invalid_pattern_error_names_the_first_bad_pattern() {
    let err = Config::with_exclude(vec![
        "*.rs".to_string(),
        "[first".to_string(),
        "{second".to_string(),
    ])
    .unwrap_err();

    assert_eq!(err.kind(), ErrorKind::InvalidInput);
    let text = err.to_string();
    assert!(text.starts_with("invalid glob pattern '[first': "), "{text}");
    assert!(text.contains("unclosed character class"), "{text}");
}

#[test]
fn load_fails_on_an_invalid_pattern() {
    let err = Config::load(Some(vec!["a{b".to_string()])).unwrap_err();
    assert_eq!(err.kind(), ErrorKind::InvalidInput);
    assert!(err.to_string().starts_with("invalid glob pattern 'a{b': "));
}

#[test]
fn default_config_excludes_nothing() {
    let config = Config::default();
    assert!(!config.is_excluded("vendor/lib.js"));
    assert!(!config.is_excluded(""));
}
