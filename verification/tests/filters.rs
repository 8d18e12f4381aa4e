use filesearch::error::SearchError;
use filesearch::exclusion::ExclusionFilter;
use filesearch::extension::{
    get_extension_category, is_source_code_extension, normalize_extension, parse_extensions,
    ExtensionCategory,
};
use filesearch::size::{apply_size_filter, format_size, parse_size};
use filesearch::types::{ExclusionRule, ExclusionRuleType, FileEntry, SizeFilter};

fn entry_with_size(size: u64) -> FileEntry {
    let mut e = FileEntry::new(String::from("/test/file.txt"), 0);
    e.size = size;
    e
}

#[test]
fn test_normalize_extension() {
    assert_eq!(normalize_extension(".txt"), "txt");
    assert_eq!(normalize_extension("TXT"), "txt");
    assert_eq!(normalize_extension("rs"), "rs");
}

#[test]
fn test_parse_extensions() {
    let exts = parse_extensions("rs, .txt, .MD");
    assert_eq!(exts, vec!["rs", "txt", "md"]);
}

#[test]
fn test_is_source_code_extension() {
    assert!(is_source_code_extension("rs"));
    assert!(is_source_code_extension("py"));
    assert!(!is_source_code_extension("txt"));
}

#[test]
fn test_get_extension_category() {
    assert_eq!(get_extension_category("rs"), ExtensionCategory::SourceCode);
    assert_eq!(get_extension_category("pdf"), ExtensionCategory::Document);
    assert_eq!(get_extension_category("png"), ExtensionCategory::Image);
    assert_eq!(get_extension_category("mp4"), ExtensionCategory::Video);
    assert_eq!(get_extension_category("mp3"), ExtensionCategory::Audio);
    assert_eq!(get_extension_category("zip"), ExtensionCategory::Archive);
}

#[test]
fn test_parse_size() {
    assert_eq!(parse_size("100"), Some(100));
    assert_eq!(parse_size("1KB"), Some(1024));
    assert_eq!(parse_size("1MB"), Some(1024 * 1024));
    assert_eq!(parse_size("1GB"), Some(1024 * 1024 * 1024));
    assert_eq!(parse_size("1.5MB"), None);
}

#[test]
fn test_format_size() {
    assert_eq!(format_size(100), "100 B");
    assert_eq!(format_size(1024), "1.00 KB");
    assert_eq!(format_size(1024 * 1024), "1.00 MB");
    assert_eq!(format_size(1024 * 1024 * 1024), "1.00 GB");
}

#[test]
fn test_apply_size_filter() {
    let entry = entry_with_size(1024);
    assert!(apply_size_filter(&entry, &SizeFilter::Exact(1024)));
    assert!(apply_size_filter(&entry, &SizeFilter::GreaterThan(1000)));
    assert!(apply_size_filter(&entry, &SizeFilter::LessThan(2000)));
    assert!(apply_size_filter(&entry, &SizeFilter::Range(1000, 2000)));
}

#[test]
fn test_exclusion_filter_glob() {
    let rules = vec![ExclusionRule {
        pattern: String::from("*.tmp"),
        rule_type: ExclusionRuleType::Glob,
    }];
    let filter = ExclusionFilter::new(rules).unwrap();
    assert!(filter.is_excluded("test.tmp"));
    assert!(!filter.is_excluded("test.txt"));
}

#[test]
fn test_exclusion_filter_path() {
    let rules = vec![ExclusionRule {
        pattern: String::from("node_modules"),
        rule_type: ExclusionRuleType::Path,
    }];
    let filter = ExclusionFilter::new(rules).unwrap();
    assert!(filter.is_excluded("/project/node_modules/package"));
    assert!(!filter.is_excluded("/project/src/main.rs"));
}

#[test]
fn test_default_exclusion_filter() {
    let patterns = vec![
        String::from(".git"),
        String::from("node_modules"),
        String::from("target"),
        String::from(".DS_Store"),
    ];
    let filter = ExclusionFilter::from_patterns(&patterns).unwrap();
    assert!(filter.is_excluded(".git"));
    assert!(filter.is_excluded("node_modules"));
    assert!(filter.is_excluded("target"));
}

#[test]
fn test_exclusion_regex_rule() {
    let rules = vec![ExclusionRule {
        pattern: String::from("ba+d"),
        rule_type: ExclusionRuleType::Regex,
    }];
    let filter = ExclusionFilter::new(rules).unwrap();
    assert!(filter.is_excluded("/tmp/baaad/file"));
    assert!(!filter.is_excluded("/tmp/good/file"));
}

#[test]
fn test_exclusion_rejects_bad_pattern() {
    let rules = vec![ExclusionRule {
        pattern: String::from("[unclosed"),
        rule_type: ExclusionRuleType::Regex,
    }];
    match ExclusionFilter::new(rules) {
        Err(SearchError::Parse(_)) => {}
        _ => panic!("a malformed regex rule must be rejected"),
    }
}

#[test]
fn test_parse_size_units_lowercase_and_bytes() {
    assert_eq!(parse_size(" 2k "), Some(2048));
    assert_eq!(parse_size("3b"), Some(3));
    assert_eq!(parse_size("1tb"), Some(1024u64 * 1024 * 1024 * 1024));
    assert_eq!(parse_size(""), None);
    assert_eq!(parse_size("kb"), None);
}
