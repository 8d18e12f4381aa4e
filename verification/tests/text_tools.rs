use filesearch::encoding::{is_likely_text, is_utf8};
use filesearch::hash::{hash_bytes, hash_string};
use filesearch::mime::{categorize_file, is_text_mime, FileCategory};
use filesearch::path_utils::{
    get_extension, get_file_name, get_file_stem, get_path_depth, is_hidden, is_same_file,
};

#[test]
fn test_is_likely_text() {
    assert!(is_likely_text(b"Hello, world!"));
    assert!(is_likely_text(b""));
    assert!(!is_likely_text(&[0u8; 100]));
}

#[test]
fn test_is_utf8() {
    assert!(is_utf8(b"Hello, world!"));
    assert!(is_utf8("\u{3053}\u{3093}\u{306b}\u{3061}\u{306f}".as_bytes()));
    assert!(!is_utf8(&[0xFF, 0xFE, 0xFD]));
}

#[test]
fn test_hash_bytes() {
    let data = b"Hello, world!";
    let hash = hash_bytes(data);
    assert_eq!(hash.len(), 64);
}

#[test]
fn test_hash_string() {
    let text = "Hello, world!";
    let hash = hash_string(text);
    assert_eq!(hash.len(), 64);
}

#[test]
fn test_hash_consistency() {
    let data = b"test data";
    let hash1 = hash_bytes(data);
    let hash2 = hash_bytes(data);
    assert_eq!(hash1, hash2);
}

#[test]
fn test_hash_known_value() {
    // The digest of the empty input is fixed by the algorithm.
    assert_eq!(
        hash_bytes(b""),
        "e3b0c44298fc1c149afbf4c8996fb92427ae41e4649b934ca495991b7852b855"
    );
}

#[test]
fn test_is_text_mime() {
    assert!(is_text_mime("text/plain"));
    assert!(is_text_mime("text/html"));
    assert!(!is_text_mime("image/png"));
}

#[test]
fn test_categorize_file() {
    assert_eq!(categorize_file("test.txt"), FileCategory::Text);
    assert_eq!(categorize_file("test.png"), FileCategory::Image);
    assert_eq!(categorize_file("test.mp4"), FileCategory::Video);
    assert_eq!(categorize_file("test.mp3"), FileCategory::Audio);
    assert_eq!(categorize_file("test.zip"), FileCategory::Archive);
}

#[test]
fn test_is_hidden_unix() {
    assert!(is_hidden(".hidden"));
    assert!(is_hidden("/path/.hidden"));
    assert!(!is_hidden("visible"));
    assert!(!is_hidden("/path/visible"));
}

#[test]
fn test_get_path_depth() {
    assert_eq!(get_path_depth("/"), 1);
    assert_eq!(get_path_depth("/path/to/file"), 4);
}

#[test]
fn test_get_file_name() {
    assert_eq!(get_file_name("/path/to/file.txt"), "file.txt");
    assert_eq!(get_file_name("file.txt"), "file.txt");
}

#[test]
fn test_get_file_stem() {
    assert_eq!(get_file_stem("/path/to/file.txt"), "file");
    assert_eq!(get_file_stem("file.txt"), "file");
}

#[test]
fn test_get_extension() {
    assert_eq!(get_extension("/path/to/file.txt"), Some(String::from("txt")));
    assert_eq!(get_extension("file.rs"), Some(String::from("rs")));
    assert_eq!(get_extension("file"), None);
}

#[test]
fn test_is_same_file_lexical() {
    assert!(is_same_file("/a/b/../c", "/a/c"));
    assert!(is_same_file("/a//c/", "/a/c"));
    assert!(!is_same_file("/a/c", "/a/d"));
}
