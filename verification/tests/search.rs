use filesearch::error::SearchError;
use filesearch::fuzzy::{levenshtein_distance, similarity_milli, starts_with_milli, FuzzyMatcher};
use filesearch::matcher::{
    create_matcher, AnyMatcher, CompositeMatcher, ExactMatcher, GlobPatternMatcher, Matcher,
    RegexMatcher,
};
use filesearch::query::{print_query, Query, QueryParser};
use filesearch::ranker::ResultRanker;
use filesearch::types::{FileEntry, MatchMode, SearchResult};

const NOW: i64 = 1_700_000_000;

fn file_named(name: &str, path: &str) -> FileEntry {
    let mut e = FileEntry::new(String::from(path), NOW);
    e.name = String::from(name);
    e.extension = Some(String::from("txt"));
    e.size = 1024;
    e.modified_at = Some(NOW);
    e
}

#[test]
fn test_levenshtein_distance() {
    assert_eq!(levenshtein_distance("kitten", "sitting"), 3);
    assert_eq!(levenshtein_distance("hello", "hello"), 0);
    assert_eq!(levenshtein_distance("", "test"), 4);
}

#[test]
fn test_exact_matcher() {
    let matcher = ExactMatcher::new(String::from("test"), true);
    assert!(matcher.is_match("this is a test"));
    assert!(!matcher.is_match("this is a TEST"));

    let matcher = ExactMatcher::new(String::from("test"), false);
    assert!(matcher.is_match("this is a TEST"));
}

#[test]
fn test_regex_matcher() {
    let matcher = RegexMatcher::new(r"\d+").unwrap();
    assert!(matcher.is_match("test123"));
    assert!(!matcher.is_match("test"));

    let matches = matcher.find_matches("test123abc456");
    assert_eq!(matches.len(), 2);
}

#[test]
fn test_glob_matcher() {
    let matcher = GlobPatternMatcher::new("*.txt").unwrap();
    assert!(matcher.is_match("file.txt"));
    assert!(!matcher.is_match("file.rs"));
}

#[test]
fn test_composite_matcher_and() {
    let m1 = AnyMatcher::Exact(ExactMatcher::new(String::from("hello"), false));
    let m2 = AnyMatcher::Exact(ExactMatcher::new(String::from("world"), false));

    let composite = CompositeMatcher::and(vec![m1, m2]);
    assert!(composite.is_match("hello world"));
    assert!(!composite.is_match("hello there"));
}

#[test]
fn test_composite_matcher_or() {
    let m1 = AnyMatcher::Exact(ExactMatcher::new(String::from("hello"), false));
    let m2 = AnyMatcher::Exact(ExactMatcher::new(String::from("world"), false));

    let composite = CompositeMatcher::or(vec![m1, m2]);
    assert!(composite.is_match("hello"));
    assert!(composite.is_match("world"));
    assert!(!composite.is_match("test"));
}

#[test]
fn test_create_matcher_rejects_bad_regex() {
    match create_matcher("(unclosed", MatchMode::Regex) {
        Err(SearchError::Parse(_)) => {}
        _ => panic!("a malformed regex pattern must be rejected"),
    }
}

#[test]
fn test_fuzzy_matcher() {
    let matcher = FuzzyMatcher::default();
    assert!(matcher.fuzzy_match("hello", "hlo").is_some());
    assert!(matcher.fuzzy_match("hello", "xyz").is_none());
}

#[test]
fn test_similarity_score() {
    assert_eq!(similarity_milli("hello", "hello"), 1000);
    assert!(similarity_milli("hello", "hallo") > 700);
    assert!(similarity_milli("hello", "world") < 500);
}

#[test]
fn test_starts_with_score() {
    assert_eq!(starts_with_milli("hello world", "hello"), 1000);
    assert_eq!(starts_with_milli("hello world", "world"), 500);
    assert_eq!(starts_with_milli("hello world", "xyz"), 0);
}

#[test]
fn test_score_normalized() {
    let matcher = FuzzyMatcher::default();
    let score = matcher.score_milli("hello", "hlo");
    assert!(score > 0 && score <= 1000);
}

#[test]
fn test_parse_simple_query() {
    let query = QueryParser::parse("test.txt", NOW).unwrap();
    assert_eq!(query.pattern, "test.txt");
    assert_eq!(query.match_mode, MatchMode::CaseInsensitive);
}

#[test]
fn test_parse_query_with_extension() {
    let query = QueryParser::parse("test ext:rs", NOW).unwrap();
    assert_eq!(query.pattern, "test");
    assert_eq!(query.extensions, vec!["rs"]);
}

#[test]
fn test_parse_query_with_size() {
    let query = QueryParser::parse("test size:>1MB", NOW).unwrap();
    assert_eq!(query.pattern, "test");
    assert!(query.size_filter.is_some());
}

#[test]
fn test_parse_query_with_date() {
    let query = QueryParser::parse("test modified:today", NOW).unwrap();
    assert_eq!(query.pattern, "test");
    assert!(query.date_filter.is_some());
}

#[test]
fn test_parse_query_with_mode() {
    let query = QueryParser::parse("test mode:fuzzy", NOW).unwrap();
    assert_eq!(query.pattern, "test");
    assert_eq!(query.match_mode, MatchMode::Fuzzy);
}

#[test]
fn test_parse_complex_query() {
    let query =
        QueryParser::parse("test ext:rs,txt size:>100KB modified:today mode:fuzzy", NOW).unwrap();
    assert_eq!(query.pattern, "test");
    assert_eq!(query.extensions.len(), 2);
    assert!(query.size_filter.is_some());
    assert!(query.date_filter.is_some());
    assert_eq!(query.match_mode, MatchMode::Fuzzy);
}

#[test]
fn test_parse_rejects_empty_pattern() {
    match QueryParser::parse("", NOW) {
        Err(SearchError::InvalidQuery(_)) => {}
        _ => panic!("an empty query must be rejected"),
    }
    match QueryParser::parse("ext:rs", NOW) {
        Err(SearchError::InvalidQuery(_)) => {}
        _ => panic!("an option-only query must be rejected"),
    }
}

#[test]
fn test_parse_rejects_bad_size_option() {
    match QueryParser::parse("x size:abc", NOW) {
        Err(SearchError::InvalidQuery(_)) => {}
        _ => panic!("a malformed size option must be rejected"),
    }
}

#[test]
fn test_query_print_reparse_round_trip() {
    let inputs = [
        "notes ext:rs,txt size:500..2000 mode:glob scope:path limit:7",
        "a b c mode:exact",
        "report size:>1kb modified:3d",
        "plain",
    ];
    for input in inputs.iter() {
        let q1 = QueryParser::parse(input, NOW).unwrap();
        let printed = print_query(&q1, NOW);
        let q2 = QueryParser::parse(printed.as_str(), NOW).unwrap();
        assert_eq!(q1.pattern, q2.pattern);
        assert_eq!(q1.match_mode, q2.match_mode);
        assert_eq!(q1.scope, q2.scope);
        assert_eq!(q1.size_filter, q2.size_filter);
        assert_eq!(q1.date_filter, q2.date_filter);
        assert_eq!(q1.extensions, q2.extensions);
        assert_eq!(q1.max_results, q2.max_results);
    }
}

#[test]
fn test_name_match_score() {
    let ranker = ResultRanker::new(70);
    let file = file_named("test.txt", "/path/test.txt");
    let score = ranker.calculate_score_milli(&file, "test", NOW);
    assert!(score > 0);
}

#[test]
fn test_ranking_order() {
    let ranker = ResultRanker::new(70);
    let results = vec![
        SearchResult {
            file: file_named("other.txt", "/deep/path/other.txt"),
            score_milli: 0,
            snippet: None,
            matches: vec![],
        },
        SearchResult {
            file: file_named("test.txt", "/test.txt"),
            score_milli: 0,
            snippet: None,
            matches: vec![],
        },
    ];
    let ranked = ranker.rank(results, "test", NOW);
    assert_eq!(ranked[0].file.name, "test.txt");
}

#[test]
fn test_ranker_monotonicity_example() {
    let ranker = ResultRanker::new(70);
    let exact = ranker.calculate_score_milli(&file_named("query", "/d/query"), "query", NOW);
    let prefix = ranker.calculate_score_milli(&file_named("queryfile", "/d/queryfile"), "query", NOW);
    let sub = ranker.calculate_score_milli(&file_named("thequeryfile", "/d/thequeryfile"), "query", NOW);
    assert!(exact >= prefix);
    assert!(prefix >= sub);
}

#[test]
fn test_query_builders() {
    let q = Query::new(String::from("x"))
        .with_match_mode(MatchMode::Glob)
        .with_max_results(5);
    assert_eq!(q.pattern, "x");
    assert_eq!(q.match_mode, MatchMode::Glob);
    assert_eq!(q.max_results, Some(5));
}

#[test]
fn test_boost_by_extension() {
    let ranker = ResultRanker::new(70);
    let mut f1 = file_named("file1.rs", "/file1.rs");
    f1.extension = Some(String::from("rs"));
    let mut f2 = file_named("file2.txt", "/file2.txt");
    f2.extension = Some(String::from("txt"));
    let results = vec![
        SearchResult { file: f1, score_milli: 500, snippet: None, matches: vec![] },
        SearchResult { file: f2, score_milli: 500, snippet: None, matches: vec![] },
    ];
    let boosted = ranker.boost_by_extension(results, &vec![String::from("rs")]);
    assert_eq!(boosted[0].file.extension, Some(String::from("rs")));
    assert_eq!(boosted[0].score_milli, 600);
    assert_eq!(boosted[1].score_milli, 500);
}

#[test]
fn test_boost_by_size_prefers_smaller() {
    let ranker = ResultRanker::new(70);
    let mut small = file_named("small.txt", "/small.txt");
    small.size = 100;
    let mut big = file_named("big.txt", "/big.txt");
    big.size = 1000;
    let results = vec![
        SearchResult { file: big, score_milli: 500, snippet: None, matches: vec![] },
        SearchResult { file: small, score_milli: 500, snippet: None, matches: vec![] },
    ];
    let boosted = ranker.boost_by_size(results, true);
    // the smaller file gets the full tenth: 500 * 1090 / 1000
    assert_eq!(boosted[0].file.name, "small.txt");
    assert_eq!(boosted[0].score_milli, 545);
    assert_eq!(boosted[1].score_milli, 500);
}
