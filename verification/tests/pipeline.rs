use filesearch::config::SearchConfig;
use filesearch::content::ContentAnalyzer;
use filesearch::engine::SearchEngine;
use filesearch::error::SearchError;
use filesearch::walker::{FileMeta, FsChild, FsDir, FsSnapshot};
use filesearch::watch::RawEventKind;

const NOW: i64 = 1_700_000_000;

fn file_meta(size: u64, modified: i64) -> FileMeta {
    FileMeta {
        size,
        is_directory: false,
        is_symlink: false,
        created_at: Some(modified),
        modified_at: Some(modified),
        accessed_at: Some(modified),
    }
}

fn dir_meta() -> FileMeta {
    FileMeta {
        size: 0,
        is_directory: true,
        is_symlink: false,
        created_at: None,
        modified_at: None,
        accessed_at: None,
    }
}

fn file_child(name: &str, size: u64, modified: i64) -> FsChild {
    FsChild {
        name: String::from(name),
        meta: file_meta(size, modified),
        canon: String::new(),
    }
}

fn dir_child(name: &str, canon: &str) -> FsChild {
    FsChild {
        name: String::from(name),
        meta: dir_meta(),
        canon: String::from(canon),
    }
}

/// The tree `/data/{a.txt, b.rs, sub/c.txt}`.
fn basic_snapshot() -> FsSnapshot {
    FsSnapshot {
        dirs: vec![
            FsDir {
                path: String::from("/data"),
                canon: String::from("/data"),
                children: vec![
                    file_child("a.txt", 100, NOW - 10),
                    file_child("b.rs", 200, NOW - 10),
                    dir_child("sub", "/data/sub"),
                ],
            },
            FsDir {
                path: String::from("/data/sub"),
                canon: String::from("/data/sub"),
                children: vec![file_child("c.txt", 300, NOW - 10)],
            },
        ],
    }
}

fn engine() -> SearchEngine {
    SearchEngine::with_config(SearchConfig::new_default(2)).unwrap()
}

#[test]
fn basic_index_and_search() {
    let mut e = engine();
    let count = e.index_directory(&basic_snapshot(), "/data", NOW).unwrap();
    assert_eq!(count, 3);
    let results = e.search("a", NOW).unwrap();
    assert_eq!(results.len(), 1);
    assert_eq!(results[0].file.name, "a.txt");
}

#[test]
fn empty_query_is_invalid() {
    let mut e = engine();
    e.index_directory(&basic_snapshot(), "/data", NOW).unwrap();
    match e.search("", NOW) {
        Err(SearchError::InvalidQuery(_)) => {}
        _ => panic!("an empty query must fail as invalid"),
    }
}

#[test]
fn extension_filter_narrows_results() {
    let mut e = engine();
    e.index_directory(&basic_snapshot(), "/data", NOW).unwrap();
    // of the txt files, only c.txt carries the pattern in its name
    let txt = e.search("c ext:txt", NOW).unwrap();
    assert_eq!(txt.len(), 1);
    assert_eq!(txt[0].file.name, "c.txt");
    // b.rs does not carry the pattern at all
    let rs = e.search("c ext:rs", NOW).unwrap();
    assert_eq!(rs.len(), 0);
}

#[test]
fn fuzzy_mode_prefers_shorter_prefix_match() {
    let mut e = engine();
    let snap = FsSnapshot {
        dirs: vec![FsDir {
            path: String::from("/data"),
            canon: String::from("/data"),
            children: vec![
                file_child("alpha.rs", 10, NOW - 10),
                file_child("alphabet.rs", 10, NOW - 10),
                file_child("beta.rs", 10, NOW - 10),
            ],
        }],
    };
    e.index_directory(&snap, "/data", NOW).unwrap();
    let results = e.search("alp mode:fuzzy", NOW).unwrap();
    let names: Vec<&str> = results.iter().map(|r| r.file.name.as_str()).collect();
    assert!(names.contains(&"alpha.rs"));
    assert!(names.contains(&"alphabet.rs"));
    assert!(!names.contains(&"beta.rs"));
    let score_of = |n: &str| {
        results
            .iter()
            .find(|r| r.file.name == n)
            .map(|r| r.score_milli)
            .unwrap()
    };
    // the scorer gives both prefix matches the same raw score, so the
    // shorter name may tie but must never fall behind
    assert!(score_of("alpha.rs") >= score_of("alphabet.rs"));
    let pos_of = |n: &str| results.iter().position(|r| r.file.name == n).unwrap();
    assert!(pos_of("alpha.rs") < pos_of("alphabet.rs"));
}

#[test]
fn size_filter_semantics() {
    let mut e = engine();
    let snap = FsSnapshot {
        dirs: vec![FsDir {
            path: String::from("/data"),
            canon: String::from("/data"),
            children: vec![
                file_child("small.bin", 500, NOW - 10),
                file_child("mid.bin", 1024, NOW - 10),
                file_child("big.bin", 4096, NOW - 10),
            ],
        }],
    };
    e.index_directory(&snap, "/data", NOW).unwrap();
    let over = e.search("* mode:glob size:>1KB", NOW).unwrap();
    assert_eq!(over.len(), 1);
    assert_eq!(over[0].file.size, 4096);
    let exact = e.search("* mode:glob size:1KB", NOW).unwrap();
    assert_eq!(exact.len(), 1);
    assert_eq!(exact[0].file.size, 1024);
    let range = e.search("* mode:glob size:500..2000", NOW).unwrap();
    assert_eq!(range.len(), 2);
}

#[test]
fn incremental_add_and_remove() {
    let mut e = engine();
    let first = FsSnapshot {
        dirs: vec![FsDir {
            path: String::from("/data"),
            canon: String::from("/data"),
            children: vec![file_child("x.txt", 10, NOW - 10)],
        }],
    };
    e.index_directory(&first, "/data", NOW).unwrap();
    let second = FsSnapshot {
        dirs: vec![FsDir {
            path: String::from("/data"),
            canon: String::from("/data"),
            children: vec![file_child("y.txt", 20, NOW - 5)],
        }],
    };
    let stats = e.update_index(&second, "/data", NOW + 1).unwrap();
    assert_eq!(stats.added, 1);
    assert_eq!(stats.updated, 0);
    assert_eq!(stats.removed, 1);
    assert!(e.search("x.txt", NOW + 1).unwrap().is_empty());
    assert_eq!(e.search("y.txt", NOW + 1).unwrap().len(), 1);
}

#[test]
fn idempotent_indexing() {
    let mut e = engine();
    let snap = basic_snapshot();
    e.index_directory(&snap, "/data", NOW).unwrap();
    let first: Vec<(String, u64, Option<i64>)> = e
        .search("* mode:glob scope:all", NOW)
        .unwrap()
        .iter()
        .map(|r| (r.file.path.clone(), r.file.size, r.file.modified_at))
        .collect();
    e.index_directory(&snap, "/data", NOW + 100).unwrap();
    let second: Vec<(String, u64, Option<i64>)> = e
        .search("* mode:glob scope:all", NOW + 100)
        .unwrap()
        .iter()
        .map(|r| (r.file.path.clone(), r.file.size, r.file.modified_at))
        .collect();
    let mut a = first.clone();
    let mut b = second.clone();
    a.sort();
    b.sort();
    assert_eq!(a, b);
    assert_eq!(a.len(), 3);
}

#[test]
fn exclusion_soundness() {
    let mut config = SearchConfig::new_default(2);
    config.exclusion_patterns.push(String::from("*.tmp"));
    let mut e = SearchEngine::with_config(config).unwrap();
    let snap = FsSnapshot {
        dirs: vec![FsDir {
            path: String::from("/data"),
            canon: String::from("/data"),
            children: vec![
                file_child("note.tmp", 10, NOW - 10),
                file_child("note.txt", 10, NOW - 10),
            ],
        }],
    };
    let count = e.index_directory(&snap, "/data", NOW).unwrap();
    assert_eq!(count, 1);
    let results = e.search("note", NOW).unwrap();
    assert_eq!(results.len(), 1);
    assert_eq!(results[0].file.name, "note.txt");
}

#[test]
fn cycle_safety() {
    // a directory holding a link to itself: the walk must come back
    let mut e = engine();
    let snap = FsSnapshot {
        dirs: vec![FsDir {
            path: String::from("/data"),
            canon: String::from("/data"),
            children: vec![
                file_child("real.txt", 10, NOW - 10),
                FsChild {
                    name: String::from("loop"),
                    meta: FileMeta { is_symlink: true, ..dir_meta() },
                    canon: String::from("/data"),
                },
            ],
        }],
    };
    let mut config = SearchConfig::new_default(2);
    config.follow_symlinks = true;
    let mut e2 = SearchEngine::with_config(config).unwrap();
    let count = e2.index_directory(&snap, "/data", NOW).unwrap();
    assert_eq!(count, 1);
    let count_plain = e.index_directory(&snap, "/data", NOW).unwrap();
    assert_eq!(count_plain, 1);
}

#[test]
fn watch_driven_sync() {
    let mut e = engine();
    let snap = basic_snapshot();
    e.index_directory(&snap, "/data", NOW).unwrap();
    e.start_watching().unwrap();
    assert!(e.is_watching());

    // a creation event arrives with its metadata
    let applied = e.handle_event(
        "/data/z.txt",
        RawEventKind::Create,
        &Some(file_meta(42, NOW)),
        1000,
        NOW,
    );
    assert!(applied.is_some());
    let results = e.search("z", NOW).unwrap();
    assert_eq!(results.len(), 1);
    assert_eq!(results[0].file.name, "z.txt");

    // two quick modifications inside the window: one is applied
    let first = e.handle_event(
        "/data/z.txt",
        RawEventKind::Modify,
        &Some(file_meta(43, NOW + 1)),
        1600,
        NOW + 1,
    );
    let second = e.handle_event(
        "/data/z.txt",
        RawEventKind::Modify,
        &Some(file_meta(44, NOW + 2)),
        1700,
        NOW + 2,
    );
    assert!(first.is_some());
    assert!(second.is_none());
    let refreshed = e.search("z", NOW + 2).unwrap();
    assert_eq!(refreshed[0].file.size, 43);

    e.stop_watching().unwrap();
    assert!(!e.is_watching());
}

#[test]
fn deletion_event_removes_record() {
    let mut e = engine();
    e.index_directory(&basic_snapshot(), "/data", NOW).unwrap();
    let applied = e.handle_event("/data/a.txt", RawEventKind::Remove, &None, 1000, NOW);
    assert!(applied.is_some());
    assert!(e.search("a", NOW).unwrap().is_empty());
}

#[test]
fn content_scope_empty_when_disabled() {
    let mut e = engine();
    e.index_directory(&basic_snapshot(), "/data", NOW).unwrap();
    let results = e.search("a scope:content", NOW).unwrap();
    assert!(results.is_empty());
}

#[test]
fn analyze_text_bytes() {
    let analyzer = ContentAnalyzer::new(10 * 1024 * 1024);
    let data = b"Hello world\nThis is a test\nWith multiple lines";
    let preview = analyzer.analyze_bytes(data, data.len() as u64).unwrap();
    assert_eq!(preview.word_count, 9);
    assert_eq!(preview.line_count, 3);
    assert!(preview.preview.contains("Hello world"));
    assert!(!preview.encoding.is_empty());
}

#[test]
fn analyze_rejects_binary_bytes() {
    let analyzer = ContentAnalyzer::new(10 * 1024 * 1024);
    let data = [0u8; 100];
    assert!(analyzer.analyze_bytes(&data, 100).is_none());
}

#[test]
fn snippet_around_first_occurrence() {
    let analyzer = ContentAnalyzer::new(10 * 1024 * 1024);
    let data = b"The quick brown fox jumps over the lazy dog";
    let snippet = analyzer.get_snippet(data, "brown", 10).unwrap();
    assert!(snippet.contains("brown"));
}

#[test]
fn verify_index_counts() {
    let mut e = engine();
    let snap = basic_snapshot();
    e.index_directory(&snap, "/data", NOW).unwrap();
    let stats = e.verify_index(&snap, "/data").unwrap();
    assert_eq!(stats.total_indexed, 3);
    assert_eq!(stats.valid, 3);
    assert_eq!(stats.health_percent(), 100);
}

#[test]
fn clear_index_empties_store() {
    let mut e = engine();
    e.index_directory(&basic_snapshot(), "/data", NOW).unwrap();
    e.clear_index().unwrap();
    assert!(e.search("a", NOW).unwrap().is_empty());
}

struct CountingSink {
    reports: usize,
    stop_after: Option<usize>,
}

impl filesearch::engine::ProgressSink for CountingSink {
    fn report(&mut self, _p: &filesearch::types::Progress) -> bool {
        self.reports += 1;
        match self.stop_after {
            Some(n) => self.reports < n,
            None => true,
        }
    }
}

#[test]
fn indexing_reports_batches_and_can_stop() {
    let mut config = SearchConfig::new_default(2);
    config.batch_size = 1;
    let mut e = SearchEngine::with_config(config).unwrap();
    let mut sink = CountingSink { reports: 0, stop_after: None };
    let count = e
        .index_directory_with_progress(&basic_snapshot(), "/data", NOW, &mut sink)
        .unwrap();
    assert_eq!(count, 3);
    assert_eq!(sink.reports, 3);

    let mut config2 = SearchConfig::new_default(2);
    config2.batch_size = 1;
    let mut e2 = SearchEngine::with_config(config2).unwrap();
    let mut stopper = CountingSink { reports: 0, stop_after: Some(1) };
    let partial = e2
        .index_directory_with_progress(&basic_snapshot(), "/data", NOW, &mut stopper)
        .unwrap();
    assert_eq!(partial, 1);
    assert_eq!(e2.database.record_count(), 1);
}

#[test]
fn content_search_finds_indexed_text() {
    let mut config = SearchConfig::new_default(2);
    config.enable_content_search = true;
    let mut e = SearchEngine::with_config(config).unwrap();
    e.index_directory(&basic_snapshot(), "/data", NOW).unwrap();
    let wrote = e.index_file_content("/data/a.txt", b"hello searchable world");
    assert!(wrote);
    let hits = e.search("searchable scope:content", NOW).unwrap();
    assert_eq!(hits.len(), 1);
    assert_eq!(hits[0].file.name, "a.txt");
    // an unknown path writes nothing
    assert!(!e.index_file_content("/data/ghost.txt", b"text"));
    // with content search disabled the same query returns nothing
    let mut e2 = engine();
    e2.index_directory(&basic_snapshot(), "/data", NOW).unwrap();
    assert!(e2.search("searchable scope:content", NOW).unwrap().is_empty());
}

#[test]
fn add_exclusion_rejects_bad_glob() {
    let mut e = engine();
    assert!(e.add_exclusion_pattern(String::from("a[")).is_err());
    assert!(e.add_exclusion_pattern(String::from("*.log")).is_ok());
}
