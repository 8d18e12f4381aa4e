use filesearch::bloom::FileBloomFilter;
use filesearch::error::SearchError;
use filesearch::schema::MigrationManager;
use filesearch::cache::LruCache;
use filesearch::database::Database;
use filesearch::debounce::{EventDebouncer, FileEventType};
use filesearch::schema::{get_all_index_creation_statements, get_all_table_creation_statements};
use filesearch::types::FileEntry;

fn entry(path: &str, size: u64, modified: i64) -> FileEntry {
    let mut e = FileEntry::new(String::from(path), 0);
    e.size = size;
    e.modified_at = Some(modified);
    e
}

#[test]
fn test_bloom_filter_basic() {
    let mut bloom = FileBloomFilter::new(1000, 10000);
    bloom.insert("test.txt");
    bloom.insert("another.rs");
    assert!(bloom.contains("test.txt"));
    assert!(bloom.contains("another.rs"));
}

#[test]
fn test_bloom_filter_negative_lookup() {
    let mut bloom = FileBloomFilter::new(1000, 10000);
    bloom.insert("exists.txt");
    assert!(!bloom.contains("doesnotexist.txt"));
}

#[test]
fn test_bloom_filter_clear() {
    let mut bloom = FileBloomFilter::new(1000, 10000);
    bloom.insert("test.txt");
    assert!(bloom.contains("test.txt"));
    bloom.clear();
    assert!(!bloom.contains("test.txt"));
}

#[test]
fn test_lru_cache_basic_operations() {
    let mut cache = LruCache::new(2);
    let path1 = "/test/file1.txt";
    let path2 = "/test/file2.txt";

    cache.insert(String::from(path1), entry(path1, 1, 0));
    assert_eq!(cache.len(), 1);

    cache.insert(String::from(path2), entry(path2, 2, 0));
    assert_eq!(cache.len(), 2);

    assert!(cache.contains(path1));
    assert!(cache.contains(path2));
}

#[test]
fn test_lru_cache_eviction() {
    let mut cache = LruCache::new(2);
    let path1 = "/test/file1.txt";
    let path2 = "/test/file2.txt";
    let path3 = "/test/file3.txt";

    cache.insert(String::from(path1), entry(path1, 1, 0));
    cache.insert(String::from(path2), entry(path2, 2, 0));
    cache.insert(String::from(path3), entry(path3, 3, 0));

    assert_eq!(cache.len(), 2);
    assert!(!cache.contains(path1));
    assert!(cache.contains(path2));
    assert!(cache.contains(path3));
}

#[test]
fn test_lru_cache_get_updates_order() {
    let mut cache = LruCache::new(2);
    let path1 = "/test/file1.txt";
    let path2 = "/test/file2.txt";
    let path3 = "/test/file3.txt";

    cache.insert(String::from(path1), entry(path1, 1, 0));
    cache.insert(String::from(path2), entry(path2, 2, 0));

    cache.get(path1);

    cache.insert(String::from(path3), entry(path3, 3, 0));

    assert!(cache.contains(path1));
    assert!(!cache.contains(path2));
    assert!(cache.contains(path3));
}

#[test]
fn test_debouncer_basic() {
    let mut debouncer = EventDebouncer::new(100);
    let path = "/test/file.txt";
    assert!(debouncer.should_process(path, FileEventType::Modified, 0));
    assert!(!debouncer.should_process(path, FileEventType::Modified, 10));
}

#[test]
fn test_debouncer_after_delay() {
    let mut debouncer = EventDebouncer::new(50);
    let path = "/test/file.txt";
    assert!(debouncer.should_process(path, FileEventType::Modified, 0));
    assert!(debouncer.should_process(path, FileEventType::Modified, 100));
}

#[test]
fn test_cleanup_old_events() {
    let mut debouncer = EventDebouncer::new(100);
    let path = "/test/file.txt";
    debouncer.should_process(path, FileEventType::Modified, 0);
    assert_eq!(debouncer.len(), 1);
    debouncer.cleanup_old_events(100, 200);
    assert_eq!(debouncer.len(), 0);
}

#[test]
fn test_debouncer_burst_delivers_one() {
    let mut debouncer = EventDebouncer::new(500);
    let path = "/data/burst.txt";
    let mut delivered: usize = 0;
    for now in [1000u64, 1050, 1100, 1400, 1499] {
        if debouncer.should_process(path, FileEventType::Modified, now) {
            delivered += 1;
        }
    }
    assert_eq!(delivered, 1);
    // every suppressed event restarted the window, so the next delivery
    // waits for a full window after the last burst event
    assert!(!debouncer.should_process(path, FileEventType::Modified, 1998));
    assert!(debouncer.should_process(path, FileEventType::Modified, 2499));
}

#[test]
fn test_database_upsert_and_find() {
    let mut db = Database::new();
    db.insert_file(&entry("/data/a.txt", 10, 5));
    db.insert_file(&entry("/data/b.txt", 20, 6));
    assert_eq!(db.record_count(), 2);

    // an upsert on a known path replaces, never duplicates
    db.insert_file(&entry("/data/a.txt", 11, 7));
    assert_eq!(db.record_count(), 2);
    let found = db.find_by_path("/data/a.txt").unwrap();
    assert_eq!(found.size, 11);
    assert_eq!(found.modified_at, Some(7));

    db.delete_by_path("/data/a.txt");
    assert!(db.find_by_path("/data/a.txt").is_none());
}

#[test]
fn test_database_search_by_name_case_insensitive() {
    let mut db = Database::new();
    let mut e = entry("/data/Report.TXT", 10, 5);
    e.name = String::from("Report.TXT");
    db.insert_file(&e);
    let hits = db.search_by_name("report", 10);
    assert_eq!(hits.len(), 1);
}

#[test]
fn test_schema_statement_counts() {
    assert_eq!(get_all_table_creation_statements().len(), 8);
    assert_eq!(get_all_index_creation_statements().len(), 10);
}

#[test]
fn test_migration_plan() {
    assert_eq!(MigrationManager::plan_migrations(1).unwrap().len(), 0);
    assert_eq!(MigrationManager::plan_migrations(0).unwrap(), vec![1]);
    match MigrationManager::plan_migrations(2) {
        Err(SearchError::IndexCorrupted(_)) => {}
        _ => panic!("a newer persisted schema must be a corrupt index"),
    }
}
