//! The relational shape of the durable store, as DDL text: one statement
//! per table and index, for a shell that binds the index to an embedded
//! SQL engine. The logical store itself lives in `database`.
use vstd::prelude::*;

verus! {

pub const CURRENT_SCHEMA_VERSION: i32 = 1;

pub fn schema_version_table_sql() -> (r: &'static str)
    ensures
        r@ == "CREATE TABLE IF NOT EXISTS schema_version (version INTEGER PRIMARY KEY, applied_at TEXT NOT NULL)"@,
{
    "CREATE TABLE IF NOT EXISTS schema_version (version INTEGER PRIMARY KEY, applied_at TEXT NOT NULL)"
}

pub fn files_table_sql() -> (r: &'static str)
    ensures
        r@ == "CREATE TABLE IF NOT EXISTS files (id INTEGER PRIMARY KEY AUTOINCREMENT, path TEXT NOT NULL UNIQUE, name TEXT NOT NULL, extension TEXT, size INTEGER NOT NULL, created_at INTEGER, modified_at INTEGER, accessed_at INTEGER, is_directory INTEGER NOT NULL DEFAULT 0, is_hidden INTEGER NOT NULL DEFAULT 0, is_symlink INTEGER NOT NULL DEFAULT 0, parent_path TEXT, mime_type TEXT, file_hash TEXT, indexed_at INTEGER NOT NULL, last_verified INTEGER NOT NULL)"@,
{
    "CREATE TABLE IF NOT EXISTS files (id INTEGER PRIMARY KEY AUTOINCREMENT, path TEXT NOT NULL UNIQUE, name TEXT NOT NULL, extension TEXT, size INTEGER NOT NULL, created_at INTEGER, modified_at INTEGER, accessed_at INTEGER, is_directory INTEGER NOT NULL DEFAULT 0, is_hidden INTEGER NOT NULL DEFAULT 0, is_symlink INTEGER NOT NULL DEFAULT 0, parent_path TEXT, mime_type TEXT, file_hash TEXT, indexed_at INTEGER NOT NULL, last_verified INTEGER NOT NULL)"
}

pub fn file_contents_table_sql() -> (r: &'static str)
    ensures
        r@ == "CREATE TABLE IF NOT EXISTS file_contents (file_id INTEGER PRIMARY KEY, content_preview TEXT, word_count INTEGER, line_count INTEGER, encoding TEXT, FOREIGN KEY (file_id) REFERENCES files(id) ON DELETE CASCADE)"@,
{
    "CREATE TABLE IF NOT EXISTS file_contents (file_id INTEGER PRIMARY KEY, content_preview TEXT, word_count INTEGER, line_count INTEGER, encoding TEXT, FOREIGN KEY (file_id) REFERENCES files(id) ON DELETE CASCADE)"
}

pub fn exclusion_rules_table_sql() -> (r: &'static str)
    ensures
        r@ == "CREATE TABLE IF NOT EXISTS exclusion_rules (id INTEGER PRIMARY KEY AUTOINCREMENT, pattern TEXT NOT NULL, rule_type TEXT NOT NULL, created_at INTEGER NOT NULL)"@,
{
    "CREATE TABLE IF NOT EXISTS exclusion_rules (id INTEGER PRIMARY KEY AUTOINCREMENT, pattern TEXT NOT NULL, rule_type TEXT NOT NULL, created_at INTEGER NOT NULL)"
}

pub fn index_metadata_table_sql() -> (r: &'static str)
    ensures
        r@ == "CREATE TABLE IF NOT EXISTS index_metadata (key TEXT PRIMARY KEY, value TEXT NOT NULL, updated_at INTEGER NOT NULL)"@,
{
    "CREATE TABLE IF NOT EXISTS index_metadata (key TEXT PRIMARY KEY, value TEXT NOT NULL, updated_at INTEGER NOT NULL)"
}

pub fn search_history_table_sql() -> (r: &'static str)
    ensures
        r@ == "CREATE TABLE IF NOT EXISTS search_history (id INTEGER PRIMARY KEY AUTOINCREMENT, query TEXT NOT NULL, result_count INTEGER, searched_at INTEGER NOT NULL)"@,
{
    "CREATE TABLE IF NOT EXISTS search_history (id INTEGER PRIMARY KEY AUTOINCREMENT, query TEXT NOT NULL, result_count INTEGER, searched_at INTEGER NOT NULL)"
}

pub fn access_log_table_sql() -> (r: &'static str)
    ensures
        r@ == "CREATE TABLE IF NOT EXISTS access_log (file_id INTEGER NOT NULL, accessed_at INTEGER NOT NULL, FOREIGN KEY (file_id) REFERENCES files(id) ON DELETE CASCADE)"@,
{
    "CREATE TABLE IF NOT EXISTS access_log (file_id INTEGER NOT NULL, accessed_at INTEGER NOT NULL, FOREIGN KEY (file_id) REFERENCES files(id) ON DELETE CASCADE)"
}

pub fn files_fts_table_sql() -> (r: &'static str)
    ensures
        r@ == "CREATE VIRTUAL TABLE IF NOT EXISTS files_fts USING fts5(file_id, name, path, content, tokenize = 'porter unicode61')"@,
{
    "CREATE VIRTUAL TABLE IF NOT EXISTS files_fts USING fts5(file_id, name, path, content, tokenize = 'porter unicode61')"
}

/// The eight table-creation statements, dependency order first.
pub fn get_all_table_creation_statements() -> (r: Vec<&'static str>)
    ensures
        r@.len() == 8,
        r@[0]@ == schema_version_table_sql_view(),
        r@[1]@ == files_table_sql_view(),
{
    let mut r: Vec<&'static str> = Vec::new();
    r.push(schema_version_table_sql());
    r.push(files_table_sql());
    r.push(file_contents_table_sql());
    r.push(exclusion_rules_table_sql());
    r.push(index_metadata_table_sql());
    r.push(search_history_table_sql());
    r.push(access_log_table_sql());
    r.push(files_fts_table_sql());
    r
}

pub open spec fn schema_version_table_sql_view() -> Seq<char> {
    "CREATE TABLE IF NOT EXISTS schema_version (version INTEGER PRIMARY KEY, applied_at TEXT NOT NULL)"@
}

pub open spec fn files_table_sql_view() -> Seq<char> {
    "CREATE TABLE IF NOT EXISTS files (id INTEGER PRIMARY KEY AUTOINCREMENT, path TEXT NOT NULL UNIQUE, name TEXT NOT NULL, extension TEXT, size INTEGER NOT NULL, created_at INTEGER, modified_at INTEGER, accessed_at INTEGER, is_directory INTEGER NOT NULL DEFAULT 0, is_hidden INTEGER NOT NULL DEFAULT 0, is_symlink INTEGER NOT NULL DEFAULT 0, parent_path TEXT, mime_type TEXT, file_hash TEXT, indexed_at INTEGER NOT NULL, last_verified INTEGER NOT NULL)"@
}

/// The ten index-creation statements.
pub fn get_all_index_creation_statements() -> (r: Vec<&'static str>)
    ensures
        r@.len() == 10,
{
    let mut r: Vec<&'static str> = Vec::new();
    r.push("CREATE INDEX IF NOT EXISTS idx_files_name ON files(name COLLATE NOCASE)");
    r.push("CREATE INDEX IF NOT EXISTS idx_files_extension ON files(extension)");
    r.push("CREATE INDEX IF NOT EXISTS idx_files_path ON files(path)");
    r.push("CREATE INDEX IF NOT EXISTS idx_files_parent_path ON files(parent_path)");
    r.push("CREATE INDEX IF NOT EXISTS idx_files_modified_at ON files(modified_at)");
    r.push("CREATE INDEX IF NOT EXISTS idx_files_size ON files(size)");
    r.push("CREATE INDEX IF NOT EXISTS idx_files_is_directory ON files(is_directory)");
    r.push("CREATE INDEX IF NOT EXISTS idx_files_file_hash ON files(file_hash)");
    r.push("CREATE INDEX IF NOT EXISTS idx_access_log_file_id ON access_log(file_id)");
    r.push("CREATE INDEX IF NOT EXISTS idx_access_log_accessed_at ON access_log(accessed_at)");
    r
}

pub struct MigrationManager;

impl MigrationManager {
    /// The migration rule at open: versions below the current one are
    /// migrated in order; a version above it is a corrupt index; the
    /// current one needs nothing.
    pub fn plan_migrations(persisted: i32) -> (r: Result<Vec<i32>, crate::error::SearchError>)
        ensures
            match r {
                Ok(steps) => persisted <= CURRENT_SCHEMA_VERSION && steps@.len()
                    == CURRENT_SCHEMA_VERSION - persisted && forall|k: int|
                    0 <= k < steps@.len() ==> steps@[k] == persisted + 1 + k,
                Err(e) => persisted > CURRENT_SCHEMA_VERSION && e is IndexCorrupted,
            },
    {
        if persisted > CURRENT_SCHEMA_VERSION {
            return Err(
                crate::error::SearchError::IndexCorrupted(
                    String::from_str("schema version is newer than supported"),
                ),
            );
        }
        let mut steps: Vec<i32> = Vec::new();
        let mut v: i32 = persisted;
        while v < CURRENT_SCHEMA_VERSION
            invariant
                persisted <= v <= CURRENT_SCHEMA_VERSION,
                steps@.len() == v - persisted,
                forall|k: int| 0 <= k < steps@.len() ==> steps@[k] == persisted + 1 + k,
            decreases CURRENT_SCHEMA_VERSION - v,
    {
            steps.push(v + 1);
            v = v + 1;
        }
        Ok(steps)
    }

    /// Does a persisted version match the supported one exactly?
    pub fn verify_schema(persisted: i32) -> (r: bool)
        ensures
            r == (persisted == CURRENT_SCHEMA_VERSION),
    {
        persisted == CURRENT_SCHEMA_VERSION
    }
}

} // verus!
