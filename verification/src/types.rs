//! Core data model: file entries, queries' building blocks, filters and the
//! aggregate counters. Timestamps are UNIX seconds; scores are integers in
//! thousandths so that every computation stays in exact arithmetic.
use vstd::prelude::*;

verus! {

/// How a pattern is matched against a candidate.
#[derive(Debug, Clone, Copy, PartialEq, Eq, Structural)]
pub enum MatchMode {
    Exact,
    CaseInsensitive,
    Fuzzy,
    Regex,
    Glob,
}

/// What part of a record a query inspects.
#[derive(Debug, Clone, Copy, PartialEq, Eq, Structural)]
pub enum SearchScope {
    Name,
    Path,
    Content,
    All,
}

/// A size predicate over a file's byte count.
#[derive(Debug, Clone, Copy, PartialEq, Eq, Structural)]
pub enum SizeFilter {
    Exact(u64),
    Range(u64, u64),
    GreaterThan(u64),
    LessThan(u64),
}

/// A date predicate over a file's modification time (UNIX seconds).
/// `On` means the whole UTC calendar day around the given instant.
#[derive(Debug, Clone, Copy, PartialEq, Eq, Structural)]
pub enum DateFilter {
    After(i64),
    Before(i64),
    Between(i64, i64),
    On(i64),
}

#[derive(Debug, Clone, Copy, PartialEq, Eq, Structural)]
pub enum ExclusionRuleType {
    Glob,
    Regex,
    Path,
}

/// One exclusion rule: a pattern and how it is interpreted.
#[derive(Debug, Clone)]
pub struct ExclusionRule {
    pub pattern: String,
    pub rule_type: ExclusionRuleType,
}

/// The central record: everything the index stores about one path.
#[derive(Debug, Clone)]
pub struct FileEntry {
    pub id: Option<i64>,
    pub path: String,
    pub name: String,
    pub extension: Option<String>,
    pub size: u64,
    pub created_at: Option<i64>,
    pub modified_at: Option<i64>,
    pub accessed_at: Option<i64>,
    pub is_directory: bool,
    pub is_hidden: bool,
    pub is_symlink: bool,
    pub parent_path: Option<String>,
    pub mime_type: Option<String>,
    pub file_hash: Option<String>,
    pub indexed_at: i64,
    pub last_verified: i64,
}

/// A copy of an optional string, equal to the original.
pub fn copy_opt_string(s: &Option<String>) -> (r: Option<String>)
    ensures
        r == *s,
{
    match s {
        Some(x) => Some(x.clone()),
        None => None,
    }
}

impl FileEntry {
    /// A field-for-field copy, equal to the original.
    pub fn duplicate(&self) -> (r: FileEntry)
        ensures
            r == *self,
    {
        FileEntry {
            id: self.id,
            path: self.path.clone(),
            name: self.name.clone(),
            extension: copy_opt_string(&self.extension),
            size: self.size,
            created_at: self.created_at,
            modified_at: self.modified_at,
            accessed_at: self.accessed_at,
            is_directory: self.is_directory,
            is_hidden: self.is_hidden,
            is_symlink: self.is_symlink,
            parent_path: copy_opt_string(&self.parent_path),
            mime_type: copy_opt_string(&self.mime_type),
            file_hash: copy_opt_string(&self.file_hash),
            indexed_at: self.indexed_at,
            last_verified: self.last_verified,
        }
    }
}

impl ExclusionRule {
    /// A copy equal to the original.
    pub fn duplicate(&self) -> (r: ExclusionRule)
        ensures
            r == *self,
    {
        ExclusionRule { pattern: self.pattern.clone(), rule_type: self.rule_type }
    }
}

/// A short text preview of a text file, with its counts and encoding name.
#[derive(Debug, Clone)]
pub struct ContentPreview {
    pub preview: String,
    pub word_count: usize,
    pub line_count: usize,
    pub encoding: String,
}

impl ContentPreview {
    /// A copy equal to the original.
    pub fn duplicate(&self) -> (r: ContentPreview)
        ensures
            r == *self,
    {
        ContentPreview {
            preview: self.preview.clone(),
            word_count: self.word_count,
            line_count: self.line_count,
            encoding: self.encoding.clone(),
        }
    }
}

/// Where inside a text a match was found.
#[derive(Debug, Clone)]
pub struct MatchLocation {
    pub line: usize,
    pub column: usize,
    pub length: usize,
    pub context: String,
}

/// One ranked hit. `score_milli` is the rank score in thousandths
/// (a score of 1.0 is stored as 1000).
#[derive(Debug, Clone)]
pub struct SearchResult {
    pub file: FileEntry,
    pub score_milli: u64,
    pub snippet: Option<String>,
    pub matches: Vec<MatchLocation>,
}

/// A progress report pushed to front ends; `percent` is 0 to 100.
#[derive(Debug, Clone)]
pub struct Progress {
    pub current: usize,
    pub total: usize,
    pub message: String,
    pub percent: u64,
}

impl Progress {
    pub fn new(current: usize, total: usize, message: String) -> (r: Progress)
        requires
            current <= total,
        ensures
            r.current == current,
            r.total == total,
            r.message == message,
            total > 0 ==> r.percent == current * 100 / (total as int),
            total == 0 ==> r.percent == 0,
    {
        let percent: u64 = if total > 0 {
            (((current as u128) * 100 / (total as u128)) as u64)
        } else {
            0
        };
        proof {
            if total > 0 {
                assert((current as int) * 100 / (total as int) <= 100) by (nonlinear_arith)
                    requires
                        0 < total,
                        0 <= current <= total,
                ;
            }
        }
        Progress { current, total, message, percent }
    }
}

/// Counters over the whole index.
#[derive(Debug, Clone)]
pub struct IndexStats {
    pub total_files: usize,
    pub total_directories: usize,
    pub total_size: u64,
    pub indexed_files: usize,
    pub last_update: i64,
    pub index_size: u64,
}

/// What one incremental update did.
#[derive(Debug, Clone, Default)]
pub struct UpdateStats {
    pub added: usize,
    pub updated: usize,
    pub removed: usize,
}

impl UpdateStats {
    /// Total number of changes applied.
    pub fn total(&self) -> (r: usize)
        requires
            self.added + self.updated + self.removed <= usize::MAX,
        ensures
            r == self.added + self.updated + self.removed,
    {
        self.added + self.updated + self.removed
    }
}

/// Outcome of checking the index against the filesystem.
#[derive(Debug, Clone, Default)]
pub struct VerificationStats {
    pub total_indexed: usize,
    pub valid: usize,
    pub outdated: usize,
    pub missing: usize,
}

impl VerificationStats {
    /// Percentage of records still valid; an empty index counts as fully
    /// healthy.
    pub fn health_percent(&self) -> (r: u64)
        requires
            self.valid <= self.total_indexed,
        ensures
            self.total_indexed == 0 ==> r == 100,
            self.total_indexed > 0 ==> r == self.valid * 100 / (self.total_indexed as int),
    {
        if self.total_indexed == 0 {
            100
        } else {
            proof {
                assert((self.valid as int) * 100 / (self.total_indexed as int) <= 100)
                    by (nonlinear_arith)
                    requires
                        0 < self.total_indexed,
                        0 <= self.valid <= self.total_indexed,
                ;
            }
            (((self.valid as u128) * 100 / (self.total_indexed as u128)) as u64)
        }
    }
}

} // verus!
