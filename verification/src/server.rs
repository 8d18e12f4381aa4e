//! The HTTP surface's data shapes and the logic behind them: request and
//! response records as plain values, the request-to-query translation,
//! result conversion, and the server's counters. The transport itself is
//! the shell's.
use vstd::prelude::*;

use crate::query::Query;
use crate::types::{MatchMode, SearchResult, SizeFilter};

verus! {

#[derive(Debug, Clone, Copy, PartialEq, Eq, Structural)]
pub enum SearchMode {
    Exact,
    Fuzzy,
    Regex,
    Glob,
}

#[derive(Debug, Clone, Copy, PartialEq, Eq, Structural)]
pub enum SearchScope {
    Name,
    Path,
    Content,
    All,
}

/// The filters a search request may carry.
pub struct SearchFilters {
    pub extensions: Option<Vec<String>>,
    pub size_min: Option<u64>,
    pub size_max: Option<u64>,
    pub modified_after: Option<i64>,
    pub modified_before: Option<i64>,
    pub scope: Option<SearchScope>,
}

/// One search request.
pub struct SearchRequest {
    pub query: String,
    pub mode: SearchMode,
    pub filters: SearchFilters,
    pub limit: usize,
    pub offset: usize,
}

/// The default page size of the search endpoint.
pub fn default_limit() -> (r: usize)
    ensures
        r == 100,
{
    100
}

#[derive(Debug, Clone, Copy, PartialEq, Eq, Structural)]
pub enum FileType {
    File,
    Directory,
    Symlink,
}

/// One row of a search response.
pub struct FileResult {
    pub path: String,
    pub name: String,
    pub size: u64,
    pub modified: Option<i64>,
    pub file_type: FileType,
    pub score_milli: u64,
    pub content_preview: Option<String>,
}

pub struct IndexRequest {
    pub path: String,
    pub recursive: bool,
    pub follow_symlinks: bool,
    pub exclusions: Vec<String>,
}

#[derive(Debug, Clone, Copy, PartialEq, Eq, Structural)]
pub enum IndexStatus {
    Completed,
    Partial,
    Failed,
}

pub struct IndexResponse {
    pub indexed_count: usize,
    pub skipped_count: usize,
    pub error_count: usize,
    pub took_ms: u64,
    pub status: IndexStatus,
}

pub struct UpdateRequest {
    pub path: String,
}

pub struct UpdateResponse {
    pub added: usize,
    pub updated: usize,
    pub removed: usize,
    pub took_ms: u64,
}

pub struct WatchRequest {
    pub path: String,
    pub recursive: bool,
}

pub struct WatchResponse {
    pub watch_id: String,
    pub path: String,
    pub status: String,
}

#[derive(Debug, Clone, Copy, PartialEq, Eq, Structural)]
pub enum HealthStatus {
    Healthy,
    Degraded,
    Unhealthy,
}

pub struct HealthCheck {
    pub name: String,
    pub status: HealthStatus,
    pub message: Option<String>,
    pub response_time_ms: Option<u64>,
}

pub struct HealthResponse {
    pub status: HealthStatus,
    pub version: String,
    pub uptime_seconds: u64,
    pub checks: Vec<HealthCheck>,
}

/// The engine mode a request mode stands for.
pub open spec fn engine_mode(m: SearchMode) -> MatchMode {
    match m {
        SearchMode::Exact => MatchMode::Exact,
        SearchMode::Fuzzy => MatchMode::Fuzzy,
        SearchMode::Regex => MatchMode::Regex,
        SearchMode::Glob => MatchMode::Glob,
    }
}

/// The engine scope a request scope stands for.
pub open spec fn engine_scope(s: SearchScope) -> crate::types::SearchScope {
    match s {
        SearchScope::Name => crate::types::SearchScope::Name,
        SearchScope::Path => crate::types::SearchScope::Path,
        SearchScope::Content => crate::types::SearchScope::Content,
        SearchScope::All => crate::types::SearchScope::All,
    }
}

/// The size filter a request's bounds stand for.
pub open spec fn bounds_filter(size_min: Option<u64>, size_max: Option<u64>) -> Option<
    SizeFilter,
> {
    match (size_min, size_max) {
        (Some(lo), Some(hi)) => Some(SizeFilter::Range(lo, hi)),
        (Some(lo), None) => Some(SizeFilter::GreaterThan(lo)),
        (None, Some(hi)) => Some(SizeFilter::LessThan(hi)),
        (None, None) => None,
    }
}

/// Builds the engine query a search request denotes.
pub fn build_query(req: &SearchRequest) -> (r: Query)
    ensures
        r@.pattern == req.query@,
        r@.match_mode == engine_mode(req.mode),
        r@.scope == (match req.filters.scope {
            Some(s) => engine_scope(s),
            None => crate::types::SearchScope::Name,
        }),
        r@.size_filter == bounds_filter(req.filters.size_min, req.filters.size_max),
        r@.date_filter is None,
        r@.max_results == Some(req.limit),
        r@.extensions.len() == (match req.filters.extensions {
            Some(ref v) => v@.len(),
            None => 0,
        }),
        forall|k: int|
            0 <= k < r@.extensions.len() ==> #[trigger] r@.extensions[k] == (
            match req.filters.extensions {
                Some(ref v) => v@[k]@,
                None => Seq::<char>::empty(),
            }),
    {
        let mode = match req.mode {
            SearchMode::Exact => MatchMode::Exact,
            SearchMode::Fuzzy => MatchMode::Fuzzy,
            SearchMode::Regex => MatchMode::Regex,
            SearchMode::Glob => MatchMode::Glob,
        };
        let scope = match req.filters.scope {
            Some(SearchScope::Name) => crate::types::SearchScope::Name,
            Some(SearchScope::Path) => crate::types::SearchScope::Path,
            Some(SearchScope::Content) => crate::types::SearchScope::Content,
            Some(SearchScope::All) => crate::types::SearchScope::All,
            None => crate::types::SearchScope::Name,
        };
        let size_filter: Option<SizeFilter> = match (req.filters.size_min, req.filters.size_max) {
            (Some(lo), Some(hi)) => Some(SizeFilter::Range(lo, hi)),
            (Some(lo), None) => Some(SizeFilter::GreaterThan(lo)),
            (None, Some(hi)) => Some(SizeFilter::LessThan(hi)),
            (None, None) => None,
        };
        let extensions: Vec<String> = match &req.filters.extensions {
            Some(v) => {
                let mut out: Vec<String> = Vec::new();
                let mut i: usize = 0;
                while i < v.len()
                    invariant
                        i <= v@.len(),
                        out@.len() == i,
                        forall|k: int| 0 <= k < i ==> (#[trigger] out@[k])@ == v@[k]@,
                    decreases v.len() - i,
                {
                    out.push(v[i].clone());
                    i = i + 1;
                }
                out
            },
            None => Vec::new(),
        };
        Query {
            pattern: req.query.clone(),
            match_mode: mode,
            scope,
            size_filter,
            date_filter: None,
            extensions,
            max_results: Some(req.limit),
        }
    }

/// Converts one engine result into a response row.
pub fn convert_result(sr: &SearchResult) -> (r: FileResult)
    ensures
        r.path@ == sr.file.path@,
        r.name@ == sr.file.name@,
        r.size == sr.file.size,
        r.modified == sr.file.modified_at,
        r.score_milli == sr.score_milli,
        r.file_type == (if sr.file.is_directory {
            FileType::Directory
        } else if sr.file.is_symlink {
            FileType::Symlink
        } else {
            FileType::File
        }),
{
    FileResult {
        path: sr.file.path.clone(),
        name: sr.file.name.clone(),
        size: sr.file.size,
        modified: sr.file.modified_at,
        file_type: if sr.file.is_directory {
            FileType::Directory
        } else if sr.file.is_symlink {
            FileType::Symlink
        } else {
            FileType::File
        },
        score_milli: sr.score_milli,
        content_preview: crate::types::copy_opt_string(&sr.snippet),
    }
}

// ---------------------------------------------------------------------------
// Server configuration
// ---------------------------------------------------------------------------

pub struct ServerSettings {
    pub host: String,
    pub port: u16,
    pub workers: usize,
    pub keep_alive: u64,
    pub client_timeout: u64,
    pub enable_cors: bool,
    pub cors_origins: Vec<String>,
}

pub struct DatabaseSettings {
    pub path: String,
    pub pool_size: u32,
    pub max_connections: u32,
    pub connection_timeout: u64,
}

pub struct SecuritySettings {
    pub enable_auth: bool,
    pub jwt_secret: String,
    pub jwt_expiry: u64,
    pub api_key: Option<String>,
    pub rate_limit_per_minute: u32,
}

pub struct PerformanceSettings {
    pub max_search_results: usize,
    pub search_timeout_ms: u64,
    pub index_batch_size: usize,
    pub cache_size: usize,
    pub enable_compression: bool,
}

pub struct LoggingSettings {
    pub level: String,
    pub format: String,
    pub file: Option<String>,
}

/// The server's whole configuration; reading it from a file and from the
/// environment is the shell's work.
pub struct ServerConfig {
    pub server: ServerSettings,
    pub database: DatabaseSettings,
    pub security: SecuritySettings,
    pub performance: PerformanceSettings,
    pub logging: LoggingSettings,
}

impl ServerConfig {
    /// The documented defaults; the secret is the shell's to replace
    /// with a generated one.
    pub fn new_default(workers: usize, jwt_secret: String) -> (r: ServerConfig)
        ensures
            r.server.port == 8080,
            r.server.workers == workers,
            r.server.keep_alive == 75,
            r.server.client_timeout == 30,
            r.server.enable_cors == true,
            r.database.pool_size == 10,
            r.database.max_connections == 100,
            r.database.connection_timeout == 30,
            r.security.enable_auth == false,
            r.security.jwt_secret == jwt_secret,
            r.security.jwt_expiry == 3600,
            r.security.api_key is None,
            r.security.rate_limit_per_minute == 100,
            r.performance.max_search_results == 1000,
            r.performance.search_timeout_ms == 5000,
            r.performance.index_batch_size == 1000,
            r.performance.cache_size == 10000,
            r.performance.enable_compression == true,
            r.logging.file is None,
    {
        let mut cors_origins: Vec<String> = Vec::new();
        cors_origins.push(String::from_str("http://localhost:*"));
        ServerConfig {
            server: ServerSettings {
                host: String::from_str("127.0.0.1"),
                port: 8080,
                workers,
                keep_alive: 75,
                client_timeout: 30,
                enable_cors: true,
                cors_origins,
            },
            database: DatabaseSettings {
                path: String::from_str("./filesearch.db"),
                pool_size: 10,
                max_connections: 100,
                connection_timeout: 30,
            },
            security: SecuritySettings {
                enable_auth: false,
                jwt_secret,
                jwt_expiry: 3600,
                api_key: None,
                rate_limit_per_minute: 100,
            },
            performance: PerformanceSettings {
                max_search_results: 1000,
                search_timeout_ms: 5000,
                index_batch_size: 1000,
                cache_size: 10000,
                enable_compression: true,
            },
            logging: LoggingSettings {
                level: String::from_str("info"),
                format: String::from_str("pretty"),
                file: None,
            },
        }
    }
}

/// The server's running counters.
pub struct Metrics {
    pub total_searches: u64,
    pub total_search_time_ms: u64,
    pub cache_hits: u64,
    pub cache_misses: u64,
}

impl Metrics {
    pub fn new() -> (r: Metrics)
        ensures
            r.total_searches == 0,
            r.total_search_time_ms == 0,
            r.cache_hits == 0,
            r.cache_misses == 0,
    {
        Metrics { total_searches: 0, total_search_time_ms: 0, cache_hits: 0, cache_misses: 0 }
    }

    /// One finished search folded in; the counters saturate rather than
    /// wrap.
    pub fn record_search(&mut self, duration_ms: u64)
        ensures
            final(self).total_searches == (if old(self).total_searches < u64::MAX {
                old(self).total_searches + 1
            } else {
                old(self).total_searches as int
            }),
            final(self).total_search_time_ms == (if old(self).total_search_time_ms + duration_ms
                <= u64::MAX {
                old(self).total_search_time_ms + duration_ms
            } else {
                u64::MAX as int
            }),
            final(self).cache_hits == old(self).cache_hits,
            final(self).cache_misses == old(self).cache_misses,
    {
        if self.total_searches < u64::MAX {
            self.total_searches = self.total_searches + 1;
        }
        if self.total_search_time_ms <= u64::MAX - duration_ms {
            self.total_search_time_ms = self.total_search_time_ms + duration_ms;
        } else {
            self.total_search_time_ms = u64::MAX;
        }
    }

    /// Mean search time, in whole milliseconds; zero before any search.
    pub fn avg_search_time_ms(&self) -> (r: u64)
        ensures
            self.total_searches == 0 ==> r == 0,
            self.total_searches > 0 ==> r == self.total_search_time_ms as int
                / self.total_searches as int,
    {
        if self.total_searches == 0 {
            0
        } else {
            self.total_search_time_ms / self.total_searches
        }
    }

    /// Cache hits per thousand lookups; zero before any lookup.
    pub fn cache_hit_rate_milli(&self) -> (r: u64)
        requires
            self.cache_hits + self.cache_misses <= u64::MAX,
        ensures
            self.cache_hits + self.cache_misses == 0 ==> r == 0,
            self.cache_hits + self.cache_misses > 0 ==> r == 1000 * self.cache_hits as int / (
            self.cache_hits + self.cache_misses),
    {
        let total = self.cache_hits + self.cache_misses;
        if total == 0 {
            0
        } else {
            proof {
                assert(1000 * (self.cache_hits as int) / (total as int) <= 1000)
                    by (nonlinear_arith)
                    requires
                        0 < total <= u64::MAX,
                        0 <= self.cache_hits <= total,
                ;
                assert(1000 * (self.cache_hits as int) / (total as int) >= 0)
                    by (nonlinear_arith)
                    requires
                        0 < total,
                        0 <= self.cache_hits,
                ;
            }
            ((1000u128 * (self.cache_hits as u128) / (total as u128)) as u64)
        }
    }
}

} // verus!
