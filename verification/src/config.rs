//! Engine configuration. Ratios are carried as integers: the fuzzy
//! threshold in hundredths, the bloom error rate in parts per million.
use vstd::prelude::*;

verus! {

#[derive(Debug, Clone)]
pub struct SearchConfig {
    pub index_path: String,
    pub thread_count: usize,
    pub max_file_size_for_content: u64,
    pub enable_content_search: bool,
    pub enable_fuzzy_search: bool,
    /// Hundredths: 70 stands for a threshold of 0.70.
    pub fuzzy_threshold: i64,
    pub cache_size: usize,
    pub bloom_filter_capacity: usize,
    /// Parts per million: 100 stands for a rate of 0.0001.
    pub bloom_filter_error_ppm: u64,
    pub max_search_results: usize,
    pub batch_size: usize,
    pub follow_symlinks: bool,
    pub index_hidden_files: bool,
    pub exclusion_patterns: Vec<String>,
    pub watch_debounce_ms: u64,
    pub enable_access_tracking: bool,
    pub db_pool_size: u32,
}

/// The default exclusion patterns, as views.
pub open spec fn default_exclusions() -> Seq<Seq<char>> {
    seq![".git"@, "node_modules"@, "target"@, ".DS_Store"@]
}

pub open spec fn config_defaults_ok(c: SearchConfig) -> bool {
    &&& c.max_file_size_for_content == 10485760
    &&& c.enable_content_search == false
    &&& c.enable_fuzzy_search == true
    &&& c.fuzzy_threshold == 70
    &&& c.cache_size == 1000
    &&& c.bloom_filter_capacity == 10000000
    &&& c.bloom_filter_error_ppm == 100
    &&& c.max_search_results == 1000
    &&& c.batch_size == 1000
    &&& c.follow_symlinks == false
    &&& c.index_hidden_files == false
    &&& c.exclusion_patterns@.map_values(|s: String| s@) == default_exclusions()
    &&& c.watch_debounce_ms == 500
    &&& c.enable_access_tracking == true
    &&& c.db_pool_size == 10
}

impl SearchConfig {
    /// The documented defaults; `thread_count` is the caller's (normally
    /// twice the logical cores, which only the shell can ask for).
    pub fn new_default(thread_count: usize) -> (r: SearchConfig)
        ensures
            config_defaults_ok(r),
            r.thread_count == thread_count,
            r.index_path@ == "./filesearch.db"@,
    {
        let mut exclusion_patterns: Vec<String> = Vec::new();
        exclusion_patterns.push(String::from_str(".git"));
        exclusion_patterns.push(String::from_str("node_modules"));
        exclusion_patterns.push(String::from_str("target"));
        exclusion_patterns.push(String::from_str(".DS_Store"));
        proof {
            assert(exclusion_patterns@.map_values(|s: String| s@) =~= default_exclusions());
        }
        SearchConfig {
            index_path: String::from_str("./filesearch.db"),
            thread_count,
            max_file_size_for_content: 10485760,
            enable_content_search: false,
            enable_fuzzy_search: true,
            fuzzy_threshold: 70,
            cache_size: 1000,
            bloom_filter_capacity: 10000000,
            bloom_filter_error_ppm: 100,
            max_search_results: 1000,
            batch_size: 1000,
            follow_symlinks: false,
            index_hidden_files: false,
            exclusion_patterns,
            watch_debounce_ms: 500,
            enable_access_tracking: true,
            db_pool_size: 10,
        }
    }
}

/// Builds a configuration a call at a time, starting from the defaults.
pub struct SearchConfigBuilder {
    pub config: SearchConfig,
}

impl SearchConfigBuilder {
    pub fn new(thread_count: usize) -> (r: SearchConfigBuilder)
        ensures
            config_defaults_ok(r.config),
    {
        SearchConfigBuilder { config: SearchConfig::new_default(thread_count) }
    }

    pub fn index_path(self, path: String) -> (r: SearchConfigBuilder)
        ensures
            r.config == (SearchConfig { index_path: path, ..self.config }),
    {
        SearchConfigBuilder { config: SearchConfig { index_path: path, ..self.config } }
    }

    pub fn thread_count(self, count: usize) -> (r: SearchConfigBuilder)
        ensures
            r.config == (SearchConfig { thread_count: count, ..self.config }),
    {
        SearchConfigBuilder { config: SearchConfig { thread_count: count, ..self.config } }
    }

    pub fn max_file_size_for_content(self, size: u64) -> (r: SearchConfigBuilder)
        ensures
            r.config == (SearchConfig { max_file_size_for_content: size, ..self.config }),
    {
        SearchConfigBuilder {
            config: SearchConfig { max_file_size_for_content: size, ..self.config },
        }
    }

    pub fn enable_content_search(self, enable: bool) -> (r: SearchConfigBuilder)
        ensures
            r.config == (SearchConfig { enable_content_search: enable, ..self.config }),
    {
        SearchConfigBuilder {
            config: SearchConfig { enable_content_search: enable, ..self.config },
        }
    }

    pub fn enable_fuzzy_search(self, enable: bool) -> (r: SearchConfigBuilder)
        ensures
            r.config == (SearchConfig { enable_fuzzy_search: enable, ..self.config }),
    {
        SearchConfigBuilder {
            config: SearchConfig { enable_fuzzy_search: enable, ..self.config },
        }
    }

    pub fn fuzzy_threshold(self, threshold_hundredths: i64) -> (r: SearchConfigBuilder)
        ensures
            r.config == (SearchConfig { fuzzy_threshold: threshold_hundredths, ..self.config }),
    {
        SearchConfigBuilder {
            config: SearchConfig { fuzzy_threshold: threshold_hundredths, ..self.config },
        }
    }

    pub fn cache_size(self, size: usize) -> (r: SearchConfigBuilder)
        ensures
            r.config == (SearchConfig { cache_size: size, ..self.config }),
    {
        SearchConfigBuilder { config: SearchConfig { cache_size: size, ..self.config } }
    }

    pub fn max_search_results(self, max: usize) -> (r: SearchConfigBuilder)
        ensures
            r.config == (SearchConfig { max_search_results: max, ..self.config }),
    {
        SearchConfigBuilder { config: SearchConfig { max_search_results: max, ..self.config } }
    }

    pub fn batch_size(self, size: usize) -> (r: SearchConfigBuilder)
        ensures
            r.config == (SearchConfig { batch_size: size, ..self.config }),
    {
        SearchConfigBuilder { config: SearchConfig { batch_size: size, ..self.config } }
    }

    pub fn follow_symlinks(self, follow: bool) -> (r: SearchConfigBuilder)
        ensures
            r.config == (SearchConfig { follow_symlinks: follow, ..self.config }),
    {
        SearchConfigBuilder { config: SearchConfig { follow_symlinks: follow, ..self.config } }
    }

    pub fn index_hidden_files(self, index: bool) -> (r: SearchConfigBuilder)
        ensures
            r.config == (SearchConfig { index_hidden_files: index, ..self.config }),
    {
        SearchConfigBuilder { config: SearchConfig { index_hidden_files: index, ..self.config } }
    }

    pub fn exclusion_patterns(self, patterns: Vec<String>) -> (r: SearchConfigBuilder)
        ensures
            r.config == (SearchConfig { exclusion_patterns: patterns, ..self.config }),
    {
        SearchConfigBuilder {
            config: SearchConfig { exclusion_patterns: patterns, ..self.config },
        }
    }

    pub fn add_exclusion_pattern(self, pattern: String) -> (r: SearchConfigBuilder)
        ensures
            r.config.exclusion_patterns@ == self.config.exclusion_patterns@.push(pattern),
            r.config == (SearchConfig {
                exclusion_patterns: r.config.exclusion_patterns,
                ..self.config
            }),
    {
        let mut config = self.config;
        config.exclusion_patterns.push(pattern);
        SearchConfigBuilder { config }
    }

    pub fn watch_debounce_ms(self, ms: u64) -> (r: SearchConfigBuilder)
        ensures
            r.config == (SearchConfig { watch_debounce_ms: ms, ..self.config }),
    {
        SearchConfigBuilder { config: SearchConfig { watch_debounce_ms: ms, ..self.config } }
    }

    pub fn enable_access_tracking(self, enable: bool) -> (r: SearchConfigBuilder)
        ensures
            r.config == (SearchConfig { enable_access_tracking: enable, ..self.config }),
    {
        SearchConfigBuilder {
            config: SearchConfig { enable_access_tracking: enable, ..self.config },
        }
    }

    pub fn db_pool_size(self, size: u32) -> (r: SearchConfigBuilder)
        ensures
            r.config == (SearchConfig { db_pool_size: size, ..self.config }),
    {
        SearchConfigBuilder { config: SearchConfig { db_pool_size: size, ..self.config } }
    }

    pub fn build(self) -> (r: SearchConfig)
        ensures
            r == self.config,
    {
        self.config
    }
}

} // verus!
