//! A local file-search engine core: directory walking with cycle detection,
//! incremental index maintenance, a small query language, matchers, and a
//! multi-factor ranker, all specified and verified with Verus.
#![verifier::loop_isolation(false)]

pub mod bloom;
pub mod cache;
pub mod config;
pub mod content;
pub mod database;
pub mod date;
pub mod debounce;
pub mod encoding;
pub mod engine;
pub mod error;
pub mod exclusion;
pub mod executor;
pub mod extension;
pub mod fuzzy;
pub mod hash;
pub mod incremental;
pub mod matcher;
pub mod metadata;
pub mod mime;
pub mod path_utils;
pub mod query;
pub mod ranker;
pub mod schema;
pub mod server;
pub mod size;
pub mod text;
pub mod types;
pub mod walker;
pub mod watch;
