//! The error taxonomy of the engine. Every fallible operation of the library
//! returns one of these kinds; the library itself never aborts.
use vstd::prelude::*;

verus! {

#[derive(Debug, Clone)]
pub enum SearchError {
    Database(String),
    Io(String),
    InvalidQuery(String),
    PathNotFound(String),
    PermissionDenied(String),
    IndexCorrupted(String),
    Configuration(String),
    Pool(String),
    Watch(String),
    Encoding(String),
    Parse(String),
    Cancelled,
    NotInitialized(String),
}

impl SearchError {
    /// A short label naming the error kind, for display layers.
    pub fn kind_name(&self) -> &'static str {
        match self {
            SearchError::Database(_) => "database error",
            SearchError::Io(_) => "i/o error",
            SearchError::InvalidQuery(_) => "invalid query",
            SearchError::PathNotFound(_) => "path not found",
            SearchError::PermissionDenied(_) => "permission denied",
            SearchError::IndexCorrupted(_) => "index corrupted",
            SearchError::Configuration(_) => "configuration error",
            SearchError::Pool(_) => "pool error",
            SearchError::Watch(_) => "watch error",
            SearchError::Encoding(_) => "encoding error",
            SearchError::Parse(_) => "parse error",
            SearchError::Cancelled => "operation cancelled",
            SearchError::NotInitialized(_) => "not initialized",
        }
    }
}

} // verus!
