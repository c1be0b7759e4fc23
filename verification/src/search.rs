//! Options and records of the symbol search.

use vstd::prelude::*;

verus! {

/// Options for search queries
#[derive(Debug, Clone)]
pub struct SearchOptions {
    pub limit: usize,
    pub library_filter: Option<String>,
}

impl Default for SearchOptions {
    fn default() -> (r: Self)
        ensures
            r.limit == 0,
            r.library_filter is None,
    {
        SearchOptions { limit: 0, library_filter: None }
    }
}

impl SearchOptions {
    pub fn new() -> (r: Self)
        ensures
            r.limit == 10,
            r.library_filter is None,
    {
        SearchOptions { limit: 10, library_filter: None }
    }

    pub fn with_limit(self, limit: usize) -> (r: Self)
        ensures
            r.limit == limit,
            r.library_filter == self.library_filter,
    {
        let mut s = self;
        s.limit = limit;
        s
    }

    pub fn with_library_filter(self, library: String) -> (r: Self)
        ensures
            r.limit == self.limit,
            r.library_filter == Some(library),
    {
        let mut s = self;
        s.library_filter = Some(library);
        s
    }

    /// The number of results a search returns at most: the limit, or 10 when the limit is 0.
    pub fn effective_limit(&self) -> (r: usize)
        ensures
            r == if self.limit == 0 {
                10
            } else {
                self.limit
            },
    {
        if self.limit == 0 {
            10
        } else {
            self.limit
        }
    }
}

/// Statistics about the indexing operation
#[derive(Debug, Clone, Copy, PartialEq, Eq, Structural)]
pub struct IndexStats {
    pub libraries_indexed: usize,
    pub symbols_indexed: usize,
    pub libraries_failed: usize,
    pub elapsed_ms: u64,
}

} // verus!
