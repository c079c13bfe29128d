//! The recorded history entry and the filter that selects entries.
use vstd::prelude::*;

verus! {

/// One recorded command execution.
#[derive(Debug, Clone)]
pub struct History {
    /// Unique identifier of the entry.
    pub id: String,
    /// Start of the execution, in nanoseconds since the Unix epoch.
    pub timestamp: i64,
    /// Duration of the execution, in nanoseconds.
    pub duration: i64,
    /// Exit code of the command.
    pub exit: i32,
    /// The command text.
    pub command: String,
    /// Working directory of the execution.
    pub cwd: String,
    /// Terminal session that ran the command.
    pub session: String,
    /// Machine that ran the command.
    pub hostname: String,
    /// When the entry was soft-deleted, if it was.
    pub deleted_at: Option<i64>,
}

/// Which entries a search selects, and which page of them.
#[derive(Debug, Clone)]
pub struct SearchFilter {
    /// Substring that the command must contain.
    pub query: Option<String>,
    /// Working directory that the entry must have.
    pub cwd: Option<String>,
    /// Session that the entry must have (kept for callers; not applied).
    pub session: Option<String>,
    /// Host name that the entry must have.
    pub hostname: Option<String>,
    /// Exit code that the entry must have.
    pub exit: Option<i32>,
    /// Largest number of entries returned.
    pub limit: usize,
    /// Number of matching entries skipped before the page starts.
    pub offset: usize,
}

impl SearchFilter {
    /// A filter without conditions, which returns the first `limit`
    /// entries.
    pub open spec fn unfiltered(self, limit: usize) -> bool {
        &&& self.query is None
        &&& self.cwd is None
        &&& self.session is None
        &&& self.hostname is None
        &&& self.exit is None
        &&& self.limit == limit
        &&& self.offset == 0
    }

    /// A filter without conditions that returns at most `limit` entries.
    pub fn new(limit: usize) -> (f: SearchFilter)
        ensures
            f.unfiltered(limit),
    {
        SearchFilter {
            query: None,
            cwd: None,
            session: None,
            hostname: None,
            exit: None,
            limit,
            offset: 0,
        }
    }
}

impl Default for SearchFilter {
    /// A filter without conditions and with a limit of zero.
    fn default() -> (f: SearchFilter)
        ensures
            f.unfiltered(0),
    {
        SearchFilter::new(0)
    }
}

} // verus!
