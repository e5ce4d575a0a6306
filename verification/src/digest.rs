//! The `digest` command: how its table of SQL fingerprints is sorted.

use vstd::prelude::*;
use crate::text::str_eq;

verus! {

/// The sort order of the digest table.
#[derive(Debug, Clone, Copy, PartialEq, Eq, Structural)]
pub enum SortBy {
    /// By occurrence count.
    Count,
    /// By total execution time.
    Exec,
}

impl SortBy {
    /// `count` or `exec`.
    pub fn parse(s: &str) -> (r: Option<SortBy>)
        ensures
            r == if s@ == "count"@ {
                Some(SortBy::Count)
            } else if s@ == "exec"@ {
                Some(SortBy::Exec)
            } else {
                None
            },
    {
        if str_eq(s, "count") {
            Some(SortBy::Count)
        } else if str_eq(s, "exec") {
            Some(SortBy::Exec)
        } else {
            None
        }
    }
}

} // verus!
