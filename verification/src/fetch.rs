//! Repository-level filtering for the incremental fetch.
//!
//! Before asking the hosting API for the commits of a repository, the watcher
//! checks the repository's last-modified time against the checkpoint: a
//! repository untouched since the last successful scan cannot contain new
//! commits and is skipped. The hosting API reports no last-modified time for
//! some repositories; such a repository is skipped as well, exactly as the
//! comparison `None > Some(_)` would decide.

use vstd::prelude::*;

verus! {

/// True exactly when a repository last modified at `updated_at` can contain
/// commits newer than the checkpoint `last_checked`, that is, when its
/// last-modified time is known and lies strictly after the checkpoint.
pub open spec fn spec_repo_needs_scan(updated_at: Option<i64>, last_checked: i64) -> bool {
    match updated_at {
        Some(t) => t > last_checked,
        None => false,
    }
}

/// Decides whether a repository must be queried for commits in this cycle.
///
/// A repository whose last-modified time is at or before the checkpoint, or
/// unknown, is never queried.
pub fn repo_needs_scan(updated_at: &Option<i64>, last_checked: i64) -> (r: bool)
    ensures
        r == spec_repo_needs_scan(*updated_at, last_checked),
{
    match updated_at {
        Some(t) => *t > last_checked,
        None => false,
    }
}

} // verus!
