//! The durable watcher state: credentials, destination, checkpoint, watched
//! accounts, and the record of commits already notified.

use vstd::prelude::*;
use crate::seen::SeenSet;

verus! {

/// One watched account: the git account to poll and the people to attribute
/// and notify. Replaced wholesale on a configuration reload, never edited.
pub struct Mentee {
    pub mentor: String,
    pub discord_username: String,
    pub git_username: String,
}

impl Clone for Mentee {
    fn clone(&self) -> (m: Self)
        ensures
            m == *self,
    {
        Mentee {
            mentor: self.mentor.clone(),
            discord_username: self.discord_username.clone(),
            git_username: self.git_username.clone(),
        }
    }
}

/// The whole watcher state, the unit that is loaded at startup, mutated only
/// at the end of a successful poll cycle, and persisted after every mutation.
///
/// `last_checked` is the checkpoint: the timestamp, in seconds, below which
/// history counts as fully scanned. It never decreases. `seen_commit_hashes`
/// is the record of commit identifiers already notified; it only grows.
#[allow(non_snake_case)]
pub struct Config {
    pub bot_token: String,
    pub github_token: String,
    pub report_channel_ID: u64,
    pub last_checked: i64,
    pub mentees: Vec<Mentee>,
    pub seen_commit_hashes: SeenSet,
}

impl Config {
    /// Well-formedness of the state: the seen-set holds no identifier twice.
    pub open spec fn wf(&self) -> bool {
        self.seen_commit_hashes.wf()
    }
}

} // verus!
