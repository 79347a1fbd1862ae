//! An incremental git-activity watcher.
//!
//! The library implements the fetch-diff-dedup-notify-checkpoint cycle of a
//! bot that polls git-hosting accounts for new commits and relays each new
//! commit, at most once, as a formatted notification. Network and disk I/O
//! live outside the library; the library holds the decisions: which
//! repositories need scanning, which commits are new, what each notification
//! says, and how the durable watcher state advances after a cycle.

pub mod commit;
pub mod config;
pub mod cycle;
pub mod dedup;
pub mod fetch;
pub mod link;
pub mod poll;
pub mod seen;
