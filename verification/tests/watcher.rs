use mentee_watch::commit::Commit;
use mentee_watch::config::{Config, Mentee};
use mentee_watch::cycle::{git_check, CycleRun, FetchBatch};
use mentee_watch::dedup::filter;
use mentee_watch::fetch::repo_needs_scan;
use mentee_watch::poll::PollGuard;
use mentee_watch::seen::SeenSet;

fn commit(id: &str, date: &str, author: &str, message: &str, url: &str) -> Commit {
    Commit {
        id: id.to_string(),
        author_name: author.to_string(),
        author_date: date.to_string(),
        message: message.to_string(),
        url: url.to_string(),
    }
}

fn base_config(last_checked: i64) -> Config {
    Config {
        bot_token: "bot-token".to_string(),
        github_token: "api-token".to_string(),
        report_channel_ID: 42,
        last_checked,
        mentees: vec![Mentee {
            mentor: "alice".to_string(),
            discord_username: "mentee#1".to_string(),
            git_username: "mentee".to_string(),
        }],
        seen_commit_hashes: SeenSet::new(),
    }
}

#[test]
fn seen_set_grows_and_answers_membership() {
    let mut seen = SeenSet::new();
    let a = "a1".to_string();
    assert!(!seen.contains(&a));
    seen.insert(a.clone());
    assert!(seen.contains(&a));
    seen.insert(a.clone());
    // Recording twice leaves a single copy in the persisted list.
    assert_eq!(seen.to_ids().len(), 1);
}

#[test]
fn seen_set_reload_drops_duplicates() {
    let ids = vec!["x".to_string(), "y".to_string(), "x".to_string()];
    let seen = SeenSet::from_ids(&ids);
    assert!(seen.contains(&"x".to_string()));
    assert!(seen.contains(&"y".to_string()));
    assert_eq!(seen.to_ids().len(), 2);
}

#[test]
fn repo_filter_skips_repos_at_or_before_checkpoint() {
    // A repository whose last-modified time is at or before the checkpoint
    // is never queried for commits; an unknown time is skipped too.
    assert!(!repo_needs_scan(&Some(99), 100));
    assert!(!repo_needs_scan(&Some(100), 100));
    assert!(repo_needs_scan(&Some(101), 100));
    assert!(!repo_needs_scan(&None, 100));
}

#[test]
fn dedup_filter_partitions_by_seen_membership() {
    let mut seen = SeenSet::new();
    seen.insert("b1".to_string());
    let commits = vec![
        commit("a1", "d", "au", "m", "u"),
        commit("b1", "d", "au", "m", "u"),
        commit("c1", "d", "au", "m", "u"),
    ];
    let (new, ids) = filter(&commits, &seen);
    assert_eq!(new.len(), 2);
    assert_eq!(new[0].id, "a1");
    assert_eq!(new[1].id, "c1");
    assert_eq!(ids, vec!["a1".to_string(), "c1".to_string()]);
}

#[test]
fn dedup_filter_reports_each_identifier_once() {
    let seen = SeenSet::new();
    let commits = vec![commit("a1", "d", "au", "m", "u"), commit("a1", "d", "au", "m", "u")];
    let (new, ids) = filter(&commits, &seen);
    // Both occurrences are new with respect to the seen-set, but the
    // identifier list to record holds the identifier once.
    assert_eq!(new.len(), 2);
    assert_eq!(ids, vec!["a1".to_string()]);
}

#[test]
fn commit_from_fetched_substitutes_placeholder_author() {
    let c = Commit::from_fetched(
        "sha".to_string(),
        None,
        None,
        "msg".to_string(),
        "url".to_string(),
    );
    assert_eq!(c.author_name, "unknown");
    assert_eq!(c.author_date, "unknown");
    let d = Commit::from_fetched(
        "sha".to_string(),
        Some("bob".to_string()),
        Some("2024-01-02".to_string()),
        "msg".to_string(),
        "url".to_string(),
    );
    assert_eq!(d.author_name, "bob");
    assert_eq!(d.author_date, "2024-01-02");
}

#[test]
fn notification_text_is_exact() {
    let c = commit("b1", "2024-01-02", "bob", "fix parser", "http://x/b1");
    let mentor = "alice".to_string();
    let msg = mentee_watch::commit::format_notification(&mentor, &c);
    assert_eq!(
        msg,
        "alice | Date: 2024-01-02 Author: bob Commit message: fix parser <http://x/b1>"
    );
}

#[test]
fn scenario_one_cycle_notifies_exactly_the_new_commits() {
    // One mentee, one repository holding commits A (older than the
    // checkpoint), B and C (new), and an empty seen-set. The fetch lists
    // commits strictly since the checkpoint, so A never even reaches the
    // cycle; the cycle must notify exactly B and C, record exactly their
    // identifiers, and advance the checkpoint.
    let mut config = base_config(100);
    let repo_updated_at = Some(150);
    assert!(repo_needs_scan(&repo_updated_at, config.last_checked));
    let fetched_since_checkpoint = vec![
        commit("B", "2024-01-02", "bob", "b work", "http://x/B"),
        commit("C", "2024-01-03", "bob", "c work", "http://x/C"),
    ];
    let batches = vec![FetchBatch {
        mentor: "alice".to_string(),
        commits: fetched_since_checkpoint,
    }];
    let report = git_check(&config, &batches, 150);
    assert_eq!(report.notifications.len(), 2);
    assert_eq!(
        report.notifications[0],
        "alice | Date: 2024-01-02 Author: bob Commit message: b work <http://x/B>"
    );
    assert_eq!(
        report.notifications[1],
        "alice | Date: 2024-01-03 Author: bob Commit message: c work <http://x/C>"
    );
    let persisted = report.run.commit(&mut config);
    assert!(persisted);
    assert!(config.seen_commit_hashes.contains(&"B".to_string()));
    assert!(config.seen_commit_hashes.contains(&"C".to_string()));
    assert!(!config.seen_commit_hashes.contains(&"A".to_string()));
    assert_eq!(config.seen_commit_hashes.to_ids().len(), 2);
    assert_eq!(config.last_checked, 150);
}

#[test]
fn second_cycle_never_repeats_a_notification() {
    // The same fetch result scanned again in a later cycle produces no
    // notification: each distinct commit identifier is notified at most once
    // across cycles.
    let mut config = base_config(100);
    let batches = vec![FetchBatch {
        mentor: "alice".to_string(),
        commits: vec![
            commit("B", "d", "bob", "m", "u1"),
            commit("C", "d", "bob", "m", "u2"),
        ],
    }];
    let first = git_check(&config, &batches, 150);
    assert_eq!(first.notifications.len(), 2);
    first.run.commit(&mut config);
    let second = git_check(&config, &batches, 200);
    assert_eq!(second.notifications.len(), 0);
    let persisted = second.run.commit(&mut config);
    assert!(!persisted);
}

#[test]
fn duplicate_identifier_across_batches_is_notified_once() {
    // The same commit identifier surfacing in two repositories of one cycle
    // is notified only on its first appearance.
    let config = base_config(0);
    let batches = vec![
        FetchBatch {
            mentor: "alice".to_string(),
            commits: vec![commit("X", "d", "bob", "m", "u")],
        },
        FetchBatch {
            mentor: "zoe".to_string(),
            commits: vec![commit("X", "d", "bob", "m", "u")],
        },
    ];
    let report = git_check(&config, &batches, 10);
    assert_eq!(report.notifications.len(), 1);
    assert!(report.notifications[0].starts_with("alice |"));
}

#[test]
fn empty_cycle_keeps_state_and_skips_persisting() {
    // A cycle that found nothing new performs zero writes: the commit step
    // reports nothing to persist, the checkpoint stays, the seen-set stays.
    let mut config = base_config(100);
    config.seen_commit_hashes.insert("old".to_string());
    let run = CycleRun::new(150);
    let persisted = run.commit(&mut config);
    assert!(!persisted);
    assert_eq!(config.last_checked, 100);
    assert_eq!(config.seen_commit_hashes.to_ids().len(), 1);
}

#[test]
fn checkpoint_is_monotone_and_never_passes_cycle_start() {
    // A cycle that starts before the stored checkpoint (a clock that went
    // backwards) must not move the checkpoint backwards either.
    let mut config = base_config(500);
    let batches = vec![FetchBatch {
        mentor: "alice".to_string(),
        commits: vec![commit("N", "d", "bob", "m", "u")],
    }];
    let report = git_check(&config, &batches, 400);
    let persisted = report.run.commit(&mut config);
    assert!(persisted);
    assert_eq!(config.last_checked, 500);

    // With a later start time the checkpoint advances exactly to the cycle
    // start, not past it.
    let batches2 = vec![FetchBatch {
        mentor: "alice".to_string(),
        commits: vec![commit("M", "d", "bob", "m", "u")],
    }];
    let report2 = git_check(&config, &batches2, 600);
    report2.run.commit(&mut config);
    assert_eq!(config.last_checked, 600);
}

#[test]
fn restart_from_persisted_state_reproduces_dedup() {
    // Run a cycle, persist (here: snapshot the stored document's fields),
    // simulate a crash and a restart that reloads the document, and scan the
    // same activity again: nothing is re-notified and no checkpoint progress
    // is lost, exactly as in an uninterrupted run.
    let mut live = base_config(100);
    let batches = vec![FetchBatch {
        mentor: "alice".to_string(),
        commits: vec![
            commit("B", "d", "bob", "m", "u1"),
            commit("C", "d", "bob", "m", "u2"),
        ],
    }];
    let report = git_check(&live, &batches, 150);
    report.run.commit(&mut live);

    // The persisted document: checkpoint and seen identifiers.
    let stored_checkpoint = live.last_checked;
    let stored_ids = live.seen_commit_hashes.to_ids().clone();

    // The restarted process reloads the same values.
    let mut reloaded = base_config(stored_checkpoint);
    reloaded.seen_commit_hashes = SeenSet::from_ids(&stored_ids);
    assert_eq!(reloaded.last_checked, 150);

    let after_restart = git_check(&reloaded, &batches, 200);
    assert_eq!(after_restart.notifications.len(), 0);

    // The uninterrupted run behaves identically.
    let uninterrupted = git_check(&live, &batches, 200);
    assert_eq!(uninterrupted.notifications.len(), 0);
}

#[test]
fn second_poll_loop_instance_is_refused() {
    // Starting a second poll loop while one is active must leave a single
    // active instance.
    let mut guard = PollGuard::new();
    assert!(guard.try_start());
    assert!(!guard.try_start());
    assert!(!guard.try_start());
}
