//! One poll cycle: scan the fetched activity of every watched account,
//! notify each commit not yet seen, then advance the durable state.
//!
//! A cycle snapshots the checkpoint and the seen-set, walks the fetched
//! batches in order, accumulates the identifiers it notified, and only at the
//! end — and only when something new was found — merges them into the
//! seen-set, advances the checkpoint to the cycle's start time, and asks the
//! caller to persist. Deduplication consults the seen-set and the cycle-local
//! accumulator, never timestamps.

use vstd::prelude::*;
use crate::commit::{Commit, format_notification, spec_notification};
use crate::config::Config;
use crate::seen::{SeenSet, id_set, ids_contain};

verus! {

/// One repository's fetched commits, attributed to the mentor of the account
/// the repository belongs to.
pub struct FetchBatch {
    pub mentor: String,
    pub commits: Vec<Commit>,
}

/// The identifiers of a sequence of notified (mentor, commit) pairs.
pub open spec fn pair_ids(ps: Seq<(Seq<char>, Commit)>) -> Seq<Seq<char>> {
    ps.map_values(|p: (Seq<char>, Commit)| p.1.id@)
}

/// The same identifiers as a set.
pub open spec fn pair_id_set(ps: Seq<(Seq<char>, Commit)>) -> Set<Seq<char>> {
    pair_ids(ps).to_set()
}

/// The (mentor, commit) pairs notified for one batch: the commits of `cs`, in
/// order, whose identifier is neither in `seen` nor on an earlier commit of
/// the same batch.
pub open spec fn spec_batch_new(mentor: Seq<char>, cs: Seq<Commit>, seen: Set<Seq<char>>) -> Seq<
    (Seq<char>, Commit),
>
    decreases cs.len(),
{
    if cs.len() == 0 {
        Seq::empty()
    } else if seen.contains(cs[0].id@) {
        spec_batch_new(mentor, cs.drop_first(), seen)
    } else {
        seq![(mentor, cs[0])] + spec_batch_new(mentor, cs.drop_first(), seen.insert(cs[0].id@))
    }
}

/// The pairs notified for a whole cycle: each batch is filtered against the
/// seen-set joined with everything notified earlier in the same cycle.
pub open spec fn spec_cycle_new(batches: Seq<FetchBatch>, seen: Set<Seq<char>>) -> Seq<
    (Seq<char>, Commit),
>
    decreases batches.len(),
{
    if batches.len() == 0 {
        Seq::empty()
    } else {
        let first = spec_batch_new(batches[0].mentor@, batches[0].commits@, seen);
        first + spec_cycle_new(batches.drop_first(), seen.union(pair_id_set(first)))
    }
}

/// The pairs notified over a sequence of cycles: each cycle starts from the
/// seen-set the previous cycle left.
pub open spec fn spec_cycles_new(cycles: Seq<Seq<FetchBatch>>, seen: Set<Seq<char>>) -> Seq<
    (Seq<char>, Commit),
>
    decreases cycles.len(),
{
    if cycles.len() == 0 {
        Seq::empty()
    } else {
        let first = spec_cycle_new(cycles[0], seen);
        first + spec_cycles_new(cycles.drop_first(), seen.union(pair_id_set(first)))
    }
}

proof fn lemma_to_set_push<A>(s: Seq<A>, a: A)
    ensures
        s.push(a).to_set() == s.to_set().insert(a),
{
    assert forall|x: A| s.push(a).to_set().contains(x) implies s.to_set().insert(a).contains(
        x,
    ) by {
        let k = choose|k: int| 0 <= k < s.push(a).len() && #[trigger] s.push(a)[k] == x;
        if k < s.len() {
            assert(s[k] == x);
        }
    };
    assert forall|x: A| s.to_set().insert(a).contains(x) implies s.push(a).to_set().contains(
        x,
    ) by {
        if x == a {
            assert(s.push(a)[s.len() as int] == x);
        } else {
            let k = choose|k: int| 0 <= k < s.len() && #[trigger] s[k] == x;
            assert(s.push(a)[k] == x);
        }
    };
    assert(s.push(a).to_set() =~= s.to_set().insert(a));
}

proof fn lemma_to_set_concat<A>(a: Seq<A>, b: Seq<A>)
    ensures
        (a + b).to_set() == a.to_set().union(b.to_set()),
{
    assert forall|x: A| (a + b).to_set().contains(x) implies a.to_set().union(b.to_set()).contains(
        x,
    ) by {
        let k = choose|k: int| 0 <= k < (a + b).len() && #[trigger] (a + b)[k] == x;
        if k < a.len() {
            assert(a[k] == x);
        } else {
            assert(b[k - a.len()] == x);
        }
    };
    assert forall|x: A| a.to_set().union(b.to_set()).contains(x) implies (a + b).to_set().contains(
        x,
    ) by {
        if a.to_set().contains(x) {
            let k = choose|k: int| 0 <= k < a.len() && #[trigger] a[k] == x;
            assert((a + b)[k] == x);
        } else {
            let k = choose|k: int| 0 <= k < b.len() && #[trigger] b[k] == x;
            assert((a + b)[a.len() + k] == x);
        }
    };
    assert((a + b).to_set() =~= a.to_set().union(b.to_set()));
}

proof fn lemma_id_set_as_to_set(ids: Seq<String>)
    ensures
        id_set(ids) == ids.map_values(|s: String| s@).to_set(),
{
    let m = ids.map_values(|s: String| s@);
    assert forall|x: Seq<char>| id_set(ids).contains(x) implies m.to_set().contains(x) by {
        let k = choose|k: int| 0 <= k < ids.len() && #[trigger] ids[k]@ == x;
        assert(m[k] == x);
    };
    assert forall|x: Seq<char>| m.to_set().contains(x) implies id_set(ids).contains(x) by {
        let k = choose|k: int| 0 <= k < m.len() && #[trigger] m[k] == x;
        assert(ids[k]@ == x);
    };
    assert(id_set(ids) =~= m.to_set());
}

/// The running state of one poll cycle: the time the cycle started — the
/// checkpoint candidate — and the identifiers notified so far in this cycle.
pub struct CycleRun {
    started_at: i64,
    new_ids: Vec<String>,
}

impl CycleRun {
    /// The time the cycle started, captured before any fetching; the
    /// checkpoint never advances past it.
    pub closed spec fn spec_started_at(&self) -> i64 {
        self.started_at
    }

    /// The identifiers notified so far, oldest first.
    pub closed spec fn new_ids_seq(&self) -> Seq<Seq<char>> {
        self.new_ids@.map_values(|s: String| s@)
    }

    /// The same identifiers as a set.
    pub open spec fn new_id_set(&self) -> Set<Seq<char>> {
        self.new_ids_seq().to_set()
    }

    /// Internal well-formedness: no identifier is accumulated twice.
    pub closed spec fn wf(&self) -> bool {
        forall|i: int, j: int| 0 <= i < j < self.new_ids@.len() ==> self.new_ids@[i]@
            != self.new_ids@[j]@
    }

    /// Starts a cycle at time `now`.
    pub fn new(now: i64) -> (r: Self)
        ensures
            r.wf(),
            r.spec_started_at() == now,
            r.new_ids_seq() == Seq::<Seq<char>>::empty(),
    {
        let r = CycleRun { started_at: now, new_ids: Vec::new() };
        proof {
            assert(r.new_ids_seq() =~= Seq::<Seq<char>>::empty());
        }
        r
    }

    /// Scans one batch: returns the notification texts to send, in batch
    /// order, for exactly the commits that are new — neither already seen
    /// before the cycle nor already notified during it — and accumulates
    /// their identifiers.
    pub fn process(&mut self, seen: &SeenSet, mentor: &String, commits: &Vec<Commit>) -> (msgs: Vec<
        String,
    >)
        requires
            old(self).wf(),
        ensures
            final(self).wf(),
            final(self).spec_started_at() == old(self).spec_started_at(),
            ({
                let pairs = spec_batch_new(mentor@, commits@, seen@.union(old(self).new_id_set()));
                &&& final(self).new_ids_seq() == old(self).new_ids_seq() + pair_ids(pairs)
                &&& msgs@.len() == pairs.len()
                &&& forall|k: int|
                    0 <= k < pairs.len() ==> msgs@[k]@ == spec_notification(
                        pairs[k].0,
                        pairs[k].1.author_date@,
                        pairs[k].1.author_name@,
                        pairs[k].1.message@,
                        pairs[k].1.url@,
                    )
            }),
    {
        let mut msgs: Vec<String> = Vec::new();
        let ghost s0 = seen@.union(old(self).new_id_set());
        let ghost mut emitted: Seq<(Seq<char>, Commit)> = Seq::empty();
        let mut i: usize = 0;
        proof {
            assert(commits@.skip(0) =~= commits@);
            assert(pair_ids(emitted) =~= Seq::<Seq<char>>::empty());
            assert(pair_id_set(emitted) =~= Set::<Seq<char>>::empty());
            assert(s0.union(pair_id_set(emitted)) =~= s0);
            assert(emitted + spec_batch_new(mentor@, commits@, s0) =~= spec_batch_new(
                mentor@,
                commits@,
                s0,
            ));
            assert(self.new_ids_seq() =~= old(self).new_ids_seq() + pair_ids(emitted));
        }
        while i < commits.len()
            invariant
                0 <= i <= commits@.len(),
                self.wf(),
                self.spec_started_at() == old(self).spec_started_at(),
                s0 == seen@.union(old(self).new_id_set()),
                spec_batch_new(mentor@, commits@, s0) == emitted + spec_batch_new(
                    mentor@,
                    commits@.skip(i as int),
                    s0.union(pair_id_set(emitted)),
                ),
                self.new_ids_seq() == old(self).new_ids_seq() + pair_ids(emitted),
                self.new_id_set() == old(self).new_id_set().union(pair_id_set(emitted)),
                msgs@.len() == emitted.len(),
                forall|k: int|
                    0 <= k < emitted.len() ==> msgs@[k]@ == spec_notification(
                        emitted[k].0,
                        emitted[k].1.author_date@,
                        emitted[k].1.author_name@,
                        emitted[k].1.message@,
                        emitted[k].1.url@,
                    ),
            decreases commits@.len() - i,
        {
            let ghost rest = commits@.skip(i as int);
            let ghost cur_seen = s0.union(pair_id_set(emitted));
            proof {
                assert(rest[0] == commits@[i as int]);
                assert(rest.drop_first() =~= commits@.skip(i + 1));
            }
            let c = &commits[i];
            let in_seen = seen.contains(&c.id);
            let in_acc = ids_contain(&self.new_ids, &c.id);
            proof {
                lemma_id_set_as_to_set(self.new_ids@);
                assert(in_acc == self.new_id_set().contains(c.id@));
            }
            if in_seen || in_acc {
                proof {
                    assert(cur_seen.contains(commits@[i as int].id@));
                    assert(spec_batch_new(mentor@, rest, cur_seen) == spec_batch_new(
                        mentor@,
                        commits@.skip(i + 1),
                        cur_seen,
                    ));
                }
            } else {
                let ghost prev = *self;
                let ghost p = (mentor@, commits@[i as int]);
                let msg = format_notification(mentor, c);
                msgs.push(msg);
                self.new_ids.push(c.id.clone());
                proof {
                    assert(!cur_seen.contains(commits@[i as int].id@));
                    assert(spec_batch_new(mentor@, rest, cur_seen) == seq![p] + spec_batch_new(
                        mentor@,
                        commits@.skip(i + 1),
                        cur_seen.insert(commits@[i as int].id@),
                    ));
                    // The accumulator after the push.
                    assert(self.new_ids@ =~= prev.new_ids@.push(commits@[i as int].id));
                    assert(self.new_ids_seq() =~= prev.new_ids_seq().push(commits@[i as int].id@));
                    lemma_to_set_push(prev.new_ids_seq(), commits@[i as int].id@);
                    // The emitted pairs after this step.
                    assert(pair_ids(emitted.push(p)) =~= pair_ids(emitted).push(p.1.id@));
                    lemma_to_set_push(pair_ids(emitted), p.1.id@);
                    assert(pair_id_set(emitted.push(p)) == pair_id_set(emitted).insert(p.1.id@));
                    assert(cur_seen.insert(commits@[i as int].id@) =~= s0.union(
                        pair_id_set(emitted.push(p)),
                    ));
                    assert(emitted + (seq![p] + spec_batch_new(
                        mentor@,
                        commits@.skip(i + 1),
                        cur_seen.insert(commits@[i as int].id@),
                    )) =~= emitted.push(p) + spec_batch_new(
                        mentor@,
                        commits@.skip(i + 1),
                        cur_seen.insert(commits@[i as int].id@),
                    ));
                    assert(self.new_ids_seq() =~= old(self).new_ids_seq() + pair_ids(
                        emitted.push(p),
                    ));
                    assert(self.new_id_set() =~= old(self).new_id_set().union(
                        pair_id_set(emitted.push(p)),
                    ));
                    // Well-formedness: the pushed identifier is not yet there.
                    assert forall|k: int, l: int|
                        0 <= k < l < self.new_ids@.len() implies self.new_ids@[k]@
                        != self.new_ids@[l]@ by {
                        if l == prev.new_ids@.len() {
                            assert(prev.new_ids_seq()[k] == prev.new_ids@[k]@);
                        }
                    };
                    emitted = emitted.push(p);
                }
            }
            i = i + 1;
        }
        proof {
            assert(commits@.skip(commits@.len() as int) =~= Seq::<Commit>::empty());
            assert(emitted + spec_batch_new(
                mentor@,
                commits@.skip(commits@.len() as int),
                s0.union(pair_id_set(emitted)),
            ) =~= emitted);
        }
        msgs
    }

    /// The commit step of a cycle, run after every batch was scanned and its
    /// notifications were attempted.
    ///
    /// When the cycle notified nothing, the state does not change at all and
    /// the caller is told not to persist: a cycle with zero new commits
    /// performs zero writes to the store. Otherwise the notified identifiers
    /// are merged into the seen-set — which only grows — and the checkpoint
    /// advances to the cycle's start time; it never decreases, and it never
    /// advances past the start time.
    pub fn commit(&self, config: &mut Config) -> (must_persist: bool)
        requires
            old(config).wf(),
        ensures
            final(config).wf(),
            must_persist == (self.new_ids_seq().len() != 0),
            self.new_ids_seq().len() == 0 ==> *final(config) == *old(config),
            self.new_ids_seq().len() != 0 ==> ({
                &&& final(config).seen_commit_hashes@ == old(config).seen_commit_hashes@.union(
                    self.new_id_set(),
                )
                &&& final(config).last_checked == (if self.spec_started_at() > old(
                    config,
                ).last_checked {
                    self.spec_started_at()
                } else {
                    old(config).last_checked
                })
                &&& final(config).bot_token == old(config).bot_token
                &&& final(config).github_token == old(config).github_token
                &&& final(config).report_channel_ID == old(config).report_channel_ID
                &&& final(config).mentees == old(config).mentees
            }),
            final(config).last_checked >= old(config).last_checked,
            final(config).last_checked <= old(config).last_checked || final(config).last_checked
                <= self.spec_started_at(),
    {
        if self.new_ids.len() == 0 {
            return false;
        }
        config.seen_commit_hashes.insert_all(&self.new_ids);
        if self.started_at > config.last_checked {
            config.last_checked = self.started_at;
        }
        proof {
            lemma_id_set_as_to_set(self.new_ids@);
        }
        true
    }
}

/// What one full scan produced: the cycle state to commit, and the
/// notification texts, one per new commit, in scan order.
pub struct CycleReport {
    pub run: CycleRun,
    pub notifications: Vec<String>,
}

/// One full scan over the fetched batches of a cycle that started at `now`:
/// every commit not yet seen is turned into a notification exactly once, and
/// its identifier is accumulated in the returned cycle state. The caller
/// sends the notifications, then commits the cycle state to the
/// configuration.
pub fn git_check(config: &Config, batches: &Vec<FetchBatch>, now: i64) -> (r: CycleReport)
    ensures
        r.run.wf(),
        r.run.spec_started_at() == now,
        ({
            let pairs = spec_cycle_new(batches@, config.seen_commit_hashes@);
            &&& r.run.new_ids_seq() == pair_ids(pairs)
            &&& r.notifications@.len() == pairs.len()
            &&& forall|k: int|
                0 <= k < pairs.len() ==> r.notifications@[k]@ == spec_notification(
                    pairs[k].0,
                    pairs[k].1.author_date@,
                    pairs[k].1.author_name@,
                    pairs[k].1.message@,
                    pairs[k].1.url@,
                )
        }),
{
    let mut run = CycleRun::new(now);
    let mut notifications: Vec<String> = Vec::new();
    let ghost s0 = config.seen_commit_hashes@;
    let ghost mut emitted: Seq<(Seq<char>, Commit)> = Seq::empty();
    let mut b: usize = 0;
    proof {
        assert(batches@.skip(0) =~= batches@);
        assert(pair_ids(emitted) =~= Seq::<Seq<char>>::empty());
        assert(pair_id_set(emitted) =~= Set::<Seq<char>>::empty());
        assert(s0.union(pair_id_set(emitted)) =~= s0);
        assert(emitted + spec_cycle_new(batches@, s0) =~= spec_cycle_new(batches@, s0));
    }
    while b < batches.len()
        invariant
            0 <= b <= batches@.len(),
            run.wf(),
            run.spec_started_at() == now,
            s0 == config.seen_commit_hashes@,
            spec_cycle_new(batches@, s0) == emitted + spec_cycle_new(
                batches@.skip(b as int),
                s0.union(pair_id_set(emitted)),
            ),
            run.new_ids_seq() == pair_ids(emitted),
            notifications@.len() == emitted.len(),
            forall|k: int|
                0 <= k < emitted.len() ==> notifications@[k]@ == spec_notification(
                    emitted[k].0,
                    emitted[k].1.author_date@,
                    emitted[k].1.author_name@,
                    emitted[k].1.message@,
                    emitted[k].1.url@,
                ),
        decreases batches@.len() - b,
    {
        let ghost rest = batches@.skip(b as int);
        let ghost prev_emitted = emitted;
        let ghost prev_notifications = notifications@;
        let ghost prev_run = run;
        proof {
            assert(rest[0] == batches@[b as int]);
            assert(rest.drop_first() =~= batches@.skip(b + 1));
        }
        let batch = &batches[b];
        let mut msgs = run.process(&config.seen_commit_hashes, &batch.mentor, &batch.commits);
        notifications.append(&mut msgs);
        proof {
            assert(prev_run.new_id_set() == pair_id_set(prev_emitted));
            let cur_seen = s0.union(pair_id_set(prev_emitted));
            let pairs = spec_batch_new(batch.mentor@, batch.commits@, cur_seen);
            assert(spec_cycle_new(rest, cur_seen) == pairs + spec_cycle_new(
                rest.drop_first(),
                cur_seen.union(pair_id_set(pairs)),
            ));
            emitted = prev_emitted + pairs;
            assert(pair_ids(emitted) =~= pair_ids(prev_emitted) + pair_ids(pairs));
            lemma_to_set_concat(pair_ids(prev_emitted), pair_ids(pairs));
            assert(pair_id_set(emitted) == pair_id_set(prev_emitted).union(pair_id_set(pairs)));
            assert(s0.union(pair_id_set(emitted)) =~= cur_seen.union(pair_id_set(pairs)));
            assert(prev_emitted + (pairs + spec_cycle_new(
                batches@.skip(b + 1),
                cur_seen.union(pair_id_set(pairs)),
            )) =~= emitted + spec_cycle_new(
                batches@.skip(b + 1),
                cur_seen.union(pair_id_set(pairs)),
            ));
            assert(run.new_ids_seq() =~= pair_ids(emitted));
            assert forall|k: int|
                0 <= k < emitted.len() implies notifications@[k]@ == spec_notification(
                emitted[k].0,
                emitted[k].1.author_date@,
                emitted[k].1.author_name@,
                emitted[k].1.message@,
                emitted[k].1.url@,
            ) by {
                if k < prev_emitted.len() {
                    assert(notifications@[k] == prev_notifications[k]);
                    assert(emitted[k] == prev_emitted[k]);
                } else {
                    assert(emitted[k] == pairs[k - prev_emitted.len()]);
                }
            };
        }
        b = b + 1;
    }
    proof {
        assert(batches@.skip(batches@.len() as int) =~= Seq::<FetchBatch>::empty());
        assert(emitted + spec_cycle_new(
            batches@.skip(batches@.len() as int),
            s0.union(pair_id_set(emitted)),
        ) =~= emitted);
    }
    CycleReport { run, notifications }
}

/// Within one batch no commit identifier is notified twice, and nothing
/// already seen is notified.
pub proof fn lemma_batch_new_distinct(mentor: Seq<char>, cs: Seq<Commit>, seen: Set<Seq<char>>)
    ensures
        ({
            let ps = spec_batch_new(mentor, cs, seen);
            &&& forall|k: int| 0 <= k < ps.len() ==> !seen.contains(#[trigger] ps[k].1.id@)
            &&& forall|k: int, l: int|
                0 <= k < l < ps.len() ==> #[trigger] ps[k].1.id@ != #[trigger] ps[l].1.id@
        }),
    decreases cs.len(),
{
    let ps = spec_batch_new(mentor, cs, seen);
    if cs.len() == 0 {
        assert(ps.len() == 0);
    } else if seen.contains(cs[0].id@) {
        lemma_batch_new_distinct(mentor, cs.drop_first(), seen);
        assert(ps == spec_batch_new(mentor, cs.drop_first(), seen));
        assert(forall|k: int| 0 <= k < ps.len() ==> !seen.contains(#[trigger] ps[k].1.id@));
        assert(forall|k: int, l: int|
            0 <= k < l < ps.len() ==> #[trigger] ps[k].1.id@ != #[trigger] ps[l].1.id@);
    } else {
        let id = cs[0].id@;
        let rest = spec_batch_new(mentor, cs.drop_first(), seen.insert(id));
        lemma_batch_new_distinct(mentor, cs.drop_first(), seen.insert(id));
        assert(ps == seq![(mentor, cs[0])] + rest);
        assert forall|k: int| 0 <= k < ps.len() implies !seen.contains(#[trigger] ps[k].1.id@) by {
            if k > 0 {
                assert(ps[k] == rest[k - 1]);
                assert(!seen.insert(id).contains(rest[k - 1].1.id@));
            } else {
                assert(ps[k] == (mentor, cs[0]));
            }
        };
        assert forall|k: int, l: int|
            0 <= k < l < ps.len() implies #[trigger] ps[k].1.id@ != #[trigger] ps[l].1.id@ by {
            assert(ps[l] == rest[l - 1]);
            if k == 0 {
                assert(ps[k] == (mentor, cs[0]));
                assert(!seen.insert(id).contains(rest[l - 1].1.id@));
                assert(seen.insert(id).contains(id));
            } else {
                assert(ps[k] == rest[k - 1]);
            }
        };
    }
}

/// Within one whole cycle no commit identifier is notified twice, and
/// nothing already seen when the cycle started is notified.
pub proof fn lemma_cycle_new_distinct(batches: Seq<FetchBatch>, seen: Set<Seq<char>>)
    ensures
        ({
            let ps = spec_cycle_new(batches, seen);
            &&& forall|k: int| 0 <= k < ps.len() ==> !seen.contains(#[trigger] ps[k].1.id@)
            &&& forall|k: int, l: int|
                0 <= k < l < ps.len() ==> #[trigger] ps[k].1.id@ != #[trigger] ps[l].1.id@
        }),
    decreases batches.len(),
{
    let ps = spec_cycle_new(batches, seen);
    if batches.len() == 0 {
    } else {
        let first = spec_batch_new(batches[0].mentor@, batches[0].commits@, seen);
        let s1 = seen.union(pair_id_set(first));
        let rest = spec_cycle_new(batches.drop_first(), s1);
        lemma_batch_new_distinct(batches[0].mentor@, batches[0].commits@, seen);
        lemma_cycle_new_distinct(batches.drop_first(), s1);
        assert(ps == first + rest);
        assert forall|k: int| 0 <= k < first.len() implies s1.contains(
            #[trigger] first[k].1.id@,
        ) by {
            assert(pair_ids(first)[k] == first[k].1.id@);
            assert(pair_ids(first).to_set().contains(first[k].1.id@));
        };
        assert forall|k: int| 0 <= k < ps.len() implies !seen.contains(#[trigger] ps[k].1.id@) by {
            if k < first.len() {
                assert(ps[k] == first[k]);
            } else {
                assert(ps[k] == rest[k - first.len()]);
                assert(!s1.contains(rest[k - first.len()].1.id@));
            }
        };
        assert forall|k: int, l: int|
            0 <= k < l < ps.len() implies #[trigger] ps[k].1.id@ != #[trigger] ps[l].1.id@ by {
            if l < first.len() {
                assert(ps[k] == first[k]);
                assert(ps[l] == first[l]);
            } else if k >= first.len() {
                assert(ps[k] == rest[k - first.len()]);
                assert(ps[l] == rest[l - first.len()]);
            } else {
                assert(ps[k] == first[k]);
                assert(ps[l] == rest[l - first.len()]);
                assert(s1.contains(first[k].1.id@));
                assert(!s1.contains(rest[l - first.len()].1.id@));
            }
        };
    }
}

/// No duplicate notification, over any sequence of poll cycles: when each
/// cycle starts from the seen-set the previous cycle left — whether the
/// process kept running or was restarted and reloaded that exact state from
/// storage — no commit identifier is ever notified twice, and none that the
/// first cycle already found recorded as seen is notified at all.
pub proof fn lemma_no_duplicate_notification(cycles: Seq<Seq<FetchBatch>>, seen: Set<Seq<char>>)
    ensures
        ({
            let ps = spec_cycles_new(cycles, seen);
            &&& forall|k: int| 0 <= k < ps.len() ==> !seen.contains(#[trigger] ps[k].1.id@)
            &&& forall|k: int, l: int|
                0 <= k < l < ps.len() ==> #[trigger] ps[k].1.id@ != #[trigger] ps[l].1.id@
        }),
    decreases cycles.len(),
{
    let ps = spec_cycles_new(cycles, seen);
    if cycles.len() == 0 {
    } else {
        let first = spec_cycle_new(cycles[0], seen);
        let s1 = seen.union(pair_id_set(first));
        let rest = spec_cycles_new(cycles.drop_first(), s1);
        lemma_cycle_new_distinct(cycles[0], seen);
        lemma_no_duplicate_notification(cycles.drop_first(), s1);
        assert(ps == first + rest);
        assert forall|k: int| 0 <= k < first.len() implies s1.contains(
            #[trigger] first[k].1.id@,
        ) by {
            assert(pair_ids(first)[k] == first[k].1.id@);
            assert(pair_ids(first).to_set().contains(first[k].1.id@));
        };
        assert forall|k: int| 0 <= k < ps.len() implies !seen.contains(#[trigger] ps[k].1.id@) by {
            if k < first.len() {
                assert(ps[k] == first[k]);
            } else {
                assert(ps[k] == rest[k - first.len()]);
                assert(!s1.contains(rest[k - first.len()].1.id@));
            }
        };
        assert forall|k: int, l: int|
            0 <= k < l < ps.len() implies #[trigger] ps[k].1.id@ != #[trigger] ps[l].1.id@ by {
            if l < first.len() {
                assert(ps[k] == first[k]);
                assert(ps[l] == first[l]);
            } else if k >= first.len() {
                assert(ps[k] == rest[k - first.len()]);
                assert(ps[l] == rest[l - first.len()]);
            } else {
                assert(ps[k] == first[k]);
                assert(ps[l] == rest[l - first.len()]);
                assert(s1.contains(first[k].1.id@));
                assert(!s1.contains(rest[l - first.len()].1.id@));
            }
        };
    }
}

proof fn lemma_batch_new_ignores_absent(
    mentor: Seq<char>,
    cs: Seq<Commit>,
    seen: Set<Seq<char>>,
    extra: Set<Seq<char>>,
)
    requires
        forall|k: int| 0 <= k < cs.len() ==> !extra.contains(#[trigger] cs[k].id@),
    ensures
        spec_batch_new(mentor, cs, seen.union(extra)) == spec_batch_new(mentor, cs, seen),
    decreases cs.len(),
{
    if cs.len() == 0 {
    } else {
        let id = cs[0].id@;
        assert(!extra.contains(id));
        assert forall|k: int| 0 <= k < cs.drop_first().len() implies !extra.contains(
            #[trigger] cs.drop_first()[k].id@,
        ) by {
            assert(cs.drop_first()[k] == cs[k + 1]);
        };
        if seen.contains(id) {
            lemma_batch_new_ignores_absent(mentor, cs.drop_first(), seen, extra);
        } else {
            assert(!seen.union(extra).contains(id));
            assert(seen.union(extra).insert(id) =~= seen.insert(id).union(extra));
            lemma_batch_new_ignores_absent(mentor, cs.drop_first(), seen.insert(id), extra);
        }
    }
}

/// On a batch without repeated identifiers — a commit's content hash is
/// unique within its repository — the cycle notifies exactly the commits the
/// dedup filter calls new, in their order, each attributed to the batch's
/// mentor.
pub proof fn lemma_batch_new_matches_filter(
    mentor: Seq<char>,
    cs: Seq<Commit>,
    seen: Set<Seq<char>>,
)
    requires
        forall|i: int, j: int| 0 <= i < j < cs.len() ==> #[trigger] cs[i].id@ != #[trigger] cs[j].id@,
    ensures
        ({
            let ps = spec_batch_new(mentor, cs, seen);
            let ns = crate::dedup::spec_new_commits(cs, seen);
            &&& ps.len() == ns.len()
            &&& forall|k: int| 0 <= k < ps.len() ==> #[trigger] ps[k] == (mentor, ns[k])
        }),
    decreases cs.len(),
{
    let ps = spec_batch_new(mentor, cs, seen);
    let ns = crate::dedup::spec_new_commits(cs, seen);
    if cs.len() == 0 {
    } else {
        let id = cs[0].id@;
        let tail = cs.drop_first();
        assert forall|i: int, j: int| 0 <= i < j < tail.len() implies #[trigger] tail[i].id@
            != #[trigger] tail[j].id@ by {
            assert(tail[i] == cs[i + 1]);
            assert(tail[j] == cs[j + 1]);
        };
        if seen.contains(id) {
            lemma_batch_new_matches_filter(mentor, tail, seen);
        } else {
            assert forall|k: int| 0 <= k < tail.len() implies !set![id].contains(
                #[trigger] tail[k].id@,
            ) by {
                assert(tail[k] == cs[k + 1]);
            };
            assert(seen.insert(id) =~= seen.union(set![id]));
            lemma_batch_new_ignores_absent(mentor, tail, seen, set![id]);
            assert(spec_batch_new(mentor, tail, seen.insert(id)) == spec_batch_new(
                mentor,
                tail,
                seen,
            ));
            lemma_batch_new_matches_filter(mentor, tail, seen);
            let pt = spec_batch_new(mentor, tail, seen);
            let nt = crate::dedup::spec_new_commits(tail, seen);
            assert(ps == seq![(mentor, cs[0])] + pt);
            assert(ns == seq![cs[0]] + nt);
            assert forall|k: int| 0 <= k < ps.len() implies #[trigger] ps[k] == (
                mentor,
                ns[k],
            ) by {
                if k > 0 {
                    assert(ps[k] == pt[k - 1]);
                    assert(ns[k] == nt[k - 1]);
                } else {
                    assert(ps[0] == (mentor, cs[0]));
                    assert(ns[0] == cs[0]);
                }
            };
        }
    }
}

/// Crash-safety: what a cycle notifies is a function of the seen-set value
/// and the fetched batches alone. A process killed right after a save and
/// restarted with the persisted document holds the exact seen-set the live
/// process held, so the next cycle notifies exactly what an uninterrupted
/// run would have notified — and nothing the persisted seen-set already
/// records.
pub proof fn lemma_restart_reproduces_dedup(
    batches: Seq<FetchBatch>,
    seen_live: Set<Seq<char>>,
    seen_reloaded: Set<Seq<char>>,
)
    requires
        seen_reloaded == seen_live,
    ensures
        spec_cycle_new(batches, seen_reloaded) == spec_cycle_new(batches, seen_live),
        ({
            let ps = spec_cycle_new(batches, seen_reloaded);
            forall|k: int| 0 <= k < ps.len() ==> !seen_reloaded.contains(#[trigger] ps[k].1.id@)
        }),
{
    lemma_cycle_new_distinct(batches, seen_reloaded);
}

} // verus!
