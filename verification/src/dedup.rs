//! The dedup filter: partitions fetched commits into new and already seen.

use vstd::prelude::*;
use crate::commit::Commit;
use crate::seen::{SeenSet, id_set, ids_contain};

verus! {

/// The commits of `cs`, in order, whose identifier is absent from `seen`.
/// A commit is new exactly when its identifier is not in the seen-set.
pub open spec fn spec_new_commits(cs: Seq<Commit>, seen: Set<Seq<char>>) -> Seq<Commit>
    decreases cs.len(),
{
    if cs.len() == 0 {
        Seq::empty()
    } else if seen.contains(cs[0].id@) {
        spec_new_commits(cs.drop_first(), seen)
    } else {
        seq![cs[0]] + spec_new_commits(cs.drop_first(), seen)
    }
}

/// Partitions `commits` against the seen-set: returns the new commits, in
/// their fetched order, together with the identifiers to record after the
/// new commits were notified. The identifier list holds the identifier of
/// every new commit exactly once.
///
/// Pure: neither the commits nor the seen-set change; the caller merges the
/// identifiers into the seen-set only after delivery was attempted, so that
/// no commit is ever marked seen without a notification attempt.
pub fn filter(commits: &Vec<Commit>, seen: &SeenSet) -> (r: (Vec<Commit>, Vec<String>))
    ensures
        r.0@ == spec_new_commits(commits@, seen@),
        id_set(r.1@) == spec_new_commits(commits@, seen@).map_values(|c: Commit| c.id@).to_set(),
        forall|i: int, j: int| 0 <= i < j < r.1@.len() ==> r.1@[i]@ != r.1@[j]@,
{
    let mut new_commits: Vec<Commit> = Vec::new();
    let mut ids_to_add: Vec<String> = Vec::new();
    let mut i: usize = 0;
    proof {
        assert(commits@.skip(0) =~= commits@);
        assert(new_commits@ + commits@ =~= commits@);
        assert(id_set(ids_to_add@) =~= new_commits@.map_values(|c: Commit| c.id@).to_set());
    }
    while i < commits.len()
        invariant
            0 <= i <= commits@.len(),
            spec_new_commits(commits@, seen@) == new_commits@ + spec_new_commits(
                commits@.skip(i as int),
                seen@,
            ),
            id_set(ids_to_add@) == new_commits@.map_values(|c: Commit| c.id@).to_set(),
            forall|k: int, l: int| 0 <= k < l < ids_to_add@.len() ==> ids_to_add@[k]@
                != ids_to_add@[l]@,
        decreases commits@.len() - i,
    {
        let ghost rest = commits@.skip(i as int);
        proof {
            assert(rest[0] == commits@[i as int]);
            assert(rest.drop_first() =~= commits@.skip(i + 1));
        }
        let c = &commits[i];
        if !seen.contains(&c.id) {
            let ghost prev_new = new_commits@;
            let ghost prev_ids = ids_to_add@;
            let ghost id = commits@[i as int].id@;
            new_commits.push(c.clone());
            let already = ids_contain(&ids_to_add, &c.id);
            if !already {
                ids_to_add.push(c.id.clone());
            }
            proof {
                assert(new_commits@ + spec_new_commits(commits@.skip(i + 1), seen@) =~= prev_new
                    + seq![commits@[i as int]] + spec_new_commits(commits@.skip(i + 1), seen@));
                let pm = prev_new.map_values(|c: Commit| c.id@);
                let nv = new_commits@.map_values(|c: Commit| c.id@);
                assert(nv =~= pm.push(id));
                assert forall|x: Seq<char>| nv.to_set().contains(x) implies pm.to_set().insert(
                    id,
                ).contains(x) by {
                    let k = choose|k: int| 0 <= k < nv.len() && #[trigger] nv[k] == x;
                    if k < pm.len() {
                        assert(pm[k] == x);
                    }
                };
                assert forall|x: Seq<char>| pm.to_set().insert(id).contains(x) implies nv.to_set()
                    .contains(x) by {
                    if x == id {
                        assert(nv[pm.len() as int] == x);
                    } else {
                        let k = choose|k: int| 0 <= k < pm.len() && #[trigger] pm[k] == x;
                        assert(nv[k] == x);
                    }
                };
                assert(nv.to_set() =~= pm.to_set().insert(id));
                if already {
                    assert(pm.to_set().contains(id));
                    assert(nv.to_set() =~= pm.to_set());
                } else {
                    assert forall|x: Seq<char>| id_set(ids_to_add@).contains(x) implies pm.to_set()
                        .insert(id).contains(x) by {
                        let k = choose|k: int|
                            0 <= k < ids_to_add@.len() && #[trigger] ids_to_add@[k]@ == x;
                        if k < prev_ids.len() {
                            assert(prev_ids[k]@ == x);
                            assert(id_set(prev_ids).contains(x));
                        }
                    };
                    assert forall|x: Seq<char>|
                        pm.to_set().insert(id).contains(x) implies id_set(ids_to_add@).contains(
                        x,
                    ) by {
                        if x == id {
                            assert(ids_to_add@[prev_ids.len() as int]@ == x);
                        } else {
                            let k = choose|k: int|
                                0 <= k < prev_ids.len() && #[trigger] prev_ids[k]@ == x;
                            assert(ids_to_add@[k]@ == x);
                        }
                    };
                    assert(id_set(ids_to_add@) =~= nv.to_set());
                    assert forall|k: int, l: int|
                        0 <= k < l < ids_to_add@.len() implies ids_to_add@[k]@
                        != ids_to_add@[l]@ by {
                        if l == prev_ids.len() {
                            assert(!id_set(prev_ids).contains(ids_to_add@[l]@));
                        }
                    };
                }
            }
        }
        i = i + 1;
    }
    proof {
        assert(commits@.skip(commits@.len() as int) =~= Seq::<Commit>::empty());
        assert(spec_new_commits(commits@, seen@) =~= new_commits@);
    }
    (new_commits, ids_to_add)
}

} // verus!
