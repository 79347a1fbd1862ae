//! The durable record of commit identifiers already notified.
//!
//! Membership in this set is the sole deduplication authority of the watcher:
//! timestamp comparisons elsewhere only skip work, they never decide whether a
//! commit is notified. The set only grows; an identifier, once present, is
//! never removed.

use vstd::prelude::*;

verus! {

/// The set of identifier texts held in a list of identifier strings.
pub open spec fn id_set(ids: Seq<String>) -> Set<Seq<char>> {
    Set::new(|x: Seq<char>| exists|i: int| 0 <= i < ids.len() && ids[i]@ == x)
}

/// Tracks the commit identifiers that were already notified.
pub struct SeenSet {
    ids: Vec<String>,
}

impl View for SeenSet {
    type V = Set<Seq<char>>;

    closed spec fn view(&self) -> Set<Seq<char>> {
        id_set(self.ids@)
    }
}

/// True exactly when one of the strings in `ids` has the text of `id`.
pub fn ids_contain(ids: &Vec<String>, id: &String) -> (r: bool)
    ensures
        r == id_set(ids@).contains(id@),
{
    let mut i: usize = 0;
    while i < ids.len()
        invariant
            0 <= i <= ids@.len(),
            forall|k: int| 0 <= k < i ==> ids@[k]@ != id@,
        decreases ids@.len() - i,
    {
        let s: &String = &ids[i];
        if s.eq(id) {
            assert(id_set(ids@).contains(id@)) by {
                assert(ids@[i as int]@ == id@);
            }
            return true;
        }
        i = i + 1;
    }
    false
}

impl SeenSet {
    /// Internal well-formedness: the backing list holds no identifier twice.
    pub closed spec fn wf(&self) -> bool {
        forall|i: int, j: int| 0 <= i < j < self.ids@.len() ==> self.ids@[i]@ != self.ids@[j]@
    }

    /// An empty record: nothing has been notified yet.
    pub fn new() -> (s: Self)
        ensures
            s@ == Set::<Seq<char>>::empty(),
            s.wf(),
    {
        let s = SeenSet { ids: Vec::new() };
        proof {
            assert(s@ =~= Set::<Seq<char>>::empty());
        }
        s
    }

    /// Whether `id` was already notified.
    pub fn contains(&self, id: &String) -> (r: bool)
        ensures
            r == self@.contains(id@),
    {
        ids_contain(&self.ids, id)
    }

    /// Records `id` as notified. Recording an identifier twice changes
    /// nothing: the set only grows, it never holds an identifier twice.
    pub fn insert(&mut self, id: String)
        requires
            old(self).wf(),
        ensures
            final(self).wf(),
            final(self)@ == old(self)@.insert(id@),
    {
        let ghost prev = self.ids@;
        if self.contains(&id) {
            proof {
                assert(self@ =~= old(self)@.insert(id@));
            }
        } else {
            self.ids.push(id);
            proof {
                assert(self.ids@ == prev.push(id));
                assert forall|x: Seq<char>| id_set(self.ids@).contains(x) implies id_set(
                    prev,
                ).insert(id@).contains(x) by {
                    let i = choose|i: int|
                        0 <= i < self.ids@.len() && self.ids@[i]@ == x;
                    if i < prev.len() {
                        assert(prev[i]@ == x);
                        assert(id_set(prev).contains(x));
                    } else {
                        assert(x == id@);
                    }
                };
                assert forall|x: Seq<char>| id_set(prev).insert(id@).contains(x) implies id_set(
                    self.ids@,
                ).contains(x) by {
                    if x == id@ {
                        assert(self.ids@[prev.len() as int]@ == x);
                    } else {
                        let i = choose|i: int| 0 <= i < prev.len() && prev[i]@ == x;
                        assert(self.ids@[i]@ == x);
                    }
                };
                assert(id_set(self.ids@) =~= id_set(prev).insert(id@));
                assert forall|i: int, j: int|
                    0 <= i < j < self.ids@.len() implies self.ids@[i]@ != self.ids@[j]@ by {
                    if j == prev.len() {
                        assert(!id_set(prev).contains(self.ids@[j]@));
                    }
                };
            }
        }
    }

    /// Records every identifier of `ids` as notified.
    pub fn insert_all(&mut self, ids: &Vec<String>)
        requires
            old(self).wf(),
        ensures
            final(self).wf(),
            final(self)@ == old(self)@.union(id_set(ids@)),
    {
        let mut i: usize = 0;
        while i < ids.len()
            invariant
                0 <= i <= ids@.len(),
                self.wf(),
                self@ == old(self)@.union(id_set(ids@.take(i as int))),
            decreases ids@.len() - i,
        {
            let ghost before = self@;
            let id = ids[i].clone();
            self.insert(id);
            proof {
                assert forall|x: Seq<char>| id_set(ids@.take(i + 1)).contains(x) implies id_set(
                    ids@.take(i as int),
                ).insert(ids@[i as int]@).contains(x) by {
                    let k = choose|k: int|
                        0 <= k < ids@.take(i + 1).len() && #[trigger] ids@.take(i + 1)[k]@ == x;
                    if k < i {
                        assert(ids@.take(i as int)[k]@ == x);
                        assert(id_set(ids@.take(i as int)).contains(x));
                    } else {
                        assert(x == ids@[i as int]@);
                    }
                };
                assert forall|x: Seq<char>|
                    id_set(ids@.take(i as int)).insert(ids@[i as int]@).contains(x) implies id_set(
                    ids@.take(i + 1),
                ).contains(x) by {
                    if x == ids@[i as int]@ {
                        assert(ids@.take(i + 1)[i as int]@ == x);
                    } else {
                        let k = choose|k: int|
                            0 <= k < ids@.take(i as int).len() && #[trigger] ids@.take(
                                i as int,
                            )[k]@ == x;
                        assert(ids@.take(i + 1)[k]@ == x);
                    }
                };
                assert(id_set(ids@.take(i + 1)) =~= id_set(ids@.take(i as int)).insert(
                    ids@[i as int]@,
                ));
                assert(self@ =~= old(self)@.union(id_set(ids@.take(i + 1))));
            }
            i = i + 1;
        }
        proof {
            assert(ids@.take(ids@.len() as int) =~= ids@);
            assert(self@ =~= old(self)@.union(id_set(ids@)));
        }
    }

    /// Rebuilds the record from a stored list of identifiers, dropping
    /// duplicates the list may hold.
    pub fn from_ids(ids: &Vec<String>) -> (s: Self)
        ensures
            s.wf(),
            s@ == id_set(ids@),
    {
        let mut s = SeenSet::new();
        s.insert_all(ids);
        proof {
            assert(s@ =~= id_set(ids@));
        }
        s
    }

    /// The identifiers as a list, for persisting. The list holds each
    /// identifier of the set exactly once.
    pub fn to_ids(&self) -> (r: &Vec<String>)
        ensures
            id_set(r@) == self@,
    {
        &self.ids
    }
}

} // verus!
