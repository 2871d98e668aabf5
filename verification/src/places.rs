//! Where the entries of a list stand that are told apart by a number.

use std::collections::HashMap;
use vstd::prelude::*;
use vstd::std_specs::hash::group_hash_axioms;

verus! {

/// The places of the numbers of a list in which none occurs twice.
#[derive(Debug)]
pub struct Places {
    at: HashMap<i64, usize>,
}

impl Places {
    /// These are the places of the numbers of `ids`.
    pub closed spec fn of(&self, ids: Seq<i64>) -> bool {
        &&& forall|i: int|
            0 <= i < ids.len() ==> self.at@.contains_key(#[trigger] ids[i]) && self.at@[ids[i]] == i
        &&& forall|id: i64| #[trigger]
            self.at@.contains_key(id) ==> self.at@[id] < ids.len() && ids[self.at@[id] as int] == id
    }

    /// The places of an empty list.
    pub fn new() -> (r: Places)
        ensures
            r.of(Seq::empty()),
    {
        broadcast use group_hash_axioms;

        Places { at: HashMap::new() }
    }

    /// The place of `id`, if the list holds it.
    pub fn find(&self, id: i64) -> (r: Option<usize>)
        ensures
            forall|ids: Seq<i64>| #[trigger]
                self.of(ids) ==> match r {
                    Some(at) => at < ids.len() && ids[at as int] == id,
                    None => !ids.contains(id),
                },
    {
        broadcast use group_hash_axioms;

        let r = match self.at.get(&id) {
            Some(at) => Some(*at),
            None => None,
        };
        proof {
            assert forall|ids: Seq<i64>| #[trigger] self.of(ids) implies match r {
                Some(at) => at < ids.len() && ids[at as int] == id,
                None => !ids.contains(id),
            } by {
                if r is Some {
                    assert(self.at@.contains_key(id));
                }
            }
        }
        r
    }

    /// Notes that `id`, which the list did not hold, was added at its end.
    pub fn add(&mut self, id: i64, len: usize)
        ensures
            forall|ids: Seq<i64>| #[trigger]
                old(self).of(ids) && ids.len() == len && !ids.contains(id) ==> final(self).of(
                    ids.push(id),
                ),
    {
        broadcast use group_hash_axioms;

        let ghost before = self.at@;
        self.at.insert(id, len);
        proof {
            assert forall|ids: Seq<i64>| #[trigger]
                old(self).of(ids) && ids.len() == len && !ids.contains(id) implies self.of(
                ids.push(id),
            ) by {
                let more = ids.push(id);
                assert forall|i: int| 0 <= i < more.len() implies self.at@.contains_key(
                    #[trigger] more[i],
                ) && self.at@[more[i]] == i by {
                    if i < ids.len() {
                        assert(more[i] == ids[i]);
                        assert(ids.contains(ids[i]));
                    }
                }
                assert forall|k: i64| #[trigger] self.at@.contains_key(k) implies self.at@[k]
                    < more.len() && more[self.at@[k] as int] == k by {
                    if k != id {
                        assert(before.contains_key(k));
                    }
                }
            }
        }
    }
}

} // verus!
