//! Tables of values by the id of a state.

use crate::bucket::{as_map, distinct_keys, key_at, lemma_entry, Bucket};
use crate::kind::{eq_decides, StateId};
use std::collections::HashMap;
use vstd::prelude::*;

verus! {

/// A table of values by id.
///
/// The table is hashed by the number of an id; ids of one number and several kinds share a
/// bucket. Its view maps each id to its value.
pub struct IdMap<K, V> {
    buckets: HashMap<u128, Bucket<K, V>>,
}

impl<K, V> View for IdMap<K, V> {
    type V = Map<StateId<K>, V>;

    closed spec fn view(&self) -> Map<StateId<K>, V> {
        Map::new(
            |id: StateId<K>|
                self.buckets@.contains_key(id.uuid) && self.buckets@[id.uuid]@.contains_key(id.kind),
            |id: StateId<K>| self.buckets@[id.uuid]@[id.kind],
        )
    }
}

impl<K: Copy + Eq, V> IdMap<K, V> {
    /// Every bucket is well-formed.
    pub closed spec fn wf(self) -> bool {
        forall|uuid: u128| #[trigger]
            self.buckets@.contains_key(uuid) ==> self.buckets@[uuid].wf()
    }

    /// An empty table.
    pub fn new() -> (map: Self)
        ensures
            map.wf(),
            map@ == Map::<StateId<K>, V>::empty(),
    {
        let map = IdMap { buckets: HashMap::new() };
        assert(map@ =~= Map::<StateId<K>, V>::empty());
        map
    }

    /// Maps `id` to `value`, and gives back what it was mapped to before.
    pub fn insert(&mut self, id: StateId<K>, value: V) -> (previous: Option<V>)
        requires
            eq_decides::<K>(),
            old(self).wf(),
        ensures
            final(self).wf(),
            final(self)@ == old(self)@.insert(id, value),
            match previous {
                Some(v) => old(self)@.contains_key(id) && v == old(self)@[id],
                None => !old(self)@.contains_key(id),
            },
    {
        let mut bucket = match self.buckets.remove(&id.uuid) {
            Some(bucket) => bucket,
            None => Bucket::new(),
        };
        let previous = bucket.insert(id.kind, value);
        self.buckets.insert(id.uuid, bucket);
        assert(self@ =~= old(self)@.insert(id, value));
        previous
    }

    /// Takes `id` out, and gives back what it was mapped to.
    pub fn remove(&mut self, id: StateId<K>) -> (previous: Option<V>)
        requires
            eq_decides::<K>(),
            old(self).wf(),
        ensures
            final(self).wf(),
            final(self)@ == old(self)@.remove(id),
            match previous {
                Some(v) => old(self)@.contains_key(id) && v == old(self)@[id],
                None => !old(self)@.contains_key(id),
            },
    {
        match self.buckets.remove(&id.uuid) {
            Some(mut bucket) => {
                let ghost before = bucket@;
                let previous = bucket.remove(id.kind);
                if !bucket.is_empty() {
                    self.buckets.insert(id.uuid, bucket);
                } else {
                    assert(forall|kind: K|
                        before.contains_key(kind) && kind != id.kind ==> bucket@.dom().contains(kind));
                }
                assert(self@ =~= old(self)@.remove(id));
                previous
            },
            None => {
                assert(self@ =~= old(self)@.remove(id));
                None
            },
        }
    }

    /// The ids of the table, each once, in no particular order.
    pub fn ids(&self) -> (ids: Vec<StateId<K>>)
        requires
            self.wf(),
        ensures
            ids@.no_duplicates(),
            forall|id: StateId<K>| #[trigger] ids@.contains(id) <==> self@.contains_key(id),
    {
        let mut ids: Vec<StateId<K>> = Vec::new();
        for (uuid, bucket) in it: self.buckets.iter()
            invariant
                self.wf(),
                it.seq().no_duplicates(),
                vstd::std_specs::iter::IteratorSpec::remaining(&self.buckets.iter()) == it.seq(),
                ids@.no_duplicates(),
                forall|id: StateId<K>| #[trigger]
                    ids@.contains(id) <==> self@.contains_key(id) && seen(it.seq(), it.index(), id.uuid),
        {
            let ghost n = it.index();
            let ghost before = ids@;
            assert(it.seq()[n] == (uuid, bucket));
            assert(self.buckets@.contains_key(*uuid) && self.buckets@[*uuid] == *bucket);
            assert(!seen(it.seq(), n, *uuid));
            proof {
                bucket.lemma_list();
            }
            let mut i: usize = 0;
            while i < bucket.len()
                invariant
                    i <= bucket.list().len(),
                    distinct_keys(bucket.list()),
                    forall|id: StateId<K>| #[trigger] before.contains(id) ==> id.uuid != *uuid,
                    ids@.no_duplicates(),
                    ids@.len() == before.len() + i,
                    before =~= ids@.take(before.len() as int),
                    forall|m: int| before.len() <= m < ids@.len() ==> #[trigger] ids@[m] == (
                    StateId { kind: bucket.list()[m - before.len()].0, uuid: *uuid }),
                decreases bucket.list().len() - i,
            {
                let id = StateId { kind: bucket.key(i), uuid: *uuid };
                assert(!ids@.contains(id)) by {
                    if ids@.contains(id) {
                        let m = choose|m: int| 0 <= m < ids@.len() && ids@[m] == id;
                        if m < before.len() {
                            assert(before[m] == id);
                            assert(before.contains(id));
                        } else {
                            assert(bucket.list()[m - before.len()].0 == bucket.list()[i as int].0);
                        }
                    }
                }
                ids.push(id);
                i = i + 1;
            }
            proof {
                assert forall|id: StateId<K>| #[trigger] ids@.contains(id) <==> before.contains(id)
                    || id.uuid == *uuid && bucket@.contains_key(id.kind) by {
                    if ids@.contains(id) {
                        let m = choose|m: int| 0 <= m < ids@.len() && ids@[m] == id;
                        if m < before.len() {
                            assert(before[m] == id);
                        } else {
                            lemma_entry(bucket.list(), m - before.len());
                        }
                    }
                    if before.contains(id) {
                        let m = choose|m: int| 0 <= m < before.len() && before[m] == id;
                        assert(ids@[m] == id);
                    }
                    if id.uuid == *uuid && bucket@.contains_key(id.kind) {
                        let m = choose|m: int| key_at(bucket.list(), id.kind, m);
                        assert(as_map(bucket.list()).contains_key(id.kind));
                        assert(ids@[before.len() + m] == id);
                    }
                }
                assert forall|u: u128| seen(it.seq(), n + 1, u) <==> seen(it.seq(), n, u) || u
                    == *uuid by {
                    if u == *uuid {
                        assert(*it.seq()[n].0 == u);
                    }
                }
            }
        }
        proof {
            let walk = vstd::std_specs::iter::IteratorSpec::remaining(&self.buckets.iter());
            assert forall|id: StateId<K>| self@.contains_key(id) implies #[trigger] seen(
                walk,
                walk.len() as int,
                id.uuid,
            ) by {
                let i = choose|i: int|
                    0 <= i < walk.len() && walk[i] == (&id.uuid, &self.buckets@[id.uuid]);
                assert(*walk[i].0 == id.uuid);
            }
        }
        ids
    }
}

/// Whether one of the first `n` entries of a walk is that of number `uuid`.
spec fn seen<K, V>(walk: Seq<(&u128, &Bucket<K, V>)>, n: int, uuid: u128) -> bool {
    exists|i: int| 0 <= i < n && *(#[trigger] walk[i]).0 == uuid
}

} // verus!
