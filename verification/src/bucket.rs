//! Short tables of values by kind.

use crate::kind::eq_decides;
use vstd::prelude::*;

verus! {

/// A table of a few values by key, searched from its start.
///
/// The view of a bucket maps each key to its value.
pub struct Bucket<K, V> {
    entries: Vec<(K, V)>,
}

/// Whether no key occurs twice.
pub open spec fn distinct_keys<K, V>(entries: Seq<(K, V)>) -> bool {
    forall|i: int, j: int|
        0 <= i < j < entries.len() ==> (#[trigger] entries[i]).0 != (#[trigger] entries[j]).0
}

/// Whether `key` stands at position `i`.
pub open spec fn key_at<K, V>(entries: Seq<(K, V)>, key: K, i: int) -> bool {
    0 <= i < entries.len() && entries[i].0 == key
}

/// What a list of entries maps each key to.
pub open spec fn as_map<K, V>(entries: Seq<(K, V)>) -> Map<K, V> {
    Map::new(
        |key: K| exists|i: int| key_at(entries, key, i),
        |key: K| entries[choose|i: int| key_at(entries, key, i)].1,
    )
}

/// An entry says what its key is mapped to.
pub proof fn lemma_entry<K, V>(entries: Seq<(K, V)>, i: int)
    requires
        distinct_keys(entries),
        0 <= i < entries.len(),
    ensures
        as_map(entries).contains_key(entries[i].0),
        as_map(entries)[entries[i].0] == entries[i].1,
{
    let key = entries[i].0;
    assert(key_at(entries, key, i));
    let j = choose|j: int| key_at(entries, key, j);
    assert(key_at(entries, key, j));
    assert(i == j);
}

impl<K, V> View for Bucket<K, V> {
    type V = Map<K, V>;

    closed spec fn view(&self) -> Map<K, V> {
        as_map(self.entries@)
    }
}

impl<K: Copy + Eq, V> Bucket<K, V> {
    /// No key occurs twice.
    pub closed spec fn wf(self) -> bool {
        distinct_keys(self.entries@)
    }

    /// The entries in the order in which their keys came in.
    pub closed spec fn list(self) -> Seq<(K, V)> {
        self.entries@
    }

    /// The list of entries holds the pairs of the table, each once.
    pub proof fn lemma_list(self)
        requires
            self.wf(),
        ensures
            distinct_keys(self.list()),
            self@ == as_map(self.list()),
    {
    }

    /// An empty table.
    pub fn new() -> (bucket: Self)
        ensures
            bucket.wf(),
            bucket@ == Map::<K, V>::empty(),
    {
        let bucket = Bucket { entries: Vec::new() };
        assert(bucket@ =~= Map::<K, V>::empty());
        bucket
    }

    /// Whether the table holds nothing.
    pub fn is_empty(&self) -> (empty: bool)
        requires
            self.wf(),
        ensures
            empty == self@.is_empty(),
    {
        proof {
            if self.entries@.len() > 0 {
                lemma_entry(self.entries@, 0);
                assert(self@.dom().contains(self.entries@[0].0));
            } else {
                assert(self@.dom() =~= Set::empty());
            }
        }
        self.entries.is_empty()
    }

    /// The number of entries.
    pub fn len(&self) -> (len: usize)
        ensures
            len == self.list().len(),
    {
        self.entries.len()
    }

    /// The key of an entry.
    pub fn key(&self, i: usize) -> (key: K)
        requires
            i < self.list().len(),
        ensures
            key == self.list()[i as int].0,
    {
        self.entries[i].0
    }

    /// Where the entry of `key` stands.
    fn position(&self, key: K) -> (position: Option<usize>)
        requires
            eq_decides::<K>(),
        ensures
            match position {
                Some(i) => key_at(self.entries@, key, i as int),
                None => !self@.contains_key(key),
            },
    {
        let mut i: usize = 0;
        while i < self.entries.len()
            invariant
                eq_decides::<K>(),
                i <= self.entries.len(),
                forall|j: int| 0 <= j < i ==> (#[trigger] self.entries@[j]).0 != key,
            decreases self.entries.len() - i,
        {
            if self.entries[i].0 == key {
                return Some(i);
            }
            i = i + 1;
        }
        None
    }

    /// What `key` is mapped to.
    pub fn get(&self, key: K) -> (value: Option<&V>)
        requires
            eq_decides::<K>(),
            self.wf(),
        ensures
            match value {
                Some(v) => self@.contains_key(key) && *v == self@[key],
                None => !self@.contains_key(key),
            },
    {
        match self.position(key) {
            Some(i) => {
                proof {
                    lemma_entry(self.entries@, i as int);
                }
                Some(&self.entries[i].1)
            },
            None => None,
        }
    }

    /// Maps `key` to `value`, and gives back what it was mapped to before.
    pub fn insert(&mut self, key: K, value: V) -> (previous: Option<V>)
        requires
            eq_decides::<K>(),
            old(self).wf(),
        ensures
            final(self).wf(),
            final(self)@ == old(self)@.insert(key, value),
            match previous {
                Some(v) => old(self)@.contains_key(key) && v == old(self)@[key],
                None => !old(self)@.contains_key(key),
            },
    {
        let previous = self.remove(key);
        let ghost before = self.entries@;
        let ghost without = self@;
        self.entries.push((key, value));
        proof {
            assert(distinct_keys(self.entries@)) by {
                assert forall|i: int, j: int| 0 <= i < j < self.entries@.len() implies (
                #[trigger] self.entries@[i]).0 != (#[trigger] self.entries@[j]).0 by {
                    if j == before.len() && before[i].0 == key {
                        lemma_entry(before, i);
                    }
                }
            }
            assert(self@ =~= without.insert(key, value)) by {
                lemma_push(before, key, value);
            }
            assert(self@ =~= old(self)@.insert(key, value));
        }
        previous
    }

    /// Takes `key` out, and gives back what it was mapped to.
    pub fn remove(&mut self, key: K) -> (previous: Option<V>)
        requires
            eq_decides::<K>(),
            old(self).wf(),
        ensures
            final(self).wf(),
            final(self)@ == old(self)@.remove(key),
            match previous {
                Some(v) => old(self)@.contains_key(key) && v == old(self)@[key],
                None => !old(self)@.contains_key(key),
            },
    {
        match self.position(key) {
            Some(i) => {
                let ghost before = self.entries@;
                proof {
                    lemma_entry(before, i as int);
                    lemma_remove(before, i as int);
                }
                let (_, value) = self.entries.remove(i);
                Some(value)
            },
            None => {
                assert(self@ =~= old(self)@.remove(key));
                None
            },
        }
    }
}

/// A new entry adds its key.
proof fn lemma_push<K, V>(entries: Seq<(K, V)>, key: K, value: V)
    requires
        distinct_keys(entries),
        distinct_keys(entries.push((key, value))),
    ensures
        as_map(entries.push((key, value))) == as_map(entries).insert(key, value),
{
    let longer = entries.push((key, value));
    lemma_entry(longer, entries.len() as int);
    assert forall|k: K| #[trigger] as_map(longer).contains_key(k) <==> as_map(entries).insert(
        key,
        value,
    ).contains_key(k) by {
        if as_map(longer).contains_key(k) && k != key {
            let i = choose|i: int| key_at(longer, k, i);
            assert(key_at(entries, k, i));
        }
        if as_map(entries).contains_key(k) {
            let i = choose|i: int| key_at(entries, k, i);
            assert(key_at(longer, k, i));
        }
    }
    assert forall|k: K| as_map(entries).contains_key(k) && k != key implies #[trigger] as_map(
        longer,
    )[k] == as_map(entries)[k] by {
        let i = choose|i: int| key_at(entries, k, i);
        lemma_entry(entries, i);
        assert(longer[i] == entries[i]);
        lemma_entry(longer, i);
    }
    assert(as_map(longer) =~= as_map(entries).insert(key, value));
}

/// Taking an entry out takes out its key, and nothing else.
proof fn lemma_remove<K, V>(entries: Seq<(K, V)>, at: int)
    requires
        distinct_keys(entries),
        0 <= at < entries.len(),
    ensures
        distinct_keys(entries.remove(at)),
        as_map(entries.remove(at)) == as_map(entries).remove(entries[at].0),
{
    let rest = entries.remove(at);
    let key = entries[at].0;
    assert(distinct_keys(rest)) by {
        assert forall|i: int, j: int| 0 <= i < j < rest.len() implies (#[trigger] rest[i]).0 != (
        #[trigger] rest[j]).0 by {
            let a = if i < at {
                i
            } else {
                i + 1
            };
            let b = if j < at {
                j
            } else {
                j + 1
            };
            assert(entries[a].0 != entries[b].0);
        }
    }
    assert forall|k: K| #[trigger] as_map(rest).contains_key(k) <==> as_map(entries).remove(
        key,
    ).contains_key(k) by {
        if as_map(rest).contains_key(k) {
            let i = choose|i: int| key_at(rest, k, i);
            let a = if i < at {
                i
            } else {
                i + 1
            };
            assert(key_at(entries, k, a));
            assert(entries[a].0 != entries[at].0);
        }
        if as_map(entries).contains_key(k) && k != key {
            let i = choose|i: int| key_at(entries, k, i);
            assert(key_at(rest, k, if i < at { i } else { i - 1 }));
        }
    }
    assert forall|k: K| #[trigger] as_map(rest).contains_key(k) implies as_map(rest)[k] == as_map(
        entries,
    )[k] by {
        let i = choose|i: int| key_at(rest, k, i);
        lemma_entry(rest, i);
        lemma_entry(entries, if i < at { i } else { i + 1 });
    }
    assert(as_map(rest) =~= as_map(entries).remove(key));
}

} // verus!
