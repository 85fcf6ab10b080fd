//! Storage for the trees of states that run side by side.

use crate::bucket::Bucket;
use crate::kind::{eq_decides, StateId};
use dashmap::DashMap;
use parking_lot::FairMutex;
use std::sync::Arc;
use vstd::prelude::*;

verus! {

/// The concurrent hash table of `dashmap`.
#[verifier::external_type_specification]
#[verifier::external_body]
#[verifier::reject_recursive_types(K)]
#[verifier::reject_recursive_types(V)]
#[verifier::reject_recursive_types(S)]
pub struct ExDashMap<K, V, S>(dashmap::DashMap<K, V, S>);

/// The lock of which the locks of `parking_lot` are made.
#[verifier::external_type_specification]
#[verifier::external_body]
#[verifier::reject_recursive_types(R)]
#[verifier::reject_recursive_types(T)]
pub struct ExMutex<R, T: ?Sized>(parking_lot::lock_api::Mutex<R, T>);

/// The raw lock of `parking_lot` that is handed on in the order of the requests for it.
#[verifier::external_type_specification]
#[verifier::external_body]
pub struct ExRawFairMutex(parking_lot::RawFairMutex);

/// The number that a table keeps under each of its keys.
pub uninterp spec fn slots(index: DashMap<u128, usize>) -> Map<u128, usize>;

/// Calls `DashMap::new`, which makes a table without keys.
#[verifier::external_body]
fn index_new() -> (index: DashMap<u128, usize>)
    ensures
        slots(index).is_empty(),
{
    DashMap::new()
}

/// Calls `DashMap::insert`, which keeps `slot` under `uuid`, in place of what was there, and
/// leaves the other keys as they are.
#[verifier::external_body]
fn index_insert(index: &mut DashMap<u128, usize>, uuid: u128, slot: usize)
    ensures
        slots(*final(index)) == slots(*old(index)).insert(uuid, slot),
{
    index.insert(uuid, slot);
}

/// Calls `DashMap::remove`, which takes `uuid` out, if it is there, and leaves the other keys as
/// they are.
#[verifier::external_body]
fn index_remove(index: &mut DashMap<u128, usize>, uuid: u128)
    ensures
        slots(*final(index)) == slots(*old(index)).remove(uuid),
{
    index.remove(&uuid);
}

/// Calls `DashMap::get`, which finds what is kept under `uuid`, if it is there.
#[verifier::external_body]
fn index_get(index: &DashMap<u128, usize>, uuid: u128) -> (slot: Option<usize>)
    ensures
        match slot {
            Some(slot) => slots(*index).contains_key(uuid) && slots(*index)[uuid] == slot,
            None => !slots(*index).contains_key(uuid),
        },
{
    index.get(&uuid).map(|entry| *entry.value())
}

/// Calls `FairMutex::new`, which makes a lock with `value` behind it. Nothing is claimed of the
/// lock beyond that it came of this call: what stands behind it later depends on those who take it.
#[verifier::external_body]
fn lock_around<T>(value: T) -> (mutex: FairMutex<T>) {
    FairMutex::new(value)
}

/// Whether `mutex` may be a lock that was made with `value` behind it.
pub closed spec fn made_with<T>(mutex: FairMutex<T>, value: T) -> bool {
    call_ensures(lock_around::<T>, (value,), mutex)
}

/// A value behind a lock that is handed on in the order of the requests for it.
#[verifier::reject_recursive_types(T)]
pub struct FairLock<T> {
    mutex: FairMutex<T>,
}

impl<T> FairLock<T> {
    /// The lock itself.
    pub closed spec fn spec_mutex(self) -> FairMutex<T> {
        self.mutex
    }

    /// Whether the lock was made with `value` behind it.
    pub open spec fn made_around(self, value: T) -> bool {
        made_with(self.spec_mutex(), value)
    }

    /// A lock with `value` behind it.
    pub fn new(value: T) -> (lock: Self)
        ensures
            lock.made_around(value),
    {
        FairLock { mutex: lock_around(value) }
    }

    /// The lock itself.
    pub fn mutex(&self) -> (mutex: &FairMutex<T>)
        ensures
            *mutex == self.spec_mutex(),
    {
        &self.mutex
    }
}

/// A state in a tree of states.
pub struct Node<Id, S> {
    pub id: Id,
    pub state: S,
    pub descendants: Vec<Node<Id, S>>,
}

/// A tree of states, which all its holders share.
pub type Tree<Id, S> = Arc<FairLock<Node<Id, S>>>;

/// The trees of a manager of state machines, by the ids of the states in them.
///
/// Every tree has a lock of its own, so that separate trees can be acted upon at one time, while
/// what is done to one tree is done in turn. Several ids can refer to one tree.
///
/// The trees stand on shelves, one for each number of an id, and an index leads from a number to
/// its shelf. The view of a store maps each id to the tree that it refers to.
#[verifier::reject_recursive_types(K)]
#[verifier::reject_recursive_types(S)]
pub struct StateStore<K, S> {
    index: DashMap<u128, usize>,
    shelves: Vec<(u128, Bucket<K, Tree<StateId<K>, S>>)>,
}

impl<K, S> View for StateStore<K, S> {
    type V = Map<StateId<K>, Tree<StateId<K>, S>>;

    closed spec fn view(&self) -> Map<StateId<K>, Tree<StateId<K>, S>> {
        Map::new(
            |id: StateId<K>|
                slots(self.index).contains_key(id.uuid) && self.shelf(id.uuid).contains_key(
                    id.kind,
                ),
            |id: StateId<K>| self.shelf(id.uuid)[id.kind],
        )
    }
}

impl<K, S> StateStore<K, S> {
    /// The trees of the ids of number `uuid`, by kind.
    spec fn shelf(self, uuid: u128) -> Map<K, Tree<StateId<K>, S>> {
        self.shelves@[slots(self.index)[uuid] as int].1@
    }
}

impl<K: Copy + Eq, S> StateStore<K, S> {
    /// The index leads to the shelf of each number, and there are no other shelves.
    pub closed spec fn wf(self) -> bool {
        &&& forall|uuid: u128| #[trigger]
            slots(self.index).contains_key(uuid) ==> slots(self.index)[uuid] < self.shelves@.len()
                && self.shelves@[slots(self.index)[uuid] as int].0 == uuid
        &&& forall|i: int|
            0 <= i < self.shelves@.len() ==> slots(self.index).contains_key(
                (#[trigger] self.shelves@[i]).0,
            ) && slots(self.index)[self.shelves@[i].0] == i && self.shelves@[i].1.wf()
    }

    /// A store without trees.
    pub fn new() -> (store: Self)
        ensures
            store.wf(),
            store@ == Map::<StateId<K>, Tree<StateId<K>, S>>::empty(),
    {
        let store = StateStore { index: index_new(), shelves: Vec::new() };
        proof {
            assert forall|uuid: u128| !(#[trigger] slots(store.index).contains_key(uuid)) by {
                assert(!slots(store.index).dom().contains(uuid));
            }
            assert(store@ =~= Map::<StateId<K>, Tree<StateId<K>, S>>::empty());
        }
        store
    }

    /// A tree whose root is `node`.
    pub fn new_tree(node: Node<StateId<K>, S>) -> (tree: Tree<StateId<K>, S>)
        requires
            !node.id.spec_is_nil(),
        ensures
            tree.made_around(node),
    {
        Arc::new(FairLock::new(node))
    }

    /// Lets `id` refer to `tree`, in place of the tree that it referred to.
    pub fn insert_ref(&mut self, id: StateId<K>, tree: Tree<StateId<K>, S>)
        requires
            eq_decides::<K>(),
            old(self).wf(),
            !id.spec_is_nil(),
        ensures
            final(self).wf(),
            final(self)@ == old(self)@.insert(id, tree),
    {
        match index_get(&self.index, id.uuid) {
            Some(slot) => {
                self.shelves[slot].1.insert(id.kind, tree);
            },
            None => {
                let mut bucket = Bucket::new();
                bucket.insert(id.kind, tree);
                index_insert(&mut self.index, id.uuid, self.shelves.len());
                self.shelves.push((id.uuid, bucket));
            },
        }
        assert(self@ =~= old(self)@.insert(id, tree));
    }

    /// Takes out what `id` refers to, if it refers to a tree.
    pub fn remove_ref(&mut self, id: StateId<K>)
        requires
            eq_decides::<K>(),
            old(self).wf(),
            !id.spec_is_nil(),
        ensures
            final(self).wf(),
            final(self)@ == old(self)@.remove(id),
    {
        if let Some(slot) = index_get(&self.index, id.uuid) {
            self.shelves[slot].1.remove(id.kind);
            if self.shelves[slot].1.is_empty() {
                self.drop_shelf(slot);
            }
        }
        assert(self@ =~= old(self)@.remove(id));
    }

    /// Takes out an empty shelf, and moves the last shelf to its place.
    fn drop_shelf(&mut self, slot: usize)
        requires
            old(self).wf(),
            slot < old(self).shelves@.len(),
            old(self).shelves@[slot as int].1@.is_empty(),
        ensures
            final(self).wf(),
            final(self)@ == old(self)@,
            final(self).shelves@ == old(self).shelves@.update(
                slot as int,
                old(self).shelves@.last(),
            ).drop_last(),
            slots(final(self).index).dom() == slots(old(self).index).dom().remove(
                old(self).shelves@[slot as int].0,
            ),
    {
        let (uuid, _) = self.shelves.swap_remove(slot);
        index_remove(&mut self.index, uuid);
        if slot < self.shelves.len() {
            let moved = self.shelves[slot].0;
            index_insert(&mut self.index, moved, slot);
        }
        assert(self@ =~= old(self)@);
    }

    /// The tree that `id` refers to.
    pub fn get_tree(&self, id: StateId<K>) -> (tree: Option<Tree<StateId<K>, S>>)
        requires
            eq_decides::<K>(),
            self.wf(),
            !id.spec_is_nil(),
        ensures
            match tree {
                Some(tree) => self@.contains_key(id) && tree == self@[id],
                None => !self@.contains_key(id),
            },
    {
        match index_get(&self.index, id.uuid) {
            Some(slot) => match self.shelves[slot].1.get(id.kind) {
                Some(tree) => Some(tree.clone()),
                None => None,
            },
            None => None,
        }
    }
}

impl<K: Copy + Eq, S> Default for StateStore<K, S> {
    /// A store without trees.
    fn default() -> (store: Self)
        ensures
            store.wf(),
            store@ == Map::<StateId<K>, Tree<StateId<K>, S>>::empty(),
    {
        Self::new()
    }
}

/// A new tree is a lock around the very node that it is made of, with all that is in it, and the
/// lock that a tree hands out is its own.
proof fn law_tree_is_made_of_its_node<K: Copy + Eq, S>(
    node: Node<StateId<K>, S>,
    tree: Tree<StateId<K>, S>,
    mutex: &FairMutex<Node<StateId<K>, S>>,
)
    requires
        call_ensures(StateStore::<K, S>::new_tree, (node,), tree),
        call_ensures(FairLock::<Node<StateId<K>, S>>::mutex, (&*tree,), mutex),
    ensures
        call_ensures(lock_around::<Node<StateId<K>, S>>, (node,), tree.mutex),
        *mutex == tree.mutex,
{
}

/// A lock is made around the value that it is given.
proof fn law_lock_is_made_of_its_value<T>(value: T, lock: FairLock<T>)
    requires
        call_ensures(FairLock::<T>::new, (value,), lock),
    ensures
        call_ensures(lock_around::<T>, (value,), lock.mutex),
{
}

} // verus!
