//! The ledger of timeouts and retained items.

use crate::id_map::IdMap;
use crate::kind::{eq_decides, Rex, StateId};
use crate::request::{Operation, RetainItem, TimeoutMessage, TimeoutOp, UnaryRequest};
use crate::time::{Duration, Instant, NANOS_PER_SEC};
use std::collections::BTreeMap;
use vstd::prelude::*;

verus! {

/// A timeout that is at most this many seconds away is a short one.
pub const SHORT_TIMEOUT_SECS: u64 = 10;

/// An item that is retained for a state.
pub type RetainPair<K> = (StateId<K>, RetainItem<K>);

/// The timeouts that are set and the items that are retained.
///
/// Timeouts are kept twice: by instant, so that those whose time has come are found
/// together, and by id, so that a timeout can be cancelled without naming its instant.
pub struct TimeoutLedger<K> where K: Rex, K::Message: TimeoutMessage<K> {
    timers: BTreeMap<u128, IdMap<K, ()>>,
    ids: IdMap<K, Instant>,
    retainer: BTreeMap<u128, Vec<RetainPair<K>>>,
}

/// Calls `std::collections::BTreeMap::split_off`, which leaves the keys before `key` in the
/// map, and gives back `key` and those after it, each with its value.
#[verifier::external_body]
fn split_off<V>(map: &mut BTreeMap<u128, V>, key: u128) -> (rest: BTreeMap<u128, V>)
    ensures
        final(map)@ == old(map)@.restrict(Set::new(|k: u128| k < key)),
        rest@ == old(map)@.restrict(Set::new(|k: u128| key <= k)),
{
    map.split_off(&key)
}

/// Takes the keys up to `last`, and `last` itself, out of a map, each with its value.
fn take_up_to<V>(map: &mut BTreeMap<u128, V>, last: u128) -> (taken: BTreeMap<u128, V>)
    ensures
        final(map)@ == old(map)@.restrict(Set::new(|k: u128| last < k)),
        taken@ == old(map)@.restrict(Set::new(|k: u128| k <= last)),
{
    let mut taken = if last < u128::MAX {
        split_off(map, last + 1)
    } else {
        BTreeMap::new()
    };
    std::mem::swap(&mut taken, map);
    assert(map@ =~= old(map)@.restrict(Set::new(|k: u128| last < k)));
    assert(taken@ =~= old(map)@.restrict(Set::new(|k: u128| k <= last)));
    taken
}

/// The timeouts of `deadlines` whose instant has come by `now`: it lies before `now`, or is `now`.
pub open spec fn expired<K>(deadlines: Map<StateId<K>, Instant>, now: Instant) -> Set<StateId<K>> {
    Set::new(|id: StateId<K>| deadlines.contains_key(id) && deadlines[id].nanos <= now.nanos)
}

/// Whether `ids` names the timeouts of `deadlines` whose instant has come by `now`, each once, and
/// earlier ones before later ones.
pub open spec fn expires_as<K>(
    deadlines: Map<StateId<K>, Instant>,
    now: Instant,
    ids: Seq<StateId<K>>,
) -> bool {
    &&& ids.no_duplicates()
    &&& forall|id: StateId<K>| #[trigger]
        ids.contains(id) <==> expired(deadlines, now).contains(id)
    &&& forall|i: int, j: int|
        0 <= i < j < ids.len() ==> deadlines[#[trigger] ids[i]].nanos <= deadlines[#[trigger] ids[j]].nanos
}

/// Whether each instant lies before those that follow.
pub open spec fn ascending(instants: Seq<Instant>) -> bool {
    forall|i: int, j: int|
        0 <= i < j < instants.len() ==> (#[trigger] instants[i]).nanos < (
        #[trigger] instants[j]).nanos
}

/// The items that are retained until the given instants, one instant after the other.
pub open spec fn chained<P>(retained: Map<Instant, Seq<P>>, instants: Seq<Instant>) -> Seq<P>
    decreases instants.len(),
{
    if instants.len() == 0 {
        Seq::empty()
    } else {
        chained(retained, instants.drop_last()) + retained[instants.last()]
    }
}

/// Whether `instants` are those up to `now` at which something is due, in their order.
pub open spec fn due_instants<P>(
    retained: Map<Instant, Seq<P>>,
    now: Instant,
    instants: Seq<Instant>,
) -> bool {
    &&& ascending(instants)
    &&& forall|instant: Instant| #[trigger]
        instants.contains(instant) <==> retained.contains_key(instant) && instant.nanos <= now.nanos
}

/// Whether `pairs` are the items that are retained until an instant up to `now`: those of earlier
/// instants before those of later ones, and those of one instant in the order in which they came.
pub open spec fn returns_as<P>(
    retained: Map<Instant, Seq<P>>,
    now: Instant,
    pairs: Seq<P>,
) -> bool {
    exists|instants: Seq<Instant>| #[trigger]
        due_instants(retained, now, instants) && pairs == chained(retained, instants)
}

/// The instants that lie after `now`.
pub open spec fn later_than(now: Instant) -> Set<Instant> {
    Set::new(|instant: Instant| now.nanos < instant.nanos)
}

/// How an instant that is asked for lies to the time at which it is asked for.
#[derive(Clone, Copy, Debug, PartialEq, Eq, Structural)]
pub struct Lint {
    /// Whether the instant has passed.
    pub past: bool,
    /// Whether the instant is at most ten seconds away.
    pub short: bool,
    /// How many nanoseconds the instant is away, or zero where it has passed.
    pub remaining: u128,
}

/// How `instant` lies to `now`.
pub open spec fn lint(instant: Instant, now: Instant) -> Lint {
    let past = instant.nanos < now.nanos;
    let remaining: u128 = if past {
        0
    } else {
        (instant.nanos - now.nanos) as u128
    };
    Lint { past, short: remaining <= SHORT_TIMEOUT_SECS * NANOS_PER_SEC, remaining }
}

/// The timeouts that a request leaves.
pub open spec fn deadlines_after<K, T>(
    deadlines: Map<StateId<K>, Instant>,
    request: UnaryRequest<K, Operation<T>>,
) -> Map<StateId<K>, Instant> {
    match request.op {
        Operation::Cancel => deadlines.remove(request.id),
        Operation::SetAt(instant) => deadlines.insert(request.id, instant),
        Operation::Retain(_, _) => deadlines,
    }
}

/// The items that are retained until `instant`.
pub open spec fn items_at<P>(retained: Map<Instant, Seq<P>>, instant: Instant) -> Seq<P> {
    if retained.contains_key(instant) {
        retained[instant]
    } else {
        Seq::empty()
    }
}

/// The retained items that a request leaves.
pub open spec fn retained_after<K, T>(
    retained: Map<Instant, Seq<(StateId<K>, T)>>,
    request: UnaryRequest<K, Operation<T>>,
) -> Map<Instant, Seq<(StateId<K>, T)>> {
    match request.op {
        Operation::Cancel => retained,
        Operation::SetAt(_) => retained,
        Operation::Retain(item, instant) => retained.insert(
            instant,
            items_at(retained, instant).push((request.id, item)),
        ),
    }
}

impl<K> TimeoutLedger<K> where K: Rex, K::Message: TimeoutMessage<K> {
    /// The instant of the timeout of each state that has one.
    pub closed spec fn deadlines(self) -> Map<StateId<K>, Instant> {
        self.ids@
    }

    /// The items that are retained until each instant, in the order in which they came.
    pub closed spec fn retained(self) -> Map<Instant, Seq<RetainPair<K>>> {
        Map::new(
            |instant: Instant| self.retainer@.contains_key(instant.nanos),
            |instant: Instant| self.retainer@[instant.nanos]@,
        )
    }

    /// Whether `id` stands under `nanos` in the table by instant.
    spec fn armed(self, nanos: u128, id: StateId<K>) -> bool {
        self.timers@.contains_key(nanos) && self.timers@[nanos]@.contains_key(id)
    }

    /// The table by instant and the table by id agree.
    pub closed spec fn wf(self) -> bool {
        &&& self.ids.wf()
        &&& forall|nanos: u128| #[trigger]
            self.timers@.contains_key(nanos) ==> self.timers@[nanos].wf()
        &&& forall|nanos: u128, id: StateId<K>| #[trigger]
            self.armed(nanos, id) <==> self.ids@.contains_key(id) && self.ids@[id].nanos == nanos
    }

    /// The states that stand under `instant` in the table by instant.
    pub closed spec fn timed_at(self, instant: Instant) -> Set<StateId<K>> {
        Set::new(|id: StateId<K>| self.armed(instant.nanos, id))
    }

    /// The two tables say the same: a state stands under an instant exactly where that is the
    /// instant of its timeout. So it stands under one instant at most.
    pub proof fn law_tables_agree(self, id: StateId<K>, instant: Instant)
        requires
            self.wf(),
        ensures
            self.timed_at(instant).contains(id) <==> self.deadlines().contains_key(id)
                && self.deadlines()[id] == instant,
    {
    }

    /// A ledger without timeouts and without items.
    pub fn new() -> (ledger: Self)
        ensures
            ledger.wf(),
            ledger.deadlines() == Map::<StateId<K>, Instant>::empty(),
            ledger.retained() == Map::<Instant, Seq<RetainPair<K>>>::empty(),
    {
        let ledger = TimeoutLedger {
            timers: BTreeMap::new(),
            ids: IdMap::new(),
            retainer: BTreeMap::new(),
        };
        assert(ledger.retained() =~= Map::<Instant, Seq<RetainPair<K>>>::empty());
        ledger
    }

    /// Keeps `item` for `id` until `instant`.
    pub fn retain(&mut self, id: StateId<K>, instant: Instant, item: RetainItem<K>)
        requires
            old(self).wf(),
        ensures
            final(self).wf(),
            final(self).deadlines() == old(self).deadlines(),
            final(self).retained() == old(self).retained().insert(
                instant,
                items_at(old(self).retained(), instant).push((id, item)),
            ),
    {
        let mut pairs = match self.retainer.remove(&instant.nanos) {
            Some(pairs) => pairs,
            None => Vec::new(),
        };
        pairs.push((id, item));
        self.retainer.insert(instant.nanos, pairs);
        proof {
            assert(forall|nanos: u128, id: StateId<K>| #[trigger]
                self.armed(nanos, id) <==> old(self).armed(nanos, id));
            assert(self.retained() =~= old(self).retained().insert(
                instant,
                items_at(old(self).retained(), instant).push((id, item)),
            ));
        }
    }

    /// Takes `id` out of the table by instant.
    fn disarm(&mut self, nanos: u128, id: StateId<K>)
        requires
            eq_decides::<K>(),
            old(self).armed(nanos, id),
            forall|t: u128| #[trigger]
                old(self).timers@.contains_key(t) ==> old(self).timers@[t].wf(),
        ensures
            final(self).ids == old(self).ids,
            final(self).retainer == old(self).retainer,
            forall|t: u128| #[trigger]
                final(self).timers@.contains_key(t) ==> final(self).timers@[t].wf(),
            forall|t: u128, other: StateId<K>| #[trigger]
                final(self).armed(t, other) <==> old(self).armed(t, other) && !(t == nanos && other
                    == id),
    {
        if let Some(mut set) = self.timers.remove(&nanos) {
            set.remove(id);
            self.timers.insert(nanos, set);
        }
    }

    /// Sets the timeout of `id` to `instant`, in place of the one it had.
    pub fn set_timeout(&mut self, id: StateId<K>, instant: Instant)
        requires
            eq_decides::<K>(),
            old(self).wf(),
        ensures
            final(self).wf(),
            final(self).deadlines() == old(self).deadlines().insert(id, instant),
            final(self).retained() == old(self).retained(),
    {
        let previous = self.ids.insert(id, instant);
        assert(forall|t: u128, other: StateId<K>| #[trigger]
            self.armed(t, other) <==> old(self).armed(t, other));
        if let Some(previous) = previous {
            if previous != instant {
                self.disarm(previous.nanos, id);
            }
        }
        let ghost mid = *self;
        let mut set = match self.timers.remove(&instant.nanos) {
            Some(set) => set,
            None => IdMap::new(),
        };
        set.insert(id, ());
        self.timers.insert(instant.nanos, set);
        proof {
            assert(forall|t: u128, other: StateId<K>| #[trigger]
                self.armed(t, other) <==> mid.armed(t, other) || t == instant.nanos && other == id);
        }
    }

    /// Drops the timeout of `id`, if it has one.
    pub fn cancel_timeout(&mut self, id: StateId<K>)
        requires
            eq_decides::<K>(),
            old(self).wf(),
        ensures
            final(self).wf(),
            final(self).deadlines() == old(self).deadlines().remove(id),
            final(self).retained() == old(self).retained(),
    {
        let previous = self.ids.remove(id);
        assert(forall|t: u128, other: StateId<K>| #[trigger]
            self.armed(t, other) <==> old(self).armed(t, other));
        if let Some(instant) = previous {
            self.disarm(instant.nanos, id);
        }
    }

    /// Does what a request asks for.
    pub fn apply(&mut self, request: UnaryRequest<K, TimeoutOp<K>>)
        requires
            eq_decides::<K>(),
            old(self).wf(),
        ensures
            final(self).wf(),
            final(self).deadlines() == deadlines_after(old(self).deadlines(), request),
            final(self).retained() == retained_after(old(self).retained(), request),
    {
        match request.op {
            Operation::Cancel => self.cancel_timeout(request.id),
            Operation::SetAt(instant) => self.set_timeout(request.id, instant),
            Operation::Retain(item, instant) => self.retain(request.id, instant, item),
        }
    }

    /// Judges an instant that is asked for at `now`.
    pub fn lint_instant(instant: Instant, now: Instant) -> (judged: Lint)
        ensures
            judged == lint(instant, now),
    {
        let past: bool = instant.nanos < now.nanos;
        let remaining: u128 = if past {
            0
        } else {
            instant.nanos - now.nanos
        };
        let short: bool = remaining <= Duration::from_secs(SHORT_TIMEOUT_SECS).as_nanos();
        Lint { past, short, remaining }
    }

    /// Takes out the timeouts whose instant has come by `now`, earlier ones first; those of one
    /// instant come in no particular order. A timeout of the instant `now` itself is among them.
    pub fn take_expired(&mut self, now: Instant) -> (expired_ids: Vec<StateId<K>>)
        requires
            eq_decides::<K>(),
            old(self).wf(),
        ensures
            final(self).wf(),
            expires_as(old(self).deadlines(), now, expired_ids@),
            final(self).deadlines() == old(self).deadlines().remove_keys(
                expired(old(self).deadlines(), now),
            ),
            final(self).retained() == old(self).retained(),
    {
        let release = take_up_to(&mut self.timers, now.nanos);
        let mut expired_ids: Vec<StateId<K>> = Vec::new();
        let walk = release.iter();
        proof {
            lemma_rising(vstd::std_specs::iter::IteratorSpec::remaining(&walk));
        }
        for (nanos, set) in it: walk
            invariant
                eq_decides::<K>(),
                old(self).wf(),
                self.ids.wf(),
                self.retainer == old(self).retainer,
                self.timers@ == old(self).timers@.restrict(
                    Set::new(|k: u128| now.nanos < k),
                ),
                release@ == old(self).timers@.restrict(Set::new(|k: u128| k <= now.nanos)),
                vstd::std_specs::iter::IteratorSpec::remaining(&release.iter()) == it.seq(),
                rising(it.seq()),
                expired_ids@.no_duplicates(),
                forall|id: StateId<K>| #[trigger]
                    expired_ids@.contains(id) <==> walked(it.seq(), it.index(), id),
                forall|i: int, j: int|
                    0 <= i < j < expired_ids@.len()
                        ==> old(self).ids@[#[trigger] expired_ids@[i]].nanos
                        <= old(self).ids@[#[trigger] expired_ids@[j]].nanos,
                self.ids@ == old(self).ids@.remove_keys(expired_ids@.to_set()),
        {
            let ghost n = it.index();
            assert(it.seq()[n] == (nanos, set));
            assert(release@.contains_key(*nanos) && release@[*nanos] == *set);
            let batch = set.ids();
            let ghost before = expired_ids@;
            let mut i: usize = 0;
            while i < batch.len()
                invariant
                    eq_decides::<K>(),
                    i <= batch@.len(),
                    self.ids.wf(),
                    self.retainer == old(self).retainer,
                    self.timers@ == old(self).timers@.restrict(
                        Set::new(|k: u128| now.nanos < k),
                    ),
                    expired_ids@ == before + batch@.take(i as int),
                    self.ids@ == old(self).ids@.remove_keys(expired_ids@.to_set()),
                decreases batch@.len() - i,
            {
                let ghost earlier = expired_ids@;
                let id = batch[i];
                self.ids.remove(id);
                expired_ids.push(id);
                i = i + 1;
                proof {
                    assert(batch@.take(i as int) =~= batch@.take(i - 1).push(id));
                    assert(expired_ids@.to_set() =~= earlier.to_set().insert(id)) by {
                        broadcast use vstd::seq_lib::group_seq_properties;

                    }
                    assert(self.ids@ =~= old(self).ids@.remove_keys(expired_ids@.to_set()));
                }
            }
            proof {
                assert(batch@.take(batch@.len() as int) =~= batch@);
                assert forall|id: StateId<K>| #[trigger] batch@.contains(id) implies old(
                    self,
                ).ids@.contains_key(id) && old(self).ids@[id].nanos == *nanos by {
                    assert(old(self).armed(*nanos, id));
                }
                assert forall|id: StateId<K>| #[trigger] before.contains(id) implies old(
                    self,
                ).ids@.contains_key(id) && old(self).ids@[id].nanos < *nanos by {
                    let a = choose|a: int| 0 <= a < n && (#[trigger] it.seq()[a]).1@.contains_key(id);
                    assert(*it.seq()[a].0 < *it.seq()[n].0);
                    assert(release@.contains_key(*it.seq()[a].0));
                    assert(old(self).armed(*it.seq()[a].0, id));
                }
                assert forall|id: StateId<K>| #[trigger] expired_ids@.contains(id) <==> walked(
                    it.seq(),
                    n + 1,
                    id,
                ) by {
                    lemma_walked_next(it.seq(), n, id);
                    lemma_concat_contains(before, batch@, id);
                }
                assert forall|i: int, j: int| 0 <= i < j < expired_ids@.len() implies old(
                    self,
                ).ids@[#[trigger] expired_ids@[i]].nanos <= old(
                    self,
                ).ids@[#[trigger] expired_ids@[j]].nanos && expired_ids@[i] != expired_ids@[j] by {
                    if j >= before.len() {
                        assert(batch@.contains(expired_ids@[j]));
                        if i < before.len() {
                            assert(before.contains(expired_ids@[i]));
                        } else {
                            assert(batch@.contains(expired_ids@[i]));
                        }
                    } else {
                        assert(before[i] == expired_ids@[i] && before[j] == expired_ids@[j]);
                    }
                }
            }
        }
        proof {
            let walk = vstd::std_specs::iter::IteratorSpec::remaining(&release.iter());
            assert forall|id: StateId<K>| #[trigger] expired_ids@.contains(id) <==> expired(
                old(self).ids@,
                now,
            ).contains(id) by {
                if expired_ids@.contains(id) {
                    let a = choose|a: int| 0 <= a < walk.len() && (
                    #[trigger] walk[a]).1@.contains_key(id);
                    assert(release@.contains_key(*walk[a].0));
                    assert(old(self).armed(*walk[a].0, id));
                }
                if expired(old(self).ids@, now).contains(id) {
                    let nanos = old(self).ids@[id].nanos;
                    assert(old(self).armed(nanos, id));
                    assert(release@.contains_key(nanos));
                    let a = choose|a: int|
                        0 <= a < walk.len() && walk[a] == (&nanos, &release@[nanos]);
                    assert(walk[a].1@.contains_key(id));
                }
            }
            assert(expired_ids@.to_set() =~= expired(old(self).ids@, now));
            assert forall|t: u128, id: StateId<K>| #[trigger] self.armed(t, id)
                <==> self.ids@.contains_key(id) && self.ids@[id].nanos == t by {
                assert(old(self).armed(t, id) <==> old(self).ids@.contains_key(id) && old(
                    self,
                ).ids@[id].nanos == t);
            }
        }
        expired_ids
    }

    /// Takes out the items that are retained until an instant up to `now`, those of earlier
    /// instants first. Items of the instant `now` itself are among them.
    pub fn take_retained(&mut self, now: Instant) -> (pairs: Vec<RetainPair<K>>)
        requires
            old(self).wf(),
        ensures
            final(self).wf(),
            returns_as(old(self).retained(), now, pairs@),
            final(self).deadlines() == old(self).deadlines(),
            final(self).retained() == old(self).retained().restrict(later_than(now)),
    {
        let release = take_up_to(&mut self.retainer, now.nanos);
        let mut pairs: Vec<RetainPair<K>> = Vec::new();
        let walk = release.iter();
        let ghost met = vstd::std_specs::iter::IteratorSpec::remaining(&walk);
        proof {
            lemma_rising(met);
            assert(self.retained() =~= old(self).retained().restrict(later_than(now)));
            assert(forall|t: u128, id: StateId<K>| #[trigger]
                self.armed(t, id) <==> old(self).armed(t, id));
        }
        for (nanos, batch) in it: walk
            invariant
                it.seq() == met,
                vstd::std_specs::iter::IteratorSpec::remaining(&release.iter()) == met,
                release@ == old(self).retainer@.restrict(Set::new(|k: u128| k <= now.nanos)),
                pairs@ == chained(old(self).retained(), met_instants(met, it.index())),
        {
            let ghost n = it.index();
            let ghost before = pairs@;
            assert(met[n] == (nanos, batch));
            assert(release@.contains_key(*nanos) && release@[*nanos] == *batch);
            let mut i: usize = 0;
            while i < batch.len()
                invariant
                    i <= batch@.len(),
                    pairs@ == before + batch@.take(i as int),
                decreases batch@.len() - i,
            {
                let pair = batch[i];
                pairs.push(pair);
                i = i + 1;
                assert(batch@.take(i as int) =~= batch@.take(i - 1).push(pair));
            }
            proof {
                let instants = met_instants(met, n + 1);
                assert(batch@.take(batch@.len() as int) =~= batch@);
                assert(instants.drop_last() =~= met_instants(met, n));
                assert(instants.last() == (Instant { nanos: *nanos }));
                assert(old(self).retained()[instants.last()] == batch@);
            }
        }
        proof {
            let instants = met_instants(met, met.len() as int);
            assert forall|instant: Instant| #[trigger] instants.contains(instant) <==> old(
                self,
            ).retained().contains_key(instant) && instant.nanos <= now.nanos by {
                if instants.contains(instant) {
                    let i = choose|i: int| 0 <= i < instants.len() && instants[i] == instant;
                    assert(release@.contains_key(*met[i].0));
                }
                if old(self).retained().contains_key(instant) && instant.nanos <= now.nanos {
                    assert(release@.contains_key(instant.nanos));
                    let i = choose|i: int|
                        0 <= i < met.len() && met[i] == (&instant.nanos, &release@[instant.nanos]);
                    assert(instants[i] == instant);
                }
            }
            assert(due_instants(old(self).retained(), now, instants));
        }
        pairs
    }
}

/// Whether a walk over the table by instant meets earlier instants before later ones.
spec fn rising<V>(walk: Seq<(&u128, &V)>) -> bool {
    forall|i: int, j: int|
        0 <= i < j < walk.len() ==> *(#[trigger] walk[i]).0 < *(#[trigger] walk[j]).0
}

/// The instants of the first `n` entries of a walk.
spec fn met_instants<V>(walk: Seq<(&u128, &V)>, n: int) -> Seq<Instant> {
    Seq::new(n as nat, |i: int| Instant { nanos: *walk[i].0 })
}

/// A walk whose keys increase meets earlier instants before later ones.
proof fn lemma_rising<V>(walk: Seq<(&u128, &V)>)
    requires
        vstd::std_specs::btree::increasing_seq(walk.map_values(|entry: (&u128, &V)| *entry.0)),
    ensures
        rising(walk),
{
    let keys = walk.map_values(|entry: (&u128, &V)| *entry.0);
    assert forall|i: int, j: int| 0 <= i < j < walk.len() implies *(#[trigger] walk[i]).0 < *(
    #[trigger] walk[j]).0 by {
        assert(vstd::std_specs::cmp::OrdSpec::cmp_spec(&keys[i], &keys[j]) is Less);
    }
}

/// Whether `id` stands in one of the first `n` sets of a walk over the table by instant.
spec fn walked<K>(walk: Seq<(&u128, &IdMap<K, ()>)>, n: int, id: StateId<K>) -> bool {
    exists|i: int| 0 <= i < n && (#[trigger] walk[i]).1@.contains_key(id)
}

/// One step of a walk adds the ids of one set.
proof fn lemma_walked_next<K>(walk: Seq<(&u128, &IdMap<K, ()>)>, n: int, id: StateId<K>)
    requires
        0 <= n < walk.len(),
    ensures
        walked(walk, n + 1, id) <==> walked(walk, n, id) || walk[n].1@.contains_key(id),
{
    if walk[n].1@.contains_key(id) {
        assert(walked(walk, n + 1, id));
    }
}

/// Two sequences hold together what each of them holds.
proof fn lemma_concat_contains<A>(a: Seq<A>, b: Seq<A>, x: A)
    ensures
        (a + b).contains(x) <==> a.contains(x) || b.contains(x),
{
    broadcast use vstd::seq_lib::group_seq_properties;

}

} // verus!
