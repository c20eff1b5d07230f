//! The registry of change-notification subscriptions.
//!
//! A subscription is identified by a small integer id.  The registry only
//! decides *which* subscriptions a broadcast must reach; running the
//! callback registered under an id is the caller's business, which keeps
//! the decision logic free of stored closures.

use vstd::prelude::*;

verus! {

/// A live membership in the watch registry.
///
/// Dropping the handle does not deregister anything; deregistration is the
/// explicit [`WatchCallbackList::unsubscribe`] call, which consumes the
/// handle so that it cannot be used twice.
pub struct WatchHandle {
    id: usize,
}

impl WatchHandle {
    /// The subscription id this handle stands for.
    pub closed spec fn spec_id(&self) -> int {
        self.id as int
    }

    /// The subscription id this handle stands for.
    pub fn id(&self) -> (r: usize)
        ensures
            r == self.spec_id(),
    {
        self.id
    }
}

/// The ids, in ascending order, of the live subscriptions in `subs`.
pub open spec fn live_ids(subs: Seq<bool>) -> Seq<usize>
    decreases subs.len(),
{
    if subs.len() == 0 {
        Seq::empty()
    } else if subs.last() {
        live_ids(subs.drop_last()).push((subs.len() - 1) as usize)
    } else {
        live_ids(subs.drop_last())
    }
}

/// Tracks which subscription ids are live.  Slot `i` of the vector is the
/// fate of the `i`-th subscription ever made: `true` while it is live,
/// `false` once it has been deregistered.  Ids are never reused, so a
/// broadcast list names each live subscription exactly once.
pub struct WatchCallbackList {
    subs: Vec<bool>,
}

impl View for WatchCallbackList {
    type V = Seq<bool>;

    closed spec fn view(&self) -> Seq<bool> {
        self.subs@
    }
}

impl WatchCallbackList {
    /// An empty registry.
    pub fn new() -> (r: Self)
        ensures
            r@ == Seq::<bool>::empty(),
    {
        WatchCallbackList { subs: Vec::new() }
    }

    /// Registers a new subscription and returns its handle.  The fresh id
    /// is distinct from every id handed out before.
    pub fn subscribe(&mut self) -> (h: WatchHandle)
        ensures
            final(self)@ == old(self)@.push(true),
            h.spec_id() == old(self)@.len(),
    {
        let id = self.subs.len();
        self.subs.push(true);
        WatchHandle { id }
    }

    /// Deregisters the subscription the handle stands for, consuming the
    /// handle.  The callback behind a deregistered id is never named by a
    /// later broadcast.
    pub fn unsubscribe(&mut self, h: WatchHandle) -> (r: bool)
        ensures
            h.spec_id() < old(self)@.len() ==> final(self)@ == old(self)@.update(
                h.spec_id(),
                false,
            ) && r,
            h.spec_id() >= old(self)@.len() ==> final(self)@ == old(self)@ && !r,
    {
        if h.id < self.subs.len() {
            self.subs.set(h.id, false);
            true
        } else {
            false
        }
    }

    /// The ids every broadcast must reach: each live subscription, exactly
    /// once, in ascending id order.
    pub fn broadcast(&self) -> (ids: Vec<usize>)
        ensures
            ids@ == live_ids(self@),
    {
        let mut ids: Vec<usize> = Vec::new();
        let n = self.subs.len();
        for i in 0..n
            invariant
                n == self.subs.len(),
                ids@ == live_ids(self@.take(i as int)),
        {
            proof {
                assert(self@.take(i + 1).drop_last() =~= self@.take(i as int));
            }
            if self.subs[i] {
                ids.push(i);
            }
        }
        proof {
            assert(self@.take(n as int) =~= self@);
        }
        ids
    }
}

/// Every id a broadcast returns stands for a live subscription, each id is
/// listed at most once (the list is strictly ascending), and every live
/// subscription is listed.
pub proof fn lemma_live_ids_exact(subs: Seq<bool>)
    requires
        subs.len() <= usize::MAX,
    ensures
        forall|k: int|
            0 <= k < live_ids(subs).len() ==> #[trigger] live_ids(subs)[k] < subs.len()
                && subs[live_ids(subs)[k] as int],
        forall|k: int, l: int|
            0 <= k < l < live_ids(subs).len() ==> live_ids(subs)[k] < live_ids(subs)[l],
        forall|i: int|
            0 <= i < subs.len() && subs[i] ==> exists|k: int|
                0 <= k < live_ids(subs).len() && live_ids(subs)[k] == i,
    decreases subs.len(),
{
    if subs.len() > 0 {
        lemma_live_ids_exact(subs.drop_last());
        let prev = live_ids(subs.drop_last());
        assert forall|i: int| 0 <= i < subs.len() && subs[i] implies exists|k: int|
            0 <= k < live_ids(subs).len() && live_ids(subs)[k] == i by {
            if i < subs.len() - 1 {
                assert(subs.drop_last()[i]);
                let k = choose|k: int| 0 <= k < prev.len() && prev[k] == i;
                assert(live_ids(subs)[k] == i);
            } else {
                assert(subs.last());
                assert(live_ids(subs).last() == i);
            }
        }
    }
}

} // verus!
