//! The synchronization primitives of a layer manager: the token naming one
//! worker's slot, a commit accumulator with one slot per neuron, and the
//! timestamp-ordered pending-event queue. Workers commit in any completion
//! order; the accumulated row can only be taken once every slot is filled,
//! so a partial timestep is never forwarded.

use vstd::prelude::*;

verus! {

/// Capability for one neuron's slot in a layer. A manager hands out
/// exactly one token per neuron at construction.
pub struct Token {
    pub neuron_id: usize,
}

/// Per-timestep commit buffer of one layer: one slot per neuron, each
/// filled at most once per timestep, in arbitrary completion order.
pub struct CommitAccumulator<T> {
    slots: Vec<Option<T>>,
}

impl<T> CommitAccumulator<T> {
    /// The slots, empty or holding a committed value.
    pub closed spec fn slots_view(self) -> Seq<Option<T>> {
        self.slots@
    }

    /// Every neuron of the layer has committed for this timestep.
    pub open spec fn complete(self) -> bool {
        forall|i: int| 0 <= i < self.slots_view().len() ==> (#[trigger] self.slots_view()[i])
            is Some
    }

    /// An accumulator of `n` empty slots.
    pub fn new(n: usize) -> (r: CommitAccumulator<T>)
        ensures
            r.slots_view().len() == n,
            forall|i: int| 0 <= i < n ==> (#[trigger] r.slots_view()[i]) is None,
    {
        let mut slots: Vec<Option<T>> = Vec::new();
        let mut i: usize = 0;
        while i < n
            invariant
                i <= n,
                slots@.len() == i,
                forall|k: int| 0 <= k < i ==> (#[trigger] slots@[k]) is None,
            decreases n - i,
        {
            slots.push(None);
            i += 1;
        }
        CommitAccumulator { slots }
    }

    /// Report one neuron's result for the current timestep. The token names
    /// a slot of this layer that was not committed yet; only that slot
    /// changes.
    pub fn commit(&mut self, token: &Token, value: T)
        requires
            token.neuron_id < old(self).slots_view().len(),
            old(self).slots_view()[token.neuron_id as int] is None,
        ensures
            final(self).slots_view() == old(self).slots_view().update(
                token.neuron_id as int,
                Some(value),
            ),
    {
        let slot = &mut self.slots[token.neuron_id];
        *slot = Some(value);
    }

    /// Whether the slot of `neuron_id` is still awaiting its commit.
    pub fn slot_is_empty(&self, neuron_id: usize) -> (r: bool)
        requires
            neuron_id < self.slots_view().len(),
        ensures
            r == (self.slots_view()[neuron_id as int] is None),
    {
        self.slots[neuron_id].is_none()
    }

    /// Whether every slot is filled: only then may the row be forwarded.
    pub fn is_complete(&self) -> (r: bool)
        ensures
            r == self.complete(),
    {
        let mut i: usize = 0;
        while i < self.slots.len()
            invariant
                i <= self.slots@.len(),
                forall|k: int| 0 <= k < i ==> (#[trigger] self.slots@[k]) is Some,
            decreases self.slots@.len() - i,
        {
            if self.slots[i].is_none() {
                return false;
            }
            i += 1;
        }
        true
    }

    /// Release the completed row, in neuron order. Only a structurally
    /// complete accumulator can be taken: the barrier of the layer.
    pub fn take(self) -> (r: Vec<T>)
        requires
            self.complete(),
        ensures
            r@.len() == self.slots_view().len(),
            forall|i: int| 0 <= i < r@.len() ==> self.slots_view()[i] == Some(#[trigger] r@[i]),
    {
        let ghost orig = self.slots@;
        let mut slots = self.slots;
        let mut out: Vec<T> = Vec::new();
        while slots.len() > 0
            invariant
                out@.len() + slots@.len() == orig.len(),
                slots@ == orig.skip(out@.len() as int),
                forall|i: int| 0 <= i < orig.len() ==> (#[trigger] orig[i]) is Some,
                forall|i: int| 0 <= i < out@.len() ==> orig[i] == Some(#[trigger] out@[i]),
            decreases slots@.len(),
        {
            let ghost k = out@.len() as int;
            let item = slots.remove(0);
            proof {
                assert(orig[k] is Some);
                assert(orig.skip(k).remove(0) =~= orig.skip(k + 1));
            }
            if let Some(v) = item {
                out.push(v);
            }
        }
        out
    }
}

/// The pending-input queue of a layer manager: events in non-decreasing
/// timestamp order. Upstream input is appended at the back; an intra-layer
/// feedback event is injected right after everything due at its own
/// timestamp and before every later timestep.
pub struct PendingQueue<T> {
    entries: Vec<(u128, T)>,
}

impl<T> PendingQueue<T> {
    /// The queued events, front first.
    pub closed spec fn entries_view(self) -> Seq<(u128, T)> {
        self.entries@
    }

    /// Timestamps never decrease along the queue.
    pub open spec fn ts_ordered(self) -> bool {
        forall|a: int, b: int|
            0 <= a < b < self.entries_view().len() ==> (#[trigger] self.entries_view()[a]).0 <= (
            #[trigger] self.entries_view()[b]).0
    }

    /// An empty queue.
    pub fn new() -> (r: PendingQueue<T>)
        ensures
            r.entries_view().len() == 0,
            r.ts_ordered(),
    {
        PendingQueue { entries: Vec::new() }
    }

    /// Whether the queue holds no event.
    pub fn is_empty(&self) -> (r: bool)
        ensures
            r == (self.entries_view().len() == 0),
    {
        self.entries.len() == 0
    }

    /// Accept the next upstream event. Timesteps settle in order, so it may
    /// not be due before anything already queued.
    pub fn push_input(&mut self, ts: u128, value: T)
        requires
            old(self).ts_ordered(),
            forall|k: int| 0 <= k < old(self).entries_view().len() ==> (#[trigger] old(
                self).entries_view()[k]).0 <= ts,
        ensures
            final(self).entries_view() == old(self).entries_view().push((ts, value)),
            final(self).ts_ordered(),
    {
        self.entries.push((ts, value));
        proof {
            let pre = old(self).entries_view();
            let new = self.entries@;
            assert(new == pre.push((ts, value)));
            assert forall|a: int, b: int| 0 <= a < b < new.len() implies (#[trigger] new[a]).0 <= (
            #[trigger] new[b]).0 by {
                if b == new.len() - 1 {
                    assert(old(self).entries_view()[a].0 <= ts);
                } else {
                    assert(old(self).entries_view()[a].0 <= old(self).entries_view()[b].0);
                }
            }
        }
    }

    /// Inject a feedback event of the current timestep: it goes after every
    /// event due at `ts` or earlier and before every later timestep, so the
    /// layer resolves `ts` completely before advancing time.
    pub fn push_feedback(&mut self, ts: u128, value: T)
        requires
            old(self).ts_ordered(),
        ensures
            final(self).ts_ordered(),
            exists|k: int|
                0 <= k <= old(self).entries_view().len() && final(self).entries_view() == old(
                    self).entries_view().insert(k, (ts, value)) && (forall|j: int|
                    0 <= j < k ==> (#[trigger] old(self).entries_view()[j]).0 <= ts) && (k < old(
                    self).entries_view().len() ==> old(self).entries_view()[k].0 > ts),
    {
        let mut i: usize = 0;
        while i < self.entries.len() && self.entries[i].0 <= ts
            invariant
                i <= self.entries@.len(),
                self.ts_ordered(),
                forall|j: int| 0 <= j < i ==> (#[trigger] self.entries@[j]).0 <= ts,
            decreases self.entries@.len() - i,
        {
            i += 1;
        }
        let ghost before = self.entries@;
        let ghost due = i as int;
        self.entries.insert(i, (ts, value));
        proof {
            let new = self.entries@;
            assert(new == before.insert(due, (ts, value)));
            assert forall|p: int, q: int| 0 <= p < q < before.len() implies before[p].0
                <= before[q].0 by {
                assert(old(self).entries_view()[p].0 <= old(self).entries_view()[q].0);
            }
            assert forall|a: int, b: int| 0 <= a < b < new.len() implies (#[trigger] new[a]).0 <= (
            #[trigger] new[b]).0 by {
                if b < due {
                } else if b == due {
                    assert(new[a] == before[a]);
                    assert(before[a].0 <= ts);
                } else if a == due {
                    assert(new[b] == before[b - 1]);
                    assert(before[due].0 > ts);
                    if b - 1 > due {
                        assert(before[due].0 <= before[b - 1].0);
                    }
                } else if a < due {
                    assert(new[a] == before[a]);
                    assert(new[b] == before[b - 1]);
                    assert(before[a].0 <= before[b - 1].0);
                } else {
                    assert(new[a] == before[a - 1]);
                    assert(new[b] == before[b - 1]);
                    assert(before[a - 1].0 <= before[b - 1].0);
                }
            }
        }
    }

    /// Pull the next due event, front first; the queue drains in timestamp
    /// order.
    pub fn pop(&mut self) -> (r: Option<(u128, T)>)
        ensures
            old(self).entries_view().len() == 0 ==> r is None,
            old(self).entries_view().len() == 0 ==> *final(self) == *old(self),
            old(self).entries_view().len() > 0 ==> r == Some(old(self).entries_view()[0]),
            old(self).entries_view().len() > 0 ==> final(self).entries_view() == old(
                self).entries_view().drop_first(),
            old(self).ts_ordered() ==> final(self).ts_ordered(),
    {
        if self.entries.len() == 0 {
            None
        } else {
            let e = self.entries.remove(0);
            proof {
                let pre = old(self).entries_view();
                assert(pre.remove(0) =~= pre.drop_first());
            }
            Some(e)
        }
    }
}

} // verus!
