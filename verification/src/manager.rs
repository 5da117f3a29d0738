//! The decision core of a layer manager: admit timestep events in order,
//! hand each neuron its weighted input once, gather commits behind an
//! all-or-nothing barrier, and queue exactly one intra-layer feedback pass
//! at the same timestamp when the layer fired. The surrounding runtime only
//! blocks, wakes and forwards; every state change goes through this core.

use vstd::prelude::*;

verus! {

use crate::model::NeuronModel;
use crate::network::{matrix_shape, weighted_sums};
use crate::solver::ts_list_sorted;
use crate::sync::{CommitAccumulator, PendingQueue, Token};

/// The timestep a layer is resolving right now: its timestamp, the
/// per-neuron weighted inputs still to be pulled, the commit barrier, and
/// whether the event was the layer's own feedback pass.
pub struct CurrentStep<M: NeuronModel> {
    pub ts: u128,
    pub inputs: Vec<Option<M::Scalar>>,
    pub acc: CommitAccumulator<(bool, M::Scalar)>,
    pub from_feedback: bool,
}

/// What a worker's poll finds: its weighted input due now, nothing yet, or
/// end-of-stream.
pub enum PollNext<T> {
    Ready(u128, T),
    Wait,
    Finished,
}

/// Outcome of one commit: buffered; or the whole timestep completed and its
/// row is released; or the commit broke the protocol and must abort the
/// solve.
pub enum CommitOutcome<T> {
    Accepted,
    Completed(u128, Vec<T>),
    Rejected,
}

/// Every slot of a row holds a commit: the barrier condition.
pub open spec fn row_complete<T>(slots: Seq<Option<(bool, T)>>) -> bool {
    forall|i: int| 0 <= i < slots.len() ==> (#[trigger] slots[i]) is Some
}

/// A row's slots after the barrier: did any neuron fire?
pub open spec fn row_any_fired<T>(slots: Seq<Option<(bool, T)>>) -> bool {
    exists|i: int| 0 <= i < slots.len() && ((#[trigger] slots[i]) matches Some(p) && p.0)
}

/// The released row agrees with the committed slots on every neuron that
/// fired.
pub open spec fn outputs_match<T>(slots: Seq<Option<(bool, T)>>, outs: Seq<T>) -> bool {
    &&& outs.len() == slots.len()
    &&& forall|i: int|
        0 <= i < slots.len() ==> ((#[trigger] slots[i]) matches Some(p) ==> (p.0 ==> outs[i]
            == p.1))
}

/// Synchronization state of one layer: the timestamp-ordered pending
/// events, the timestep in flight, and the bookkeeping that keeps
/// timesteps strictly non-decreasing from admission to release.
pub struct LayerManagerCore<M: NeuronModel> {
    pub n_neurons: usize,
    pub intra_weights: Vec<Vec<M::Scalar>>,
    pub pending: PendingQueue<(Vec<M::Scalar>, bool)>,
    pub current: Option<CurrentStep<M>>,
    pub upstream_done: bool,
    pub finished: bool,
    pub max_ts: Option<u128>,
    pub admitted: Ghost<Seq<u128>>,
}

impl<M: NeuronModel> LayerManagerCore<M> {
    /// The manager's invariant: matrices fit the layer, pending events are
    /// timestamp-ordered, nothing already admitted is due later than
    /// anything still pending, and the admitted timestamps themselves are
    /// non-decreasing — the ordering guarantee of the whole pipeline.
    pub open spec fn wf(self) -> bool {
        &&& matrix_shape(self.intra_weights@, self.n_neurons as nat, self.n_neurons as nat)
        &&& self.pending.ts_ordered()
        &&& forall|k: int|
            0 <= k < self.pending.entries_view().len() ==> (
            #[trigger] self.pending.entries_view()[k]).1.0@.len() == self.n_neurons
        &&& (self.pending.entries_view().len() > 0 ==> self.max_ts is Some)
        &&& (self.current is Some ==> self.max_ts is Some)
        &&& (self.admitted@.len() > 0 ==> self.max_ts is Some)
        &&& (self.max_ts matches Some(m) ==> ((forall|k: int|
            0 <= k < self.pending.entries_view().len() ==> (
            #[trigger] self.pending.entries_view()[k]).0 <= m) && (
        self.current matches Some(c) ==> c.ts <= m) && (self.admitted@.len() > 0
            ==> self.admitted@.last() <= m)))
        &&& (self.current matches Some(c) ==> c.inputs@.len() == self.n_neurons
            && c.acc.slots_view().len() == self.n_neurons)
        &&& ts_list_sorted(self.admitted@)
        &&& (self.current matches Some(c) ==> self.admitted@.len() > 0 && self.admitted@.last()
            == c.ts)
        &&& (self.admitted@.len() > 0 ==> forall|k: int|
            0 <= k < self.pending.entries_view().len() ==> self.admitted@.last() <= (
            #[trigger] self.pending.entries_view()[k]).0)
        &&& (self.finished ==> self.current is None && self.pending.entries_view().len() == 0
            && self.upstream_done)
    }

    /// A `Ready` answered from the step already in flight: the neuron's
    /// stored input is handed out, its slot emptied, and nothing else —
    /// timestamp, accumulator, queue, admissions — moves.
    pub open spec fn ready_from_current(
        pre: LayerManagerCore<M>,
        post: LayerManagerCore<M>,
        id: int,
        ts: u128,
        w: M::Scalar,
    ) -> bool {
        pre.current matches Some(c) && (ts == c.ts && c.inputs@[id] == Some(w) && (
        post.current matches Some(c2) && (c2.ts == c.ts && c2.from_feedback == c.from_feedback
            && c2.acc == c.acc && c2.inputs@ == c.inputs@.update(id, None)))
            && post.pending == pre.pending && post.admitted == pre.admitted)
    }

    /// A `Ready` that admits the head of the queue: that event becomes the
    /// step in flight with a fresh barrier, its timestamp is recorded as
    /// admitted, and this neuron's slot is the one already handed out.
    pub open spec fn ready_from_queue(
        pre: LayerManagerCore<M>,
        post: LayerManagerCore<M>,
        id: int,
        ts: u128,
        w: M::Scalar,
    ) -> bool {
        &&& pre.pending.entries_view().len() > 0
        &&& ts == pre.pending.entries_view()[0].0
        &&& w == pre.pending.entries_view()[0].1.0@[id]
        &&& post.pending.entries_view() == pre.pending.entries_view().drop_first()
        &&& post.admitted@ == pre.admitted@.push(ts)
        &&& (post.current matches Some(c2) && (c2.ts == ts && c2.from_feedback
            == pre.pending.entries_view()[0].1.1 && c2.inputs@.len() == pre.n_neurons
            && c2.inputs@[id] is None && (forall|k: int|
            0 <= k < c2.inputs@.len() && k != id ==> (#[trigger] c2.inputs@[k]) == Some(
                pre.pending.entries_view()[0].1.0@[k],
            )) && c2.acc.slots_view().len() == pre.n_neurons && (forall|k: int|
            0 <= k < pre.n_neurons ==> (#[trigger] c2.acc.slots_view()[k]) is None)))
    }

    /// A manager for a layer of `n_neurons` neurons with its square
    /// intra-layer weight matrix, plus exactly one token per neuron.
    pub fn new(n_neurons: usize, intra_weights: Vec<Vec<M::Scalar>>) -> (r: (
        LayerManagerCore<M>,
        Vec<Token>,
    ))
        requires
            matrix_shape(intra_weights@, n_neurons as nat, n_neurons as nat),
        ensures
            r.0.wf(),
            r.0.n_neurons == n_neurons,
            r.0.intra_weights == intra_weights,
            r.0.pending.entries_view().len() == 0,
            r.0.current is None,
            !r.0.upstream_done,
            !r.0.finished,
            r.0.admitted@ == Seq::<u128>::empty(),
            r.1@.len() == n_neurons,
            forall|i: int| 0 <= i < n_neurons ==> (#[trigger] r.1@[i]).neuron_id == i,
    {
        let mut tokens: Vec<Token> = Vec::new();
        let mut i: usize = 0;
        while i < n_neurons
            invariant
                i <= n_neurons,
                tokens@.len() == i,
                forall|k: int| 0 <= k < i ==> (#[trigger] tokens@[k]).neuron_id == k,
            decreases n_neurons - i,
        {
            tokens.push(Token { neuron_id: i });
            i += 1;
        }
        let core = LayerManagerCore {
            n_neurons,
            intra_weights,
            pending: PendingQueue::new(),
            current: None,
            upstream_done: false,
            finished: false,
            max_ts: None,
            admitted: Ghost(Seq::empty()),
        };
        (core, tokens)
    }

    /// An upstream event is admissible while input is open, the layer is
    /// not drained, the vector fits the layer, and time does not go back.
    pub open spec fn can_accept(self, ts: u128, len: nat) -> bool {
        &&& !self.upstream_done
        &&& !self.finished
        &&& len == self.n_neurons
        &&& (self.max_ts matches Some(m) ==> m <= ts)
    }

    /// Queue the next upstream event, exactly when it is admissible; an
    /// inadmissible event leaves the manager untouched so the caller can
    /// abort the solve instead of corrupting causal order.
    pub fn accept_input(&mut self, ts: u128, inputs: Vec<M::Scalar>) -> (r: bool)
        requires
            old(self).wf(),
        ensures
            final(self).wf(),
            r == old(self).can_accept(ts, inputs@.len() as nat),
            !r ==> *final(self) == *old(self),
            r ==> final(self).pending.entries_view() == old(self).pending.entries_view().push(
                (ts, (inputs, false)),
            ),
            r ==> final(self).max_ts == Some(ts),
            final(self).current == old(self).current,
            final(self).n_neurons == old(self).n_neurons,
            final(self).intra_weights == old(self).intra_weights,
            final(self).upstream_done == old(self).upstream_done,
            final(self).finished == old(self).finished,
            final(self).admitted == old(self).admitted,
    {
        if self.upstream_done || self.finished {
            return false;
        }
        if inputs.len() != self.n_neurons {
            return false;
        }
        if let Some(m) = self.max_ts {
            if ts < m {
                return false;
            }
        }
        self.pending.push_input(ts, (inputs, false));
        self.max_ts = Some(ts);
        true
    }

    /// Upstream is exhausted: once pending work drains, the layer finishes.
    pub fn close_input(&mut self)
        requires
            old(self).wf(),
        ensures
            final(self).wf(),
            final(self).upstream_done,
            final(self).n_neurons == old(self).n_neurons,
            final(self).intra_weights == old(self).intra_weights,
            final(self).pending == old(self).pending,
            final(self).current == old(self).current,
            final(self).finished == old(self).finished,
            final(self).max_ts == old(self).max_ts,
            final(self).admitted == old(self).admitted,
    {
        self.upstream_done = true;
    }

    /// One worker's poll: admit the next pending timestep if none is in
    /// flight, then hand this neuron its weighted input if it has not
    /// pulled it yet. Timesteps are admitted strictly in timestamp order.
    pub fn poll_next(&mut self, token: &Token) -> (r: PollNext<M::Scalar>)
        requires
            old(self).wf(),
            token.neuron_id < old(self).n_neurons,
        ensures
            final(self).wf(),
            final(self).n_neurons == old(self).n_neurons,
            final(self).intra_weights == old(self).intra_weights,
            final(self).upstream_done == old(self).upstream_done,
            final(self).max_ts == old(self).max_ts,
            (r is Finished) <==> (old(self).current is None && old(
                self).pending.entries_view().len() == 0 && old(self).upstream_done),
            (r is Wait) <==> ((old(self).current matches Some(c)
                && c.inputs@[token.neuron_id as int] is None) || (old(self).current is None && old(
                self).pending.entries_view().len() == 0 && !old(self).upstream_done)),
            r is Wait ==> *final(self) == *old(self),
            r is Finished ==> final(self).finished && final(self).current == old(self).current
                && final(self).pending == old(self).pending && final(self).admitted == old(
                self).admitted,
            r is Finished <==> final(self).finished,
            r matches PollNext::Ready(ts, w) ==> (if old(self).current is Some {
                Self::ready_from_current(
                    *old(self),
                    *final(self),
                    token.neuron_id as int,
                    ts,
                    w,
                )
            } else {
                Self::ready_from_queue(*old(self), *final(self), token.neuron_id as int, ts, w)
            }),
            r matches PollNext::Ready(ts, w) ==> (final(self).current matches Some(c) && c.ts == ts
                && c.inputs@[token.neuron_id as int] is None && final(self).admitted@.len() > 0
                && final(self).admitted@.last() == ts),
    {
        if self.finished {
            return PollNext::Finished;
        }
        if self.current.is_none() {
            match self.pending.pop() {
                Some((ts, (inputs, from_feedback))) => {
                    let ghost pre_admitted = self.admitted@;
                    let mut slots: Vec<Option<M::Scalar>> = Vec::new();
                    let mut rest = inputs;
                    let ghost orig = rest@;
                    while rest.len() > 0
                        invariant
                            slots@.len() + rest@.len() == orig.len(),
                            rest@ == orig.skip(slots@.len() as int),
                            forall|k: int| 0 <= k < slots@.len() ==> (#[trigger] slots@[k])
                                == Some(orig[k]),
                        decreases rest@.len(),
                    {
                        let ghost k = slots@.len() as int;
                        let v = rest.remove(0);
                        proof {
                            assert(orig.skip(k).remove(0) =~= orig.skip(k + 1));
                        }
                        slots.push(Some(v));
                    }
                    let acc = CommitAccumulator::new(self.n_neurons);
                    proof {
                        self.admitted@ = pre_admitted.push(ts);
                        assert forall|a: int, b: int|
                            0 <= a < b < self.admitted@.len() implies self.admitted@[a]
                            <= self.admitted@[b] by {
                            if b < self.admitted@.len() - 1 {
                                assert(pre_admitted[a] <= pre_admitted[b]);
                            } else if a < self.admitted@.len() - 1 {
                                assert(pre_admitted[a] <= pre_admitted.last());
                            }
                        }
                    }
                    self.current = Some(
                        CurrentStep { ts, inputs: slots, acc, from_feedback },
                    );
                },
                None => {
                    if self.upstream_done {
                        self.finished = true;
                        return PollNext::Finished;
                    } else {
                        return PollNext::Wait;
                    }
                },
            }
        }
        let slot_available = match &self.current {
            Some(cur) => cur.inputs[token.neuron_id].is_some(),
            None => false,
        };
        if slot_available {
            match &mut self.current {
                Some(cur) => {
                    let slot = &mut cur.inputs[token.neuron_id];
                    match slot.take() {
                        Some(w) => PollNext::Ready(cur.ts, w),
                        None => PollNext::Wait,
                    }
                },
                None => PollNext::Wait,
            }
        } else {
            PollNext::Wait
        }
    }

    /// One neuron's commit. A commit for a neuron that already committed,
    /// or with no timestep in flight, is rejected untouched. The last
    /// commit of a timestep releases the whole row at once — never a
    /// partial one — and, if any neuron fired and the event was not itself
    /// feedback, queues the single intra-layer feedback pass at the same
    /// timestamp, before any later timestep can be admitted.
    pub fn commit_result(&mut self, token: &Token, fired: bool, activation: M::Scalar) -> (r:
        CommitOutcome<M::Scalar>)
        requires
            old(self).wf(),
            token.neuron_id < old(self).n_neurons,
        ensures
            final(self).wf(),
            final(self).n_neurons == old(self).n_neurons,
            final(self).intra_weights == old(self).intra_weights,
            final(self).upstream_done == old(self).upstream_done,
            final(self).finished == old(self).finished,
            final(self).max_ts == old(self).max_ts,
            final(self).admitted == old(self).admitted,
            (r is Rejected) <==> !(old(self).current matches Some(c)
                && c.acc.slots_view()[token.neuron_id as int] is None),
            r is Rejected ==> *final(self) == *old(self),
            (r is Accepted) <==> (old(self).current matches Some(c) && (
            c.acc.slots_view()[token.neuron_id as int] is None && !row_complete(
                c.acc.slots_view().update(token.neuron_id as int, Some((fired, activation))),
            ))),
            r is Accepted ==> (old(self).current matches Some(c) && (
            final(self).current matches Some(c2) && (c2.ts == c.ts && c2.inputs == c.inputs
                && c2.from_feedback == c.from_feedback && c2.acc.slots_view()
                == c.acc.slots_view().update(token.neuron_id as int, Some((fired, activation))))
                && final(self).pending == old(self).pending)),
            (r is Completed) <==> (old(self).current matches Some(c) && (
            c.acc.slots_view()[token.neuron_id as int] is None && row_complete(
                c.acc.slots_view().update(token.neuron_id as int, Some((fired, activation))),
            ))),
            r matches CommitOutcome::Completed(ts, outs) ==> (old(
                self).current matches Some(c) && (ts == c.ts && final(self).current is None
                && outputs_match(
                c.acc.slots_view().update(token.neuron_id as int, Some((fired, activation))),
                outs@,
            ) && outs@.len() == old(self).n_neurons && old(self).admitted@.len() > 0 && ts == old(
                self).admitted@.last() && (if row_any_fired(
                c.acc.slots_view().update(token.neuron_id as int, Some((fired, activation))),
            ) && !c.from_feedback {
                exists|k: int, v: Vec<M::Scalar>|
                    #![trigger old(self).pending.entries_view().insert(k, (ts, (v, true)))]
                    0 <= k <= old(self).pending.entries_view().len() && v@.len() == old(
                        self).n_neurons && final(self).pending.entries_view() == old(
                        self).pending.entries_view().insert(k, (ts, (v, true))) && (forall|j: int|
                        0 <= j < k ==> (#[trigger] old(self).pending.entries_view()[j]).0 <= ts)
                        && (k < old(self).pending.entries_view().len() ==> old(
                        self).pending.entries_view()[k].0 > ts)
            } else {
                final(self).pending == old(self).pending
            }))),
    {
        let complete = match &mut self.current {
            None => {
                return CommitOutcome::Rejected;
            },
            Some(cur) => {
                if !cur.acc.slot_is_empty(token.neuron_id) {
                    return CommitOutcome::Rejected;
                }
                cur.acc.commit(token, (fired, activation));
                cur.acc.is_complete()
            },
        };
        if !complete {
            return CommitOutcome::Accepted;
        }
        let cur = match self.current.take() {
            Some(c) => c,
            None => {
                return CommitOutcome::Rejected;
            },
        };
        let ghost slots = cur.acc.slots_view();
        let mut row = cur.acc.take();
        let ghost row0 = row@;
        let mut outs: Vec<M::Scalar> = Vec::new();
        let mut any_fired = false;
        while row.len() > 0
            invariant
                outs@.len() + row@.len() == row0.len(),
                row@ == row0.skip(outs@.len() as int),
                forall|j: int|
                    0 <= j < outs@.len() ==> (row0[j].0 ==> (#[trigger] outs@[j]) == row0[j].1),
                any_fired == exists|j: int| 0 <= j < outs@.len() && (#[trigger] row0[j].0),
            decreases row@.len(),
        {
            let ghost k = outs@.len() as int;
            let (f, a) = row.remove(0);
            proof {
                assert(row0.skip(k).remove(0) =~= row0.skip(k + 1));
                assert((f, a) == row0[k]);
            }
            if f {
                any_fired = true;
                outs.push(a);
            } else {
                outs.push(M::zero_input());
            }
        }
        proof {
            assert forall|i: int| 0 <= i < slots.len() implies (#[trigger] slots[i]) == Some(
                row0[i],
            ) by {}
            assert(any_fired == row_any_fired(slots)) by {
                if any_fired {
                    let j = choose|j: int| 0 <= j < outs@.len() && (#[trigger] row0[j].0);
                    assert(slots[j] matches Some(p) && p.0);
                }
                if row_any_fired(slots) {
                    let i = choose|i: int|
                        0 <= i < slots.len() && ((#[trigger] slots[i]) matches Some(p) && p.0);
                    assert(row0[i].0);
                }
            }
        }
        if any_fired && !cur.from_feedback {
            let feedback = weighted_sums::<M>(&outs, &self.intra_weights, self.n_neurons);
            let ghost before_push = self.pending.entries_view();
            self.pending.push_feedback(cur.ts, (feedback, true));
            proof {
                let after = self.pending.entries_view();
                let k = choose|k: int|
                    0 <= k <= before_push.len() && after == before_push.insert(
                        k,
                        (cur.ts, (feedback, true)),
                    ) && (forall|j: int| 0 <= j < k ==> (#[trigger] before_push[j]).0 <= cur.ts)
                        && (k < before_push.len() ==> before_push[k].0 > cur.ts);
                assert forall|j: int| 0 <= j < after.len() implies (#[trigger] after[j]).1.0@.len()
                    == self.n_neurons by {
                    if j < k {
                        assert(after[j] == before_push[j]);
                    } else if j == k {
                    } else {
                        assert(after[j] == before_push[j - 1]);
                    }
                }
                assert forall|j: int| 0 <= j < after.len() implies (self.max_ts matches Some(m)
                    && (#[trigger] after[j]).0 <= m) by {
                    if j < k {
                        assert(after[j] == before_push[j]);
                    } else if j == k {
                        assert(after[j].0 == cur.ts);
                    } else {
                        assert(after[j] == before_push[j - 1]);
                    }
                }
                assert forall|j: int| 0 <= j < after.len() implies self.admitted@.last() <= (
                #[trigger] after[j]).0 by {
                    if j < k {
                        assert(after[j] == before_push[j]);
                    } else if j == k {
                        assert(after[j].0 == cur.ts);
                    } else {
                        assert(after[j] == before_push[j - 1]);
                    }
                }
            }
        }
        CommitOutcome::Completed(cur.ts, outs)
    }
}

} // verus!
