//! The entry layer's decision logic: consume the pending feedback vector
//! if one is due, else the next external spike, weighted by that neuron's
//! own entry weight; update the neurons; collect a row on firing; and
//! schedule exactly one intra-layer feedback pass at the same timestamp
//! before the next external spike is consumed.

use vstd::prelude::*;

verus! {

use crate::model::NeuronModel;
use crate::network::{weighted_sums, Layer};
use crate::solver::valid_input_spikes;
use crate::spike::Spike;

/// Drive the entry layer over the whole input spike train and return the
/// rows it emits, in order: each row is one timestep's sparse fired vector
/// (one entry per entry neuron), its timestamp is the timestamp of some
/// input spike, and the timestamps never decrease.
pub fn run_entry_layer<M: NeuronModel>(entry: &Layer<M>, spikes: &Vec<Spike>) -> (r: Vec<
    (u128, Vec<M::Scalar>),
>)
    requires
        entry.well_formed(entry.neurons@.len() as nat),
        valid_input_spikes(spikes@, entry.neurons@.len() as nat),
    ensures
        forall|k: int| 0 <= k < r@.len() ==> (#[trigger] r@[k]).1@.len() == entry.neurons@.len(),
        forall|k: int|
            0 <= k < r@.len() ==> exists|j: int|
                0 <= j < spikes@.len() && (#[trigger] r@[k]).0 == spikes@[j].ts,
        forall|a: int, b: int|
            0 <= a < b < r@.len() ==> (#[trigger] r@[a]).0 <= (#[trigger] r@[b]).0,
{
    let n = entry.neurons.len();
    let mut vars: Vec<M::SolverVars> = Vec::new();
    let mut i: usize = 0;
    while i < n
        invariant
            i <= n,
            n == entry.neurons@.len(),
            vars@.len() == i,
        decreases n - i,
    {
        vars.push(M::init_vars(&entry.neurons[i]));
        i += 1;
    }
    let mut out: Vec<(u128, Vec<M::Scalar>)> = Vec::new();
    let mut feedback: Option<Vec<M::Scalar>> = None;
    let mut idx: usize = 0;
    let mut cur_ts: u128 = 0;
    while idx < spikes.len() || feedback.is_some()
        invariant
            idx <= spikes@.len(),
            n == entry.neurons@.len(),
            entry.well_formed(n as nat),
            valid_input_spikes(spikes@, n as nat),
            vars@.len() == n,
            feedback matches Some(fb) ==> fb@.len() == n,
            feedback is Some ==> idx > 0,
            idx > 0 ==> cur_ts == spikes@[idx - 1].ts,
            out@.len() > 0 ==> idx > 0,
            forall|k: int| 0 <= k < out@.len() ==> (#[trigger] out@[k]).1@.len() == n,
            forall|k: int|
                0 <= k < out@.len() ==> exists|j: int|
                    0 <= j < idx && (#[trigger] out@[k]).0 == spikes@[j].ts,
            forall|k: int| 0 <= k < out@.len() ==> (#[trigger] out@[k]).0 <= cur_ts,
            forall|a: int, b: int|
                0 <= a < b < out@.len() ==> (#[trigger] out@[a]).0 <= (#[trigger] out@[b]).0,
        decreases (spikes@.len() - idx) * 2 + (if feedback is Some {
            1int
        } else {
            0
        }),
    {
        match feedback.take() {
            Some(fb) => {
                let mut any = false;
                let mut acts: Vec<M::Scalar> = Vec::new();
                let mut i2: usize = 0;
                while i2 < n
                    invariant
                        i2 <= n,
                        n == entry.neurons@.len(),
                        vars@.len() == n,
                        fb@.len() == n,
                        acts@.len() == i2,
                    decreases n - i2,
                {
                    let act = M::handle_spike(&entry.neurons[i2], &mut vars[i2], &fb[i2], cur_ts);
                    if M::fired(&act) {
                        any = true;
                        acts.push(act);
                    } else {
                        acts.push(M::zero_input());
                    }
                    i2 += 1;
                }
                if any {
                    out.push((cur_ts, acts));
                }
                // exactly one feedback pass per timestep: none rescheduled
            },
            None => {
                let spike = spikes[idx];
                let ghost prev_ts = cur_ts;
                cur_ts = spike.ts;
                proof {
                    if idx > 0 {
                        assert(spikes@[idx - 1].ts <= spikes@[idx as int].ts);
                    }
                }
                let act = M::handle_spike(
                    &entry.neurons[spike.neuron_id],
                    &mut vars[spike.neuron_id],
                    &entry.input_weights[spike.neuron_id][spike.neuron_id],
                    spike.ts,
                );
                if M::fired(&act) {
                    let mut acts: Vec<M::Scalar> = Vec::new();
                    let mut i3: usize = 0;
                    while i3 < n
                        invariant
                            i3 <= n,
                            acts@.len() == i3,
                        decreases n - i3,
                    {
                        acts.push(M::zero_input());
                        i3 += 1;
                    }
                    let slot = &mut acts[spike.neuron_id];
                    *slot = act;
                    let fb = weighted_sums::<M>(&acts, &entry.intra_weights, n);
                    feedback = Some(fb);
                    out.push((spike.ts, acts));
                }
                idx += 1;
            },
        }
    }
    out
}

} // verus!
