//! The single-threaded reference solver: the correctness oracle for the
//! pipeline. It carries each input spike through the network layer by
//! layer — weight, update every neuron, apply one intra-layer feedback
//! pass — and collects, per output neuron, its ordered firing timestamps.

use vstd::prelude::*;

verus! {

use crate::model::{NeuronModel, SnnError};
use crate::network::{weighted_sums, NN};
use crate::spike::Spike;

/// A `u128` timestamp list is non-decreasing.
pub open spec fn ts_list_sorted(s: Seq<u128>) -> bool {
    forall|a: int, b: int| 0 <= a < b < s.len() ==> s[a] <= s[b]
}

/// Input accepted at the solve boundary: timestamps non-decreasing, every
/// neuron id within the entry layer.
pub open spec fn valid_input_spikes(s: Seq<Spike>, entry_dim: nat) -> bool {
    &&& forall|a: int, b: int| 0 <= a < b < s.len() ==> (#[trigger] s[a]).ts <= (#[trigger] s[b]).ts
    &&& forall|k: int| 0 <= k < s.len() ==> (#[trigger] s[k]).neuron_id < entry_dim
}

/// The mutable variables of one neuron during a solve, kept apart from the
/// immutable network so the network is never written.
pub struct SimulatedNeuron<M: NeuronModel> {
    pub vars: M::SolverVars,
}

impl<M: NeuronModel> SimulatedNeuron<M> {
    /// Fresh solver variables for `neuron`, via the model capability.
    pub fn new(neuron: &M::Neuron) -> SimulatedNeuron<M> {
        SimulatedNeuron { vars: M::init_vars(neuron) }
    }
}

/// The mutable counterpart of a whole network: one `SimulatedNeuron` per
/// neuron, layer by layer.
pub struct SimulatedNN<M: NeuronModel> {
    pub layers: Vec<Vec<SimulatedNeuron<M>>>,
}

impl<M: NeuronModel> SimulatedNN<M> {
    /// An empty simulated network.
    pub fn new() -> (r: SimulatedNN<M>)
        ensures
            r.layers@.len() == 0,
    {
        SimulatedNN { layers: Vec::new() }
    }

    /// Append the simulated neurons of one more layer.
    pub fn add_layer(&mut self, layer: Vec<SimulatedNeuron<M>>)
        ensures
            final(self).layers@ == old(self).layers@.push(layer),
    {
        self.layers.push(layer);
    }
}

/// `sim` has exactly the shape of `network`: one entry per neuron.
pub open spec fn mirrors<M: NeuronModel>(sim: SimulatedNN<M>, network: NN<M>) -> bool {
    &&& sim.layers@.len() == network.layers@.len()
    &&& forall|l: int| 0 <= l < network.layers@.len() ==> (#[trigger] sim.layers@[l])@.len()
        == network.layers@[l].neurons@.len()
}

/// Check the input spikes at the solve boundary: non-decreasing timestamps
/// and neuron ids within the entry layer.
pub fn validate_input_spikes(spikes: &Vec<Spike>, entry_dim: usize) -> (r: bool)
    ensures
        r == valid_input_spikes(spikes@, entry_dim as nat),
{
    let mut i: usize = 0;
    while i < spikes.len()
        invariant
            i <= spikes@.len(),
            forall|k: int| 0 <= k < i ==> (#[trigger] spikes@[k]).neuron_id < entry_dim,
            forall|k: int| 0 <= k + 1 <= i && k >= 0 && k + 1 < spikes@.len() ==> (
            #[trigger] spikes@[k]).ts <= spikes@[k + 1].ts,
        decreases spikes@.len() - i,
    {
        if spikes[i].neuron_id >= entry_dim {
            return false;
        }
        if i + 1 < spikes.len() {
            if spikes[i].ts > spikes[i + 1].ts {
                return false;
            }
        }
        i += 1;
    }
    proof {
        assert forall|a: int, b: int| 0 <= a < b < spikes@.len() implies (
        #[trigger] spikes@[a]).ts <= (#[trigger] spikes@[b]).ts by {
            lemma_adjacent_ts_sorted(spikes@, a, b);
        }
    }
    true
}

/// Adjacent order extends to any two positions.
proof fn lemma_adjacent_ts_sorted(s: Seq<Spike>, a: int, b: int)
    requires
        forall|k: int| 0 <= k && k + 1 < s.len() ==> (#[trigger] s[k]).ts <= s[k + 1].ts,
        0 <= a <= b < s.len(),
    ensures
        s[a].ts <= s[b].ts,
    decreases b - a,
{
    if a < b {
        lemma_adjacent_ts_sorted(s, a, b - 1);
        assert(s[b - 1].ts <= s[b].ts);
    }
}

/// Timestamps of the neurons that fired at `ts`: the firing slots carry
/// `ts`, the silent ones the sentinel `u128::MAX`.
pub fn firing_times(fired: &Vec<bool>, ts: u128) -> (r: Vec<u128>)
    ensures
        r@.len() == fired@.len(),
        forall|i: int| 0 <= i < fired@.len() ==> r@[i] == (if fired@[i] {
            ts
        } else {
            u128::MAX
        }),
{
    let mut r: Vec<u128> = Vec::new();
    let mut i: usize = 0;
    while i < fired.len()
        invariant
            i <= fired@.len(),
            r@.len() == i,
            forall|k: int| 0 <= k < i ==> r@[k] == (if fired@[k] {
                ts
            } else {
                u128::MAX
            }),
        decreases fired@.len() - i,
    {
        if fired[i] {
            r.push(ts);
        } else {
            r.push(u128::MAX);
        }
        i += 1;
    }
    r
}

/// Expand one released row into spikes: one `Spike` at `ts` for every
/// neuron whose slot fired, in neuron order, and for no other neuron.
pub fn expand_fired_row(ts: u128, fired: &Vec<bool>) -> (r: Vec<Spike>)
    ensures
        forall|k: int| 0 <= k < r@.len() ==> (#[trigger] r@[k]).ts == ts,
        forall|k: int| 0 <= k < r@.len() ==> (#[trigger] r@[k]).neuron_id < fired@.len(),
        forall|a: int, b: int|
            0 <= a < b < r@.len() ==> (#[trigger] r@[a]).neuron_id < (
            #[trigger] r@[b]).neuron_id,
        forall|i: int|
            0 <= i < fired@.len() ==> (fired@[i] <==> exists|k: int|
                0 <= k < r@.len() && (#[trigger] r@[k]).neuron_id == i),
{
    let mut r: Vec<Spike> = Vec::new();
    let mut i: usize = 0;
    while i < fired.len()
        invariant
            i <= fired@.len(),
            forall|k: int| 0 <= k < r@.len() ==> (#[trigger] r@[k]).ts == ts,
            forall|k: int| 0 <= k < r@.len() ==> (#[trigger] r@[k]).neuron_id < i,
            forall|k: int| 0 <= k < r@.len() ==> fired@[(#[trigger] r@[k]).neuron_id as int],
            forall|a: int, b: int|
                0 <= a < b < r@.len() ==> (#[trigger] r@[a]).neuron_id < (
                #[trigger] r@[b]).neuron_id,
            forall|j: int|
                0 <= j < i && fired@[j] ==> exists|k: int|
                    0 <= k < r@.len() && (#[trigger] r@[k]).neuron_id == j,
        decreases fired@.len() - i,
    {
        if fired[i] {
            let ghost before = r@;
            r.push(Spike::new(ts, i));
            proof {
                assert(r@[before.len() as int].neuron_id == i);
                assert forall|j: int|
                    0 <= j < i + 1 && fired@[j] implies exists|k: int|
                    0 <= k < r@.len() && (#[trigger] r@[k]).neuron_id == j by {
                    if j < i {
                        let k0 = choose|k0: int|
                            0 <= k0 < before.len() && (#[trigger] before[k0]).neuron_id == j;
                        assert(r@[k0].neuron_id == j);
                    } else {
                        assert(r@[before.len() as int].neuron_id == j);
                    }
                }
            }
        }
        i += 1;
    }
    proof {
        assert forall|i2: int|
            0 <= i2 < fired@.len() && !fired@[i2] implies !(exists|k: int|
            0 <= k < r@.len() && (#[trigger] r@[k]).neuron_id == i2) by {
            if exists|k: int| 0 <= k < r@.len() && (#[trigger] r@[k]).neuron_id == i2 {
                let k = choose|k: int| 0 <= k < r@.len() && (#[trigger] r@[k]).neuron_id == i2;
                assert(fired@[r@[k].neuron_id as int]);
            }
        }
    }
    r
}

/// Column `i` of the per-spike result rows, keeping only the slots that
/// fired: the ordered firing timestamps of output neuron `i`.
pub open spec fn fired_column(rows: Seq<Seq<u128>>, i: int) -> Seq<u128>
    decreases rows.len(),
{
    if rows.len() == 0 {
        Seq::empty()
    } else {
        let rest = fired_column(rows.drop_last(), i);
        if rows.last()[i] != u128::MAX {
            rest.push(rows.last()[i])
        } else {
            rest
        }
    }
}

/// Regroup per-spike result rows (one entry per output neuron, the sentinel
/// `u128::MAX` marking a silent neuron) into one timestamp list per output
/// neuron, keeping row order.
pub fn collect_output(rows: &Vec<Vec<u128>>, n_out: usize) -> (r: Vec<Vec<u128>>)
    requires
        forall|k: int| 0 <= k < rows@.len() ==> (#[trigger] rows@[k])@.len() == n_out,
    ensures
        r@.len() == n_out,
        forall|i: int| 0 <= i < n_out ==> (#[trigger] r@[i])@ == fired_column(
            rows@.map_values(|v: Vec<u128>| v@),
            i,
        ),
{
    let ghost rws = rows@.map_values(|v: Vec<u128>| v@);
    let mut r: Vec<Vec<u128>> = Vec::new();
    while r.len() < n_out
        invariant
            r@.len() <= n_out,
            forall|i: int| 0 <= i < r@.len() ==> (#[trigger] r@[i])@ == Seq::<u128>::empty(),
        decreases n_out - r@.len(),
    {
        r.push(Vec::new());
    }
    let mut k: usize = 0;
    while k < rows.len()
        invariant
            k <= rows@.len(),
            rws == rows@.map_values(|v: Vec<u128>| v@),
            forall|k2: int| 0 <= k2 < rows@.len() ==> (#[trigger] rows@[k2])@.len() == n_out,
            r@.len() == n_out,
            forall|i: int| 0 <= i < n_out ==> (#[trigger] r@[i])@ == fired_column(
                rws.subrange(0, k as int),
                i,
            ),
        decreases rows@.len() - k,
    {
        let row = &rows[k];
        let ghost pre = rws.subrange(0, k as int);
        let ghost cur = rws.subrange(0, k as int + 1);
        proof {
            assert(cur.drop_last() =~= pre);
            assert(cur.last() == rws[k as int]);
        }
        let mut i: usize = 0;
        while i < n_out
            invariant
                i <= n_out,
                r@.len() == n_out,
                k < rows@.len(),
                rws == rows@.map_values(|v: Vec<u128>| v@),
                row@ == rws[k as int],
                row@.len() == n_out,
                pre == rws.subrange(0, k as int),
                cur == rws.subrange(0, k as int + 1),
                cur.drop_last() == pre,
                cur.last() == rws[k as int],
                forall|ii: int| 0 <= ii < i ==> (#[trigger] r@[ii])@ == fired_column(cur, ii),
                forall|ii: int| i <= ii < n_out ==> (#[trigger] r@[ii])@ == fired_column(pre, ii),
            decreases n_out - i,
        {
            if row[i] != u128::MAX {
                let v = row[i];
                r[i].push(v);
            }
            i += 1;
        }
        k += 1;
    }
    proof {
        assert(rws.subrange(0, rws.len() as int) =~= rws);
    }
    r
}

/// Every entry of `col` is one of the timestamps in `tss`.
pub open spec fn drawn_from(col: Seq<u128>, tss: Seq<u128>) -> bool {
    forall|j: int|
        #![trigger col[j]]
        0 <= j < col.len() ==> exists|k: int| 0 <= k < tss.len() && col[j] == tss[k]
}

/// Every column drawn from rows whose entries are either the row's own
/// timestamp or the sentinel is itself sorted, and only holds timestamps of
/// the given list.
proof fn lemma_fired_column_props(rows: Seq<Seq<u128>>, tss: Seq<u128>, i: int)
    requires
        rows.len() == tss.len(),
        0 <= i,
        forall|k: int| 0 <= k < rows.len() ==> i < (#[trigger] rows[k]).len(),
        forall|k: int| 0 <= k < rows.len() ==> ((#[trigger] rows[k])[i] == tss[k] || rows[k][i]
            == u128::MAX),
        forall|a: int, b: int| 0 <= a < b < tss.len() ==> tss[a] <= tss[b],
    ensures
        ts_list_sorted(fired_column(rows, i)),
        drawn_from(fired_column(rows, i), tss),
        fired_column(rows, i).len() <= rows.len(),
    decreases rows.len(),
{
    if rows.len() > 0 {
        let shorter = rows.drop_last();
        let ts_shorter = tss.drop_last();
        lemma_fired_column_props(shorter, ts_shorter, i);
        let rest = fired_column(shorter, i);
        let col = fired_column(rows, i);
        assert forall|j: int| #![trigger col[j]] 0 <= j < col.len() implies exists|k: int|
            0 <= k < tss.len() && col[j] == tss[k] by {
            if j < rest.len() {
                assert(col[j] == rest[j]);
                let k = choose|k: int| 0 <= k < ts_shorter.len() && rest[j] == ts_shorter[k];
                assert(tss[k] == ts_shorter[k]);
            } else {
                assert(col[j] == tss[tss.len() - 1]);
            }
        }
        assert forall|a: int, b: int| 0 <= a < b < col.len() implies col[a] <= col[b] by {
            if b < rest.len() {
                assert(rest[a] <= rest[b]);
            } else {
                assert(col[b] == tss[tss.len() - 1]);
                let k = choose|k: int| 0 <= k < ts_shorter.len() && rest[a] == ts_shorter[k];
                assert(col[a] == tss[k]);
                assert(tss[k] <= tss[tss.len() - 1]);
            }
        }
    }
}

/// The entry stage's pulse vector: one external pulse in slot `neuron_id`,
/// silence everywhere else.
fn single_spike_to_vec<M: NeuronModel>(neuron_id: usize, dim: usize) -> (r: Vec<M::Scalar>)
    ensures
        r@.len() == dim,
{
    let mut r: Vec<M::Scalar> = Vec::new();
    let mut i: usize = 0;
    while i < dim
        invariant
            i <= dim,
            r@.len() == i,
        decreases dim - i,
    {
        if i == neuron_id {
            r.push(M::input_pulse());
        } else {
            r.push(M::zero_input());
        }
        i += 1;
    }
    r
}

/// Drives a network over a vector of input spikes, one spike at a time.
pub struct Solver<M: NeuronModel> {
    pub input_spikes: Vec<Spike>,
    pub network: NN<M>,
}

impl<M: NeuronModel> Solver<M> {
    /// A solver over `network`, stimulated by `input_spikes`.
    pub fn new(input_spikes: Vec<Spike>, network: NN<M>) -> (r: Solver<M>)
        ensures
            r.input_spikes == input_spikes,
            r.network == network,
    {
        Solver { input_spikes, network }
    }

    /// A simulated network parallel to the real one, holding only the
    /// mutable per-neuron variables.
    fn init_neuron_vars(network: &NN<M>) -> (r: SimulatedNN<M>)
        ensures
            mirrors(r, *network),
    {
        let mut sim_nn = SimulatedNN::new();
        let mut l: usize = 0;
        while l < network.layers.len()
            invariant
                l <= network.layers@.len(),
                sim_nn.layers@.len() == l,
                forall|k: int| 0 <= k < l ==> (#[trigger] sim_nn.layers@[k])@.len()
                    == network.layers@[k].neurons@.len(),
            decreases network.layers@.len() - l,
        {
            let layer = &network.layers[l];
            let mut sim_layer: Vec<SimulatedNeuron<M>> = Vec::new();
            let mut i: usize = 0;
            while i < layer.neurons.len()
                invariant
                    i <= layer.neurons@.len(),
                    sim_layer@.len() == i,
                decreases layer.neurons@.len() - i,
            {
                sim_layer.push(SimulatedNeuron::new(&layer.neurons[i]));
                i += 1;
            }
            sim_nn.add_layer(sim_layer);
            l += 1;
        }
        sim_nn
    }

    /// Carry one weighted pulse vector through every layer at time `ts`:
    /// weight the incoming vector, update every neuron, assemble the
    /// sparse fired vector (silent slots zeroed), apply exactly one
    /// intra-layer feedback pass with it, and carry it to the next layer.
    /// Returns the last layer's row: `ts` where a neuron fired, the
    /// sentinel `u128::MAX` where it stayed silent.
    fn infer_spike_vec(
        network: &NN<M>,
        sim_network: &mut SimulatedNN<M>,
        spike_vec: Vec<M::Scalar>,
        ts: u128,
    ) -> (out: Vec<u128>)
        requires
            network.well_formed(),
            mirrors(*old(sim_network), *network),
            spike_vec@.len() == network.spec_entry_dim(),
        ensures
            mirrors(*final(sim_network), *network),
            out@.len() == network.spec_output_dim(),
            forall|j: int| 0 <= j < out@.len() ==> out@[j] == ts || out@[j] == u128::MAX,
    {
        let mut out_spikes: Vec<u128> = Vec::new();
        let mut current: Vec<M::Scalar> = spike_vec;
        let mut l: usize = 0;
        while l < network.layers.len()
            invariant
                network.well_formed(),
                mirrors(*sim_network, *network),
                l <= network.layers@.len(),
                current@.len() == network.prev_dim(l as int),
                l > 0 ==> out_spikes@.len() == network.layers@[l - 1].neurons@.len(),
                l > 0 ==> forall|j: int| 0 <= j < out_spikes@.len() ==> out_spikes@[j] == ts
                    || out_spikes@[j] == u128::MAX,
            decreases network.layers@.len() - l,
        {
            let layer = &network.layers[l];
            let n = layer.neurons.len();
            let weighted = weighted_sums::<M>(&current, &layer.input_weights, n);
            let mut activations: Vec<M::Scalar> = Vec::new();
            let mut fired: Vec<bool> = Vec::new();
            let mut i: usize = 0;
            while i < n
                invariant
                    i <= n,
                    l < network.layers@.len(),
                    network.well_formed(),
                    mirrors(*sim_network, *network),
                    layer == network.layers@[l as int],
                    n == layer.neurons@.len(),
                    weighted@.len() == n,
                    activations@.len() == i,
                    fired@.len() == i,
                decreases n - i,
            {
                let act = M::handle_spike(
                    &layer.neurons[i],
                    &mut sim_network.layers[l][i].vars,
                    &weighted[i],
                    ts,
                );
                if M::fired(&act) {
                    fired.push(true);
                    activations.push(act);
                } else {
                    // the sparse fired vector: silent neurons contribute
                    // nothing to the feedback pass or to the next layer
                    fired.push(false);
                    activations.push(M::zero_input());
                }
                i += 1;
            }
            out_spikes = firing_times(&fired, ts);
            current = activations;
            let intra_vals = weighted_sums::<M>(&current, &layer.intra_weights, n);
            let mut i2: usize = 0;
            while i2 < n
                invariant
                    i2 <= n,
                    l < network.layers@.len(),
                    network.well_formed(),
                    mirrors(*sim_network, *network),
                    layer == network.layers@[l as int],
                    n == layer.neurons@.len(),
                    intra_vals@.len() == n,
                decreases n - i2,
            {
                let _feedback_echo = M::handle_spike(
                    &layer.neurons[i2],
                    &mut sim_network.layers[l][i2].vars,
                    &intra_vals[i2],
                    ts,
                );
                i2 += 1;
            }
            l += 1;
        }
        out_spikes
    }

    /// Feed every input spike to its entry-layer neuron, one by one, and
    /// return per output neuron the sorted list of its firing timestamps.
    /// Malformed input — timestamps out of order or a neuron id outside
    /// the entry layer — is rejected before any propagation, and exactly
    /// then. With no input spikes at all the output is empty.
    pub fn solve(&mut self) -> (r: Result<Vec<Vec<u128>>, SnnError>)
        requires
            old(self).network.well_formed(),
        ensures
            *final(self) == *old(self),
            (r matches Ok(_)) <==> valid_input_spikes(
                old(self).input_spikes@,
                old(self).network.spec_entry_dim(),
            ),
            !valid_input_spikes(old(self).input_spikes@, old(self).network.spec_entry_dim())
                ==> r == Err::<Vec<Vec<u128>>, SnnError>(SnnError::MalformedInput),
            r matches Ok(out) ==> ({
                &&& out@.len() == old(self).network.spec_output_dim()
                &&& forall|i: int| 0 <= i < out@.len() ==> ts_list_sorted((#[trigger] out@[i])@)
                &&& forall|i: int| 0 <= i < out@.len() ==> drawn_from(
                    (#[trigger] out@[i])@,
                    old(self).input_spikes@.map_values(|s: Spike| s.ts),
                )
                &&& forall|i: int| 0 <= i < out@.len() ==> (#[trigger] out@[i])@.len() <= old(
                    self).input_spikes@.len()
                &&& old(self).input_spikes@.len() == 0 ==> forall|i: int|
                    0 <= i < out@.len() ==> (#[trigger] out@[i])@.len() == 0
            }),
    {
        let entry_dim = self.network.entry_dim();
        if !validate_input_spikes(&self.input_spikes, entry_dim) {
            return Err(SnnError::MalformedInput);
        }
        let ghost tss = self.input_spikes@.map_values(|s: Spike| s.ts);
        let mut sim_network = Self::init_neuron_vars(&self.network);
        let mut nn_output: Vec<Vec<u128>> = Vec::new();
        let mut s: usize = 0;
        while s < self.input_spikes.len()
            invariant
                s <= self.input_spikes@.len(),
                self.network.well_formed(),
                valid_input_spikes(self.input_spikes@, self.network.spec_entry_dim()),
                tss == self.input_spikes@.map_values(|sp: Spike| sp.ts),
                mirrors(sim_network, self.network),
                nn_output@.len() == s,
                forall|k: int| 0 <= k < s ==> (#[trigger] nn_output@[k])@.len()
                    == self.network.spec_output_dim(),
                forall|k: int, j: int|
                    #![trigger nn_output@[k]@[j]]
                    0 <= k < s && 0 <= j < nn_output@[k]@.len() ==> (nn_output@[k]@[j] == tss[k]
                        || nn_output@[k]@[j] == u128::MAX),
            decreases self.input_spikes@.len() - s,
        {
            let spike = self.input_spikes[s];
            let dim_input = self.network.layers[0].neurons.len();
            let spike_array = single_spike_to_vec::<M>(spike.neuron_id, dim_input);
            let res = Self::infer_spike_vec(&self.network, &mut sim_network, spike_array, spike.ts);
            nn_output.push(res);
            s += 1;
        }
        let out_dim = self.network.output_dim();
        let collected = collect_output(&nn_output, out_dim);
        proof {
            let rws = nn_output@.map_values(|v: Vec<u128>| v@);
            assert forall|i: int| 0 <= i < out_dim implies ts_list_sorted(
                (#[trigger] collected@[i])@,
            ) && drawn_from(collected@[i]@, tss) && collected@[i]@.len() <= tss.len() by {
                lemma_fired_column_props(rws, tss, i);
            }
        }
        Ok(collected)
    }
}

} // verus!
