//! The immutable network: ordered layers of neurons, each with the weight
//! matrix mapping the previous stage's output into the layer and a square
//! intra-layer weight matrix. Built once, read-only for both solvers.

use vstd::prelude::*;

verus! {

use crate::model::{NeuronModel, SnnError};

/// `m` is a matrix of `rows` rows, each of `cols` entries.
pub open spec fn matrix_shape<T>(m: Seq<Vec<T>>, rows: nat, cols: nat) -> bool {
    m.len() == rows && forall|i: int| 0 <= i < rows ==> (#[trigger] m[i])@.len() == cols
}

/// The row vector `values` (one entry per upstream neuron) times the weight
/// matrix (`values.len()` rows by `cols` columns): entry `i` accumulates
/// every upstream activation through its weight into neuron `i`. This is
/// the inter-layer conversion a layer manager applies to each upstream
/// event, and the pipeline must use it rather than its own arithmetic.
pub fn weighted_sums<M: NeuronModel>(
    values: &Vec<M::Scalar>,
    weights: &Vec<Vec<M::Scalar>>,
    cols: usize,
) -> (r: Vec<M::Scalar>)
    requires
        matrix_shape(weights@, values@.len() as nat, cols as nat),
    ensures
        r@.len() == cols,
{
    let mut r: Vec<M::Scalar> = Vec::new();
    let mut i: usize = 0;
    while i < cols
        invariant
            i <= cols,
            r@.len() == i,
            matrix_shape(weights@, values@.len() as nat, cols as nat),
        decreases cols - i,
    {
        let mut acc: M::Scalar = M::zero_input();
        let mut j: usize = 0;
        while j < values.len()
            invariant
                j <= values@.len(),
                i < cols,
                matrix_shape(weights@, values@.len() as nat, cols as nat),
            decreases values@.len() - j,
        {
            acc = M::weigh(acc, &values[j], &weights[j][i]);
            j += 1;
        }
        r.push(acc);
        i += 1;
    }
    r
}

/// One layer: its neurons, the weight matrix mapping the previous stage's
/// per-neuron output into this layer's per-neuron input, and the square
/// intra-layer feedback weight matrix.
pub struct Layer<M: NeuronModel> {
    pub neurons: Vec<M::Neuron>,
    pub input_weights: Vec<Vec<M::Scalar>>,
    pub intra_weights: Vec<Vec<M::Scalar>>,
}

impl<M: NeuronModel> Layer<M> {
    /// The layer's matrices fit its neuron count: `input_weights` maps a
    /// stage of `prev_dim` outputs onto this layer, `intra_weights` is
    /// square over this layer.
    pub open spec fn well_formed(self, prev_dim: nat) -> bool {
        &&& self.neurons@.len() > 0
        &&& matrix_shape(self.input_weights@, prev_dim, self.neurons@.len() as nat)
        &&& matrix_shape(self.intra_weights@, self.neurons@.len() as nat, self.neurons@.len() as nat)
    }

    /// Bundle neurons with their two weight matrices.
    pub fn new(
        neurons: Vec<M::Neuron>,
        input_weights: Vec<Vec<M::Scalar>>,
        intra_weights: Vec<Vec<M::Scalar>>,
    ) -> (r: Layer<M>)
        ensures
            r.neurons == neurons,
            r.input_weights == input_weights,
            r.intra_weights == intra_weights,
    {
        Layer { neurons, input_weights, intra_weights }
    }

    /// Exec mirror of `well_formed`.
    pub fn check_well_formed(&self, prev_dim: usize) -> (r: bool)
        ensures
            r == self.well_formed(prev_dim as nat),
    {
        let n = self.neurons.len();
        if n == 0 {
            return false;
        }
        if self.input_weights.len() != prev_dim {
            return false;
        }
        let mut i: usize = 0;
        while i < self.input_weights.len()
            invariant
                i <= self.input_weights@.len(),
                n == self.neurons@.len(),
                self.input_weights@.len() == prev_dim,
                forall|k: int| 0 <= k < i ==> (#[trigger] self.input_weights@[k])@.len()
                    == self.neurons@.len(),
            decreases self.input_weights@.len() - i,
        {
            if self.input_weights[i].len() != n {
                return false;
            }
            i += 1;
        }
        if self.intra_weights.len() != n {
            return false;
        }
        let mut j: usize = 0;
        while j < self.intra_weights.len()
            invariant
                j <= self.intra_weights@.len(),
                n == self.neurons@.len(),
                self.intra_weights@.len() == self.neurons@.len(),
                forall|k: int| 0 <= k < j ==> (#[trigger] self.intra_weights@[k])@.len()
                    == self.neurons@.len(),
            decreases self.intra_weights@.len() - j,
        {
            if self.intra_weights[j].len() != n {
                return false;
            }
            j += 1;
        }
        true
    }
}

/// The neural network: a non-empty ordered sequence of layers. The entry
/// layer's `input_weights` maps external per-neuron pulses onto the layer
/// (a square matrix over the entry layer), every later layer's maps the
/// previous layer's output onto it.
pub struct NN<M: NeuronModel> {
    pub layers: Vec<Layer<M>>,
}

impl<M: NeuronModel> NN<M> {
    /// The dimension feeding layer `l`: the entry layer is fed at its own
    /// width, every later layer at the width of the one before it.
    pub open spec fn prev_dim(self, l: int) -> nat {
        if l == 0 {
            self.layers@[0].neurons@.len() as nat
        } else {
            self.layers@[l - 1].neurons@.len() as nat
        }
    }

    /// At least one layer, and every layer's matrices fit.
    pub open spec fn well_formed(self) -> bool {
        &&& self.layers@.len() >= 1
        &&& forall|l: int| 0 <= l < self.layers@.len() ==> (#[trigger] self.layers@[l]).well_formed(
            self.prev_dim(l),
        )
    }

    /// Number of neurons in the entry layer.
    pub open spec fn spec_entry_dim(self) -> nat {
        self.layers@[0].neurons@.len() as nat
    }

    /// Number of neurons in the last layer.
    pub open spec fn spec_output_dim(self) -> nat {
        self.layers@[self.layers@.len() - 1].neurons@.len() as nat
    }

    /// Assemble a network, rejecting mismatched matrix shapes before any
    /// solve can start.
    pub fn new(layers: Vec<Layer<M>>) -> (r: Result<NN<M>, SnnError>)
        ensures
            (r matches Ok(_)) <==> (NN::<M> { layers }).well_formed(),
            r matches Ok(nn) ==> nn == (NN::<M> { layers }),
            !(NN::<M> { layers }).well_formed() ==> r == Err::<NN<M>, SnnError>(
                SnnError::ConfigurationError,
            ),
    {
        let nn = NN { layers };
        if nn.check_well_formed() {
            Ok(nn)
        } else {
            Err(SnnError::ConfigurationError)
        }
    }

    /// Exec mirror of `well_formed`.
    pub fn check_well_formed(&self) -> (r: bool)
        ensures
            r == self.well_formed(),
    {
        if self.layers.len() == 0 {
            return false;
        }
        let mut prev: usize = self.layers[0].neurons.len();
        let mut l: usize = 0;
        while l < self.layers.len()
            invariant
                l <= self.layers@.len(),
                self.layers@.len() >= 1,
                prev == self.prev_dim(l as int),
                forall|k: int| 0 <= k < l ==> (#[trigger] self.layers@[k]).well_formed(
                    self.prev_dim(k),
                ),
            decreases self.layers@.len() - l,
    {
            if !self.layers[l].check_well_formed(prev) {
                return false;
            }
            prev = self.layers[l].neurons.len();
            l += 1;
        }
        true
    }

    /// Number of neurons in the entry layer.
    pub fn entry_dim(&self) -> (r: usize)
        requires
            self.well_formed(),
        ensures
            r == self.spec_entry_dim(),
    {
        self.layers[0].neurons.len()
    }

    /// Number of neurons in the last layer.
    pub fn output_dim(&self) -> (r: usize)
        requires
            self.well_formed(),
        ensures
            r == self.spec_output_dim(),
    {
        self.layers[self.layers.len() - 1].neurons.len()
    }
}

} // verus!
