//! The model capability: the closed contract a neuron variant satisfies so
//! that the solvers can drive it, the error kinds of the core, and the rule
//! assigning one configuration to each neuron of a layer.

use vstd::prelude::*;

verus! {

/// The error kinds of the core. A configuration mismatch is fatal before a
/// solve starts; malformed input is rejected at the solve boundary before
/// any propagation happens.
#[derive(Clone, Copy, PartialEq, Eq, Structural, Debug)]
pub enum SnnError {
    /// A neuron-configuration list does not fit the requested layer size.
    ConfigurationError,
    /// Input spikes are unsorted or name a neuron out of range.
    MalformedInput,
}

/// The pluggable neuron-update capability. A model brings its own neuron
/// description, its own mutable per-neuron solver state, and its own scalar
/// domain for weights and activations; the solvers only route values. The
/// update must be deterministic in state, input and timestamp: that is what
/// lets two execution strategies agree on the same network and input.
pub trait NeuronModel: Sized {
    /// Static description of one neuron.
    type Neuron;

    /// Mutable per-neuron variables, exclusively owned during a solve.
    type SolverVars;

    /// Weights and activations.
    type Scalar;

    /// Fresh solver variables derived from a neuron's static description.
    fn init_vars(neuron: &Self::Neuron) -> Self::SolverVars;

    /// One neuron update: consume the weighted input due at `ts`, mutate the
    /// neuron's private variables, and report the activation.
    fn handle_spike(
        neuron: &Self::Neuron,
        vars: &mut Self::SolverVars,
        weighted_input: &Self::Scalar,
        ts: u128,
    ) -> Self::Scalar;

    /// The fixed firing rule mapping an activation to a spiked flag.
    fn fired(activation: &Self::Scalar) -> bool;

    /// The weighted input of a silent synapse: the additive neutral scalar.
    fn zero_input() -> Self::Scalar;

    /// The scalar standing for one external input spike before weighting.
    fn input_pulse() -> Self::Scalar;

    /// `acc` plus the contribution of `activation` through `weight`: the
    /// elementary step of a dot product against a weight matrix.
    fn weigh(acc: Self::Scalar, activation: &Self::Scalar, weight: &Self::Scalar) -> Self::Scalar;
}

/// Which configuration each neuron of a layer takes. One single
/// configuration replicates across all `n_neurons` neurons; a list of
/// exactly `n_neurons` configurations is used one-to-one, in order; a list
/// of any other length is rejected.
pub fn config_indices(n_configs: usize, n_neurons: usize) -> (r: Result<Vec<usize>, SnnError>)
    ensures
        (r matches Ok(_)) <==> (n_configs == 1 || n_configs == n_neurons),
        r matches Ok(plan) ==> plan@.len() == n_neurons && forall|k: int|
            0 <= k < n_neurons ==> plan@[k] == (if n_configs == 1 {
                0int
            } else {
                k
            }),
        !(n_configs == 1 || n_configs == n_neurons) ==> r == Err::<Vec<usize>, SnnError>(
            SnnError::ConfigurationError,
        ),
{
    if n_configs != 1 && n_configs != n_neurons {
        return Err(SnnError::ConfigurationError);
    }
    let mut plan: Vec<usize> = Vec::new();
    let mut i: usize = 0;
    while i < n_neurons
        invariant
            i <= n_neurons,
            plan@.len() == i,
            forall|k: int| 0 <= k < i ==> plan@[k] == (if n_configs == 1 {
                0int
            } else {
                k
            }),
        decreases n_neurons - i,
    {
        if n_configs == 1 {
            plan.push(0);
        } else {
            plan.push(i);
        }
        i += 1;
    }
    Ok(plan)
}

} // verus!
