//! Core of a spiking neural network simulator: timestamp-ordered spike
//! streams, a model-polymorphic network description, a single-threaded
//! reference solver, and the decision core of a layer manager — event
//! admission in timestamp order, an all-or-nothing commit barrier, and one
//! intra-layer feedback pass per timestep — all with verified contracts.
//! The floating-point neuron fixture and the thread-per-neuron pipeline
//! live outside the verified core and drive it through the types and
//! functions exported here.

mod entry;
mod manager;
mod model;
mod network;
mod solver;
mod spike;
mod sync;

pub use entry::run_entry_layer;
pub use manager::CommitOutcome;
pub use manager::CurrentStep;
pub use manager::LayerManagerCore;
pub use manager::PollNext;
pub use manager::outputs_match;
pub use manager::row_any_fired;
pub use manager::row_complete;
pub use model::NeuronModel;
pub use model::SnnError;
pub use model::config_indices;
pub use network::Layer;
pub use network::NN;
pub use network::matrix_shape;
pub use network::weighted_sums;
pub use solver::SimulatedNN;
pub use solver::expand_fired_row;
pub use solver::SimulatedNeuron;
pub use solver::Solver;
pub use solver::collect_output;
pub use solver::drawn_from;
pub use solver::fired_column;
pub use solver::firing_times;
pub use solver::mirrors;
pub use solver::ts_list_sorted;
pub use solver::valid_input_spikes;
pub use solver::validate_input_spikes;
pub use spike::Spike;
pub use spike::flatten_rows;
pub use spike::lemma_resort_noop;
pub use spike::lemma_sorted_arrangement_unique;
pub use spike::lemma_spike_le_total;
pub use spike::spike_le;
pub use spike::spike_leq;
pub use spike::spikes_of;
pub use spike::spikes_sorted;
pub use sync::CommitAccumulator;
pub use sync::PendingQueue;
pub use sync::Token;
