use snn_core::{config_indices, Layer, NeuronModel, SnnError, Solver, Spike, NN};

/// Reusable parameter block for leaky-integrate-and-fire neurons.
#[derive(Clone, Debug)]
pub struct LifNeuronConfig {
    v_mem: f64,
    v_rest: f64,
    v_reset: f64,
    v_threshold: f64,
    tau: f64,
}

impl LifNeuronConfig {
    pub fn new(v_mem: f64, v_rest: f64, v_reset: f64, v_threshold: f64) -> LifNeuronConfig {
        LifNeuronConfig {
            v_mem,
            v_rest,
            v_reset,
            v_threshold,
            tau: 1.0,
        }
    }
}

/// Static description of one leaky-integrate-and-fire neuron.
#[derive(Clone, Debug)]
pub struct LifNeuron {
    v_mem_init: f64,
    v_rest: f64,
    v_reset: f64,
    v_threshold: f64,
    tau: f64,
}

impl From<&LifNeuronConfig> for LifNeuron {
    fn from(nc: &LifNeuronConfig) -> LifNeuron {
        LifNeuron {
            v_mem_init: nc.v_mem,
            v_rest: nc.v_rest,
            v_reset: nc.v_reset,
            v_threshold: nc.v_threshold,
            tau: nc.tau,
        }
    }
}

/// Mutable variables of one neuron during a solve.
pub struct LifVars {
    v_mem: f64,
    ts_old: u128,
}

/// The leaky-integrate-and-fire fixture model: membrane potential decays
/// exponentially toward rest, integrates each weighted event, fires above
/// its threshold and resets. A zero weighted input is a silent synapse and
/// delivers no event.
pub struct Lif;

impl NeuronModel for Lif {
    type Neuron = LifNeuron;
    type SolverVars = LifVars;
    type Scalar = f64;

    fn init_vars(neuron: &LifNeuron) -> LifVars {
        LifVars {
            v_mem: neuron.v_mem_init,
            ts_old: 0,
        }
    }

    fn handle_spike(neuron: &LifNeuron, vars: &mut LifVars, weighted_input: &f64, ts: u128) -> f64 {
        if *weighted_input == 0.0 {
            return 0.0;
        }
        let dt = (ts - vars.ts_old) as f64;
        let v = neuron.v_rest
            + (vars.v_mem - neuron.v_rest) * (-dt / neuron.tau).exp()
            + *weighted_input;
        vars.ts_old = ts;
        if v > neuron.v_threshold {
            vars.v_mem = neuron.v_reset;
            v
        } else {
            vars.v_mem = v;
            0.0
        }
    }

    fn fired(activation: &f64) -> bool {
        *activation > 0.5
    }

    fn zero_input() -> f64 {
        0.0
    }

    fn input_pulse() -> f64 {
        1.0
    }

    fn weigh(acc: f64, activation: &f64, weight: &f64) -> f64 {
        acc + activation * weight
    }
}

fn diag(weights: &[f64]) -> Vec<Vec<f64>> {
    let n = weights.len();
    (0..n)
        .map(|i| {
            (0..n)
                .map(|j| if i == j { weights[i] } else { 0.0 })
                .collect()
        })
        .collect()
}

fn zeros(rows: usize, cols: usize) -> Vec<Vec<f64>> {
    (0..rows).map(|_| (0..cols).map(|_| 0.0).collect()).collect()
}

fn two_layer_network() -> NN<Lif> {
    let cfg = LifNeuronConfig::new(1.0, 0.5, 2.0, 1.0);
    let layer0 = Layer::new(
        vec![From::from(&cfg), From::from(&cfg)],
        diag(&[1.2, 2.3]),
        vec![vec![0.0, -0.8], vec![-0.6, 0.0]],
    );
    let layer1 = Layer::new(
        vec![From::from(&cfg), From::from(&cfg), From::from(&cfg)],
        vec![vec![1.5, 1.2, 1.6], vec![1.2, 1.4, 1.4]],
        vec![
            vec![0.0, -0.4, -0.3],
            vec![-0.5, 0.0, -0.5],
            vec![-0.8, -0.4, 0.0],
        ],
    );
    NN::new(vec![layer0, layer1]).unwrap()
}

#[test]
fn test_init_simulated_nn() {}

#[test]
fn test_correct_management_of_example_spike() {}

#[test]
fn test_passthrough_nn_using_solver() {
    let config = LifNeuronConfig::new(2.0, 0.5, 2.1, 1.0);

    let nn = NN::<Lif>::new(vec![Layer::new(
        vec![From::from(&config), From::from(&config), From::from(&config)],
        diag(&[1.0, 1.0, 1.0]),
        zeros(3, 3),
    )])
    .unwrap();

    let spikes = Spike::create_terminal_vec(vec![
        Spike::spike_vec_for(0, vec![1, 2, 3, 5, 6, 7]),
        Spike::spike_vec_for(1, vec![2, 6, 7, 9]),
        Spike::spike_vec_for(2, vec![2, 5, 6, 10, 11]),
    ]);

    let mut solver = Solver::new(spikes, nn);

    let expected: Vec<Vec<u128>> = vec![
        vec![1, 2, 3, 5, 6, 7],
        vec![2, 6, 7, 9],
        vec![2, 5, 6, 10, 11],
    ];
    assert_eq!(solver.solve().unwrap(), expected);
}

#[test]
fn test_two_layer_regression() {
    let spikes = Spike::create_terminal_vec(vec![
        Spike::spike_vec_for(0, vec![0, 1, 4, 6, 8, 10, 14]),
        Spike::spike_vec_for(1, vec![2, 3, 5, 7, 11, 20]),
    ]);
    let input_times: Vec<u128> = spikes.iter().map(|s| s.ts).collect();

    let mut solver = Solver::new(spikes.clone(), two_layer_network());
    let out = solver.solve().unwrap();

    assert_eq!(out.len(), 3);
    for row in out.iter() {
        for w in row.windows(2) {
            assert!(w[0] <= w[1]);
        }
        for ts in row.iter() {
            assert!(input_times.contains(ts));
        }
    }

    let mut solver_again = Solver::new(spikes, two_layer_network());
    assert_eq!(solver_again.solve().unwrap(), out);

    let pinned: Vec<Vec<u128>> = vec![
        vec![0, 1, 2, 3, 5, 7, 10, 11, 14, 20],
        vec![0, 1, 2, 3, 5, 6, 7, 8, 10, 11, 14, 20],
        vec![0, 1, 2, 3, 5, 6, 7, 8, 10, 11, 14, 20],
    ];
    assert_eq!(out, pinned);
}

#[test]
fn test_empty_input_gives_empty_output() {
    let mut solver = Solver::new(Vec::new(), two_layer_network());
    let expected: Vec<Vec<u128>> = vec![vec![], vec![], vec![]];
    assert_eq!(solver.solve().unwrap(), expected);
}

#[test]
fn test_single_neuron_zero_input_weight_never_fires() {
    let config = LifNeuronConfig::new(2.0, 0.5, 2.1, 1.0);
    let nn = NN::<Lif>::new(vec![Layer::new(
        vec![From::from(&config)],
        vec![vec![0.0]],
        vec![vec![0.0]],
    )])
    .unwrap();

    let spikes = Spike::spike_vec_for(0, vec![1, 2, 3, 50, 100]);
    let mut solver = Solver::new(spikes, nn);
    let expected: Vec<Vec<u128>> = vec![vec![]];
    assert_eq!(solver.solve().unwrap(), expected);
}

#[test]
fn test_unsorted_input_rejected() {
    let spikes = vec![Spike::new(5, 0), Spike::new(3, 1)];
    let mut solver = Solver::new(spikes, two_layer_network());
    assert_eq!(solver.solve(), Err(SnnError::MalformedInput));
}

#[test]
fn test_out_of_range_neuron_rejected() {
    let spikes = vec![Spike::new(1, 0), Spike::new(2, 7)];
    let mut solver = Solver::new(spikes, two_layer_network());
    assert_eq!(solver.solve(), Err(SnnError::MalformedInput));
}

#[test]
fn test_mismatched_matrix_rejected() {
    let config = LifNeuronConfig::new(2.0, 0.5, 2.1, 1.0);
    let r = NN::<Lif>::new(vec![Layer::new(
        vec![From::from(&config), From::from(&config)],
        diag(&[1.0, 1.0]),
        vec![vec![0.0, 0.0]],
    )]);
    assert!(r.is_err());
}

#[test]
fn test_config_replication() {
    assert_eq!(config_indices(1, 4), Ok(vec![0, 0, 0, 0]));
    assert_eq!(config_indices(4, 4), Ok(vec![0, 1, 2, 3]));
    assert_eq!(config_indices(2, 5), Err(SnnError::ConfigurationError));

    let configs = vec![LifNeuronConfig::new(2.0, 0.5, 2.1, 1.0)];
    let plan = config_indices(configs.len(), 3).unwrap();
    let neurons: Vec<LifNeuron> = plan.iter().map(|&k| From::from(&configs[k])).collect();
    assert_eq!(neurons.len(), 3);
}

#[test]
fn test_expand_fired_row_orders_neurons() {
    let r = snn_core::expand_fired_row(7, &vec![true, false, true]);
    assert_eq!(r, vec![Spike::new(7, 0), Spike::new(7, 2)]);
    assert!(snn_core::expand_fired_row(3, &vec![false, false]).is_empty());
}

#[test]
fn test_entry_layer_passthrough_rows() {
    let config = LifNeuronConfig::new(2.0, 0.5, 2.1, 1.0);
    let entry = Layer::new(
        vec![From::from(&config), From::from(&config), From::from(&config)],
        diag(&[1.0, 1.0, 1.0]),
        zeros(3, 3),
    );
    let spikes = Spike::create_terminal_vec(vec![
        Spike::spike_vec_for(0, vec![1, 3]),
        Spike::spike_vec_for(1, vec![2]),
    ]);
    let rows = snn_core::run_entry_layer::<Lif>(&entry, &spikes);
    assert_eq!(rows.len(), 3);
    let times: Vec<u128> = rows.iter().map(|r| r.0).collect();
    assert_eq!(times, vec![1, 2, 3]);
    for (ts, acts) in rows.iter() {
        assert_eq!(acts.len(), 3);
        let fired: Vec<usize> = acts
            .iter()
            .enumerate()
            .filter(|(_, a)| **a > 0.5)
            .map(|(i, _)| i)
            .collect();
        match *ts {
            1 | 3 => assert_eq!(fired, vec![0]),
            2 => assert_eq!(fired, vec![1]),
            _ => panic!("unexpected timestamp"),
        }
    }
}

#[test]
fn test_firing_times_marks_silent_slots() {
    let r = snn_core::firing_times(&vec![true, false, true], 9);
    assert_eq!(r, vec![9, u128::MAX, 9]);
}

#[test]
fn test_collect_output_groups_columns() {
    let rows = vec![
        vec![1, u128::MAX],
        vec![u128::MAX, 2],
        vec![5, 5],
    ];
    let r = snn_core::collect_output(&rows, 2);
    let expected: Vec<Vec<u128>> = vec![vec![1, 5], vec![2, 5]];
    assert_eq!(r, expected);
}
