use snn_core::{CommitOutcome, LayerManagerCore, NeuronModel, PollNext};

/// A minimal integer model: the potential is the sum of all weighted
/// inputs seen so far, and the neuron fires on a positive activation.
pub struct Accumulate;

impl NeuronModel for Accumulate {
    type Neuron = i64;
    type SolverVars = i64;
    type Scalar = i64;

    fn init_vars(neuron: &i64) -> i64 {
        *neuron
    }

    fn handle_spike(_neuron: &i64, vars: &mut i64, weighted_input: &i64, _ts: u128) -> i64 {
        *vars += *weighted_input;
        *vars
    }

    fn fired(activation: &i64) -> bool {
        *activation > 0
    }

    fn zero_input() -> i64 {
        0
    }

    fn input_pulse() -> i64 {
        1
    }

    fn weigh(acc: i64, activation: &i64, weight: &i64) -> i64 {
        acc + activation * weight
    }
}

#[test]
fn test_manager_admits_in_order_and_releases_complete_rows() {
    let (mut core, tokens) =
        LayerManagerCore::<Accumulate>::new(2, vec![vec![0, 1], vec![1, 0]]);
    assert_eq!(tokens.len(), 2);

    assert!(matches!(core.poll_next(&tokens[0]), PollNext::Wait));

    assert!(core.accept_input(1, vec![5, 0]));

    assert!(matches!(core.poll_next(&tokens[0]), PollNext::Ready(1, 5)));
    assert!(matches!(core.poll_next(&tokens[0]), PollNext::Wait));
    assert!(matches!(core.poll_next(&tokens[1]), PollNext::Ready(1, 0)));

    assert!(matches!(
        core.commit_result(&tokens[0], true, 5),
        CommitOutcome::Accepted
    ));
    match core.commit_result(&tokens[1], false, 0) {
        CommitOutcome::Completed(ts, outs) => {
            assert_eq!(ts, 1);
            assert_eq!(outs, vec![5, 0]);
        }
        other => panic!("expected a completed row, not {:?}", discriminant_name(&other)),
    }
}

#[test]
fn test_manager_queues_one_feedback_pass_at_same_timestamp() {
    let (mut core, tokens) =
        LayerManagerCore::<Accumulate>::new(2, vec![vec![0, 1], vec![1, 0]]);

    assert!(core.accept_input(4, vec![3, 0]));
    assert!(matches!(core.poll_next(&tokens[0]), PollNext::Ready(4, 3)));
    assert!(matches!(core.poll_next(&tokens[1]), PollNext::Ready(4, 0)));
    assert!(matches!(
        core.commit_result(&tokens[0], true, 3),
        CommitOutcome::Accepted
    ));
    assert!(matches!(
        core.commit_result(&tokens[1], false, 0),
        CommitOutcome::Completed(4, _)
    ));

    // The feedback pass is due at the same timestamp: [3, 0] through the
    // intra matrix gives 0 for neuron 0 and 3 for neuron 1.
    assert!(matches!(core.poll_next(&tokens[0]), PollNext::Ready(4, 0)));
    assert!(matches!(core.poll_next(&tokens[1]), PollNext::Ready(4, 3)));
    assert!(matches!(
        core.commit_result(&tokens[0], false, 0),
        CommitOutcome::Accepted
    ));
    // A feedback row spawns no second feedback pass.
    assert!(matches!(
        core.commit_result(&tokens[1], true, 3),
        CommitOutcome::Completed(4, _)
    ));

    core.close_input();
    assert!(matches!(core.poll_next(&tokens[0]), PollNext::Finished));
}

#[test]
fn test_manager_wait_consumes_nothing() {
    let (mut core, tokens) = LayerManagerCore::<Accumulate>::new(1, vec![vec![0]]);
    assert!(matches!(core.poll_next(&tokens[0]), PollNext::Wait));
    assert!(core.accept_input(1, vec![4]));
    assert!(matches!(core.poll_next(&tokens[0]), PollNext::Ready(1, 4)));
    // the slot was handed out once; polling again waits without consuming
    assert!(matches!(core.poll_next(&tokens[0]), PollNext::Wait));
    assert!(matches!(
        core.commit_result(&tokens[0], false, 4),
        CommitOutcome::Completed(1, _)
    ));
}

#[test]
fn test_manager_rejects_time_going_backwards() {
    let (mut core, _tokens) =
        LayerManagerCore::<Accumulate>::new(2, vec![vec![0, 0], vec![0, 0]]);
    assert!(core.accept_input(9, vec![1, 1]));
    assert!(!core.accept_input(8, vec![1, 1]));
    assert!(core.accept_input(9, vec![2, 2]));
    assert!(!core.accept_input(9, vec![1, 2, 3]));
}

#[test]
fn test_manager_rejects_protocol_violations() {
    let (mut core, tokens) =
        LayerManagerCore::<Accumulate>::new(1, vec![vec![0]]);

    // No timestep in flight yet: a commit is rejected.
    assert!(matches!(
        core.commit_result(&tokens[0], false, 0),
        CommitOutcome::Rejected
    ));

    assert!(core.accept_input(2, vec![1]));
    assert!(matches!(core.poll_next(&tokens[0]), PollNext::Ready(2, 1)));
    assert!(matches!(
        core.commit_result(&tokens[0], true, 1),
        CommitOutcome::Completed(2, _)
    ));
}

fn discriminant_name(outcome: &CommitOutcome<i64>) -> &'static str {
    match outcome {
        CommitOutcome::Accepted => "Accepted",
        CommitOutcome::Completed(_, _) => "Completed",
        CommitOutcome::Rejected => "Rejected",
    }
}
