use snn_core::{CommitAccumulator, PendingQueue, Token};

#[test]
fn test_commit_barrier_all_or_nothing() {
    let mut acc: CommitAccumulator<i64> = CommitAccumulator::new(3);
    let t0 = Token { neuron_id: 0 };
    let t1 = Token { neuron_id: 1 };
    let t2 = Token { neuron_id: 2 };
    assert!(!acc.is_complete());

    acc.commit(&t1, 42);
    assert!(!acc.is_complete());
    assert!(acc.slot_is_empty(0));
    assert!(!acc.slot_is_empty(1));

    acc.commit(&t0, 7);
    assert!(!acc.is_complete());

    acc.commit(&t2, 9);
    assert!(acc.is_complete());

    let row = acc.take();
    assert_eq!(row, vec![7, 42, 9]);
}

#[test]
fn test_commit_barrier_empty_layer_is_complete() {
    let acc: CommitAccumulator<i64> = CommitAccumulator::new(0);
    assert!(acc.is_complete());
    assert!(acc.take().is_empty());
}

#[test]
fn test_pending_queue_feedback_precedes_later_timesteps() {
    let mut q: PendingQueue<i64> = PendingQueue::new();
    assert!(q.is_empty());

    q.push_input(1, 10);
    q.push_input(3, 30);
    q.push_feedback(1, 11);

    assert_eq!(q.pop(), Some((1, 10)));
    assert_eq!(q.pop(), Some((1, 11)));
    assert_eq!(q.pop(), Some((3, 30)));
    assert_eq!(q.pop(), None);
}

#[test]
fn test_pending_queue_feedback_into_empty() {
    let mut q: PendingQueue<i64> = PendingQueue::new();
    q.push_feedback(5, 1);
    q.push_input(7, 2);
    assert_eq!(q.pop(), Some((5, 1)));
    assert_eq!(q.pop(), Some((7, 2)));
    assert_eq!(q.pop(), None);
}
