use snn_core::Spike;

#[test]
fn test_spike_vec_for() {}

#[test]
fn test_sort_spike() {
    let ts1 = [0, 1, 4, 5].to_vec();
    let ts2 = [0, 3, 6, 7].to_vec();
    let mut multiple_spike_vec: Vec<Vec<Spike>> = Vec::new();

    let spike1 = Spike::spike_vec_for(1, ts1);
    let spike2 = Spike::spike_vec_for(2, ts2);

    multiple_spike_vec.push(spike1);
    multiple_spike_vec.push(spike2);

    let input_vec = Spike::create_terminal_vec(multiple_spike_vec);

    for el in input_vec.iter() {
        println!("{:?}", el);
    }
}

#[test]
fn test_create_terminal_vec() {
    let spikes_neuron_1 = [11, 9, 23, 43, 42].to_vec();
    let spike_vec_for_neuron_1 = Spike::spike_vec_for(1, spikes_neuron_1);

    let spikes_neuron_2 = [1, 29, 3, 11, 22].to_vec();
    let spike_vec_for_neuron_2 = Spike::spike_vec_for(2, spikes_neuron_2);

    let spikes: Vec<Vec<Spike>> = [spike_vec_for_neuron_1, spike_vec_for_neuron_2].to_vec();

    let sorted_spike_array_for_nn: Vec<Spike> = Spike::create_terminal_vec(spikes);
    println!("{:?}", sorted_spike_array_for_nn);
}

#[test]
fn test_spike_new_fields() {
    let s = Spike::new(17, 3);
    assert_eq!(s.ts, 17);
    assert_eq!(s.neuron_id, 3);
}

#[test]
fn test_spike_vec_for_sorts_unordered_times() {
    let r = Spike::spike_vec_for(2, vec![11, 9, 23, 43, 42]);
    let expected = vec![
        Spike::new(9, 2),
        Spike::new(11, 2),
        Spike::new(23, 2),
        Spike::new(42, 2),
        Spike::new(43, 2),
    ];
    assert_eq!(r, expected);
}

#[test]
fn test_merge_is_sorted_union() {
    let a = Spike::spike_vec_for(1, vec![11, 9, 23, 43, 42]);
    let b = Spike::spike_vec_for(2, vec![1, 29, 3, 11, 22]);
    let merged = Spike::create_terminal_vec(vec![a, b]);
    let expected = vec![
        Spike::new(1, 2),
        Spike::new(3, 2),
        Spike::new(9, 1),
        Spike::new(11, 1),
        Spike::new(11, 2),
        Spike::new(22, 2),
        Spike::new(23, 1),
        Spike::new(29, 2),
        Spike::new(42, 1),
        Spike::new(43, 1),
    ];
    assert_eq!(merged, expected);
}

#[test]
fn test_merge_with_empty_rows() {
    let empty: Vec<Spike> = Vec::new();
    let a = Spike::spike_vec_for(0, vec![5, 2]);
    let merged = Spike::create_terminal_vec(vec![empty.clone(), a, empty]);
    assert_eq!(merged, vec![Spike::new(2, 0), Spike::new(5, 0)]);
}

#[test]
fn test_merge_no_rows_is_empty() {
    let merged = Spike::create_terminal_vec(Vec::new());
    assert!(merged.is_empty());
}

#[test]
fn test_merge_keeps_duplicates() {
    let a = vec![Spike::new(4, 1), Spike::new(4, 1)];
    let b = vec![Spike::new(4, 1)];
    let merged = Spike::create_terminal_vec(vec![a, b]);
    assert_eq!(
        merged,
        vec![Spike::new(4, 1), Spike::new(4, 1), Spike::new(4, 1)]
    );
}

#[test]
fn test_resort_sorted_merge_is_noop() {
    let merged = Spike::create_terminal_vec(vec![
        Spike::spike_vec_for(0, vec![3, 1]),
        Spike::spike_vec_for(1, vec![2]),
    ]);
    let resorted = Spike::create_terminal_vec(vec![merged.clone()]);
    assert_eq!(resorted, merged);
}

#[test]
fn test_merge_ties_ordered_by_neuron_id() {
    let a = Spike::spike_vec_for(7, vec![10]);
    let b = Spike::spike_vec_for(2, vec![10]);
    let merged = Spike::create_terminal_vec(vec![a, b]);
    assert_eq!(merged, vec![Spike::new(10, 2), Spike::new(10, 7)]);
}
