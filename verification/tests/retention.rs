use permguard_control_plane::events::retention::{
    note_removed, older_through, proof_safe_through, removable_prefix, sweep_interval, Swept,
};

#[test]
fn a_sweep_never_takes_the_newest_segment() {
    let firsts = vec![1, 10001, 20001];
    assert_eq!(removable_prefix(&firsts, 30000), 2);
    assert_eq!(removable_prefix(&firsts, 15000), 1);
    assert_eq!(removable_prefix(&firsts, 9999), 0);
    assert_eq!(removable_prefix(&vec![1], u64::MAX), 0);
    assert_eq!(removable_prefix(&vec![], 5), 0);
}

#[test]
fn only_a_run_of_old_segments_is_past_the_window() {
    let firsts = vec![1, 10001, 20001, 30001];
    assert_eq!(older_through(&firsts, &vec![true, true, false, true]), 20000);
    assert_eq!(older_through(&firsts, &vec![false, true, true, true]), 0);
    assert_eq!(older_through(&firsts, &vec![true, true, true, true]), 30000);
}

#[test]
fn a_producer_keeps_every_leaf_of_the_batch_covering_its_first_kept_record() {
    assert_eq!(proof_safe_through(100, None), Ok(100));
    assert_eq!(proof_safe_through(100, Some((true, 91))), Ok(90));
    assert_eq!(proof_safe_through(100, Some((true, 101))), Ok(100));
    assert_eq!(
        proof_safe_through(100, Some((false, 91))),
        Err("the retained envelope selected for sequence 101 does not cover that producer".to_owned())
    );
}

#[test]
fn removed_view_records_leave_one_frontier_per_stream() {
    let mut frontiers: Vec<(String, u64)> = Vec::new();
    note_removed(&mut frontiers, "a".to_owned(), 5);
    note_removed(&mut frontiers, "b".to_owned(), 2);
    note_removed(&mut frontiers, "a".to_owned(), 3);
    note_removed(&mut frontiers, "a".to_owned(), 9);
    assert_eq!(frontiers, vec![("a".to_owned(), 9), ("b".to_owned(), 2)]);
}

#[test]
fn sweeps_run_every_twelfth_of_the_window_within_bounds() {
    let second: u128 = 1_000_000_000;
    assert_eq!(sweep_interval(90 * 24 * 3600 * second), 6 * 3600 * second);
    assert_eq!(sweep_interval(60 * second), 300 * second);
    assert_eq!(sweep_interval(12 * 3600 * second), 3600 * second);
}

#[test]
fn sweeps_add_up() {
    let mut swept = Swept::default();
    swept.add_segment(10);
    swept.absorb(Swept { segments: 2, records: 5 });
    assert_eq!(swept, Swept { segments: 3, records: 15 });
}
