use permguard_control_plane::gc::{reachable, sweep_plan, Fate};

#[test]
fn every_ref_keeps_what_it_reaches_and_a_hole_stops_the_sweep() {
    // 0: a commit naming 1 and 2; 1: a tree naming 3; 2, 3: blobs; 4: an
    // orphan; 5: a second ref's head naming 2.
    let held = vec![Some(vec![1, 2]), Some(vec![3]), Some(vec![]), Some(vec![]), Some(vec![0]), Some(vec![2])];
    let reached = reachable(&held, &vec![0, 5]).expect("the closure is whole");
    assert_eq!(reached, vec![true, true, true, true, false, true]);
    let fates = sweep_plan(&reached, &vec![false, false, false, false, false, true]);
    assert_eq!(fates, vec![Fate::Reachable, Fate::Reachable, Fate::Reachable, Fate::Reachable, Fate::Removed, Fate::Reachable]);
    let young = sweep_plan(&reached, &vec![true; 6]);
    assert_eq!(young[4], Fate::Retained);

    let holed = vec![Some(vec![1]), None, Some(vec![])];
    assert_eq!(reachable(&holed, &vec![0]), Err(1));
    assert_eq!(reachable(&holed, &vec![2]), Ok(vec![false, false, true]), "a hole no ref reaches is no hole");
    assert_eq!(reachable(&vec![Some(vec![0])], &vec![0]), Ok(vec![true]), "a cycle ends");
}
