use repeat::ranking::rank_matches;

#[test]
fn ranks_by_score_then_newer_first() {
    let scores = vec![Some(5), None, Some(9), Some(5), Some(-1), Some(0)];
    assert_eq!(rank_matches(&scores, 10), vec![2, 3, 0, 5]);
    assert_eq!(rank_matches(&scores, 2), vec![2, 3]);
    assert_eq!(rank_matches(&scores, 0), Vec::<usize>::new());
}

#[test]
fn ranks_nothing_without_matches() {
    assert!(rank_matches(&vec![None, Some(-3)], 5).is_empty());
    assert!(rank_matches(&Vec::new(), 5).is_empty());
}
