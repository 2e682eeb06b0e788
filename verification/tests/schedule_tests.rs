use patchwork::schedule::dependency_schedule;

#[test]
fn dependencies_render_first() {
    let ids = vec![1, 2, 3];
    let deps = vec![vec![3], vec![], vec![]];
    let (order, waiting) = dependency_schedule(&ids, &deps, &vec![true, true, true], 6);
    assert_eq!(order, vec![2, 3, 1]);
    assert!(waiting.is_empty());
}

#[test]
fn a_dependency_later_in_the_same_pass_needs_another_pass() {
    let ids = vec![1, 2, 3];
    let deps = vec![vec![2], vec![3], vec![]];
    let (order, waiting) = dependency_schedule(&ids, &deps, &vec![true, true, true], 6);
    assert_eq!(order, vec![3, 2, 1]);
    assert!(waiting.is_empty());
    let (order, waiting) = dependency_schedule(&ids, &deps, &vec![true, true, true], 2);
    assert_eq!(order, vec![3, 2]);
    assert_eq!(waiting, vec![1]);
}

#[test]
fn cycles_keep_waiting() {
    let ids = vec![1, 2, 3];
    let deps = vec![vec![2], vec![1], vec![]];
    let (order, waiting) = dependency_schedule(&ids, &deps, &vec![true, true, true], 6);
    assert_eq!(order, vec![3]);
    assert_eq!(waiting, vec![1, 2]);
}

#[test]
fn zero_passes_schedule_nothing() {
    let ids = vec![4, 5];
    let deps = vec![vec![], vec![]];
    let (order, waiting) = dependency_schedule(&ids, &deps, &vec![true, true], 0);
    assert!(order.is_empty());
    assert_eq!(waiting, vec![4, 5]);
}

#[test]
fn nodes_that_provide_nothing_do_not_unblock() {
    let ids = vec![1, 2];
    let deps = vec![vec![], vec![1]];
    let (order, waiting) = dependency_schedule(&ids, &deps, &vec![false, true], 6);
    assert_eq!(order, vec![1]);
    assert_eq!(waiting, vec![2]);
}
