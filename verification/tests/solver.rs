//! End-to-end tests of the liveness solver on small control-flow graphs.

use liveness::{init_region_live_at, Origin, Output, Point, Variable};

fn has(rel: &Vec<(Origin, Point)>, r: u64, p: u64) -> bool {
    rel.iter().any(|&(a, b)| a == Origin(r) && b == Point(p))
}

fn count(rel: &Vec<(Origin, Point)>, r: u64, p: u64) -> usize {
    rel.iter().filter(|&&(a, b)| a == Origin(r) && b == Point(p)).count()
}

fn solve(
    var_used: Vec<(Variable, Point)>,
    var_drop_used: Vec<(Variable, Point)>,
    var_defined: Vec<(Variable, Point)>,
    var_uses_region: Vec<(Variable, Origin)>,
    var_drops_region: Vec<(Variable, Origin)>,
    var_maybe_initialized_on_exit: Vec<(Variable, Point)>,
    cfg_edge: Vec<(Point, Point)>,
    universal_region: Vec<Origin>,
) -> Vec<(Origin, Point)> {
    let mut output = Output::new(false);
    init_region_live_at(
        var_used,
        var_drop_used,
        var_defined,
        var_uses_region,
        var_drops_region,
        var_maybe_initialized_on_exit,
        &cfg_edge,
        universal_region,
        &mut output,
    )
}

#[test]
fn use_propagates_backward() {
    let result = solve(
        vec![(Variable(0), Point(1))],
        vec![],
        vec![],
        vec![(Variable(0), Origin(0))],
        vec![],
        vec![],
        vec![(Point(0), Point(1))],
        vec![],
    );
    assert!(has(&result, 0, 1));
    assert!(has(&result, 0, 0));
    assert_eq!(result.len(), 2);
}

#[test]
fn definition_kills_propagation() {
    let result = solve(
        vec![(Variable(0), Point(1))],
        vec![],
        vec![(Variable(0), Point(0))],
        vec![(Variable(0), Origin(0))],
        vec![],
        vec![],
        vec![(Point(0), Point(1))],
        vec![],
    );
    assert!(has(&result, 0, 1));
    assert!(!has(&result, 0, 0));
}

#[test]
fn use_at_defining_point_stays_live() {
    let result = solve(
        vec![(Variable(0), Point(0))],
        vec![],
        vec![(Variable(0), Point(0))],
        vec![(Variable(0), Origin(0))],
        vec![],
        vec![],
        vec![],
        vec![],
    );
    assert!(has(&result, 0, 0));
}

#[test]
fn kill_blocks_chain_in_the_middle() {
    let result = solve(
        vec![(Variable(0), Point(2))],
        vec![],
        vec![(Variable(0), Point(1))],
        vec![(Variable(0), Origin(0))],
        vec![],
        vec![],
        vec![(Point(0), Point(1)), (Point(1), Point(2))],
        vec![],
    );
    assert!(has(&result, 0, 2));
    assert!(!has(&result, 0, 1));
    assert!(!has(&result, 0, 0));
}

#[test]
fn propagation_reaches_fixpoint_on_cycle() {
    let result = solve(
        vec![(Variable(0), Point(1))],
        vec![],
        vec![],
        vec![(Variable(0), Origin(0))],
        vec![],
        vec![],
        vec![(Point(0), Point(1)), (Point(1), Point(0))],
        vec![],
    );
    assert!(has(&result, 0, 0));
    assert!(has(&result, 0, 1));
    assert_eq!(result.len(), 2);
}

#[test]
fn universal_region_live_at_all_points() {
    let result = solve(
        vec![],
        vec![],
        vec![],
        vec![],
        vec![],
        vec![],
        vec![(Point(0), Point(1)), (Point(1), Point(2))],
        vec![Origin(1)],
    );
    assert!(has(&result, 1, 0));
    assert!(has(&result, 1, 1));
    assert!(has(&result, 1, 2));
    assert_eq!(result.len(), 3);
}

#[test]
fn drop_use_of_initialized_variable_is_drop_live() {
    let result = solve(
        vec![],
        vec![(Variable(0), Point(1))],
        vec![],
        vec![],
        vec![(Variable(0), Origin(2))],
        vec![(Variable(0), Point(0))],
        vec![(Point(0), Point(1))],
        vec![],
    );
    assert!(has(&result, 2, 1));
}

#[test]
fn drop_use_of_uninitialized_variable_is_not_drop_live() {
    let result = solve(
        vec![],
        vec![(Variable(0), Point(1))],
        vec![],
        vec![],
        vec![(Variable(0), Origin(2))],
        vec![],
        vec![(Point(0), Point(1))],
        vec![],
    );
    assert!(!has(&result, 2, 1));
    assert!(result.is_empty());
}

#[test]
fn empty_input_gives_empty_result() {
    let result = solve(vec![], vec![], vec![], vec![], vec![], vec![], vec![], vec![]);
    assert!(result.is_empty());
}

#[test]
fn identical_inputs_give_identical_result_sets() {
    let run = || {
        solve(
            vec![(Variable(0), Point(1)), (Variable(1), Point(2))],
            vec![],
            vec![(Variable(0), Point(0))],
            vec![(Variable(0), Origin(0)), (Variable(1), Origin(1))],
            vec![],
            vec![],
            vec![(Point(0), Point(1)), (Point(1), Point(2))],
            vec![Origin(7)],
        )
    };
    let a = run();
    let b = run();
    assert_eq!(a.len(), b.len());
    for &(r, p) in &a {
        assert!(b.contains(&(r, p)));
    }
    for &(r, p) in &b {
        assert!(a.contains(&(r, p)));
    }
}

#[test]
fn duplicate_inputs_collapse() {
    let result = solve(
        vec![(Variable(0), Point(1)), (Variable(0), Point(1))],
        vec![],
        vec![],
        vec![(Variable(0), Origin(0)), (Variable(0), Origin(0))],
        vec![],
        vec![],
        vec![(Point(0), Point(1)), (Point(0), Point(1))],
        vec![Origin(0), Origin(0)],
    );
    assert_eq!(count(&result, 0, 0), 1);
    assert_eq!(count(&result, 0, 1), 1);
    assert_eq!(result.len(), 2);
}

#[test]
fn rule_derived_and_universal_pairs_are_not_duplicated() {
    let result = solve(
        vec![(Variable(0), Point(1))],
        vec![],
        vec![],
        vec![(Variable(0), Origin(0))],
        vec![],
        vec![],
        vec![(Point(0), Point(1))],
        vec![Origin(0)],
    );
    assert_eq!(count(&result, 0, 0), 1);
    assert_eq!(count(&result, 0, 1), 1);
    assert_eq!(result.len(), 2);
}
