//! Tests of the debug sink and of the pieces it is built from.

use liveness::liveness::{cfg_points, make_universal_region_live};
use liveness::{compute_live_regions, Origin, Output, Point, Variable};

fn group<'a>(groups: &'a Vec<(Point, Vec<Variable>)>, p: u64) -> Option<&'a Vec<Variable>> {
    groups.iter().find(|&&(q, _)| q == Point(p)).map(|(_, vs)| vs)
}

#[test]
fn dump_lists_live_variables_per_point() {
    let mut output = Output::new(true);
    let cfg_edge = vec![(Point(0), Point(1))];
    let result = compute_live_regions(
        vec![(Variable(0), Point(1))],
        vec![],
        vec![],
        vec![(Variable(0), Origin(0))],
        vec![],
        &cfg_edge,
        vec![],
        &mut output,
    );
    assert!(result.contains(&(Origin(0), Point(0))));
    assert!(output.dump_enabled);
    let at0 = group(&output.var_live_at, 0).expect("live variables at the first point");
    let at1 = group(&output.var_live_at, 1).expect("live variables at the second point");
    assert_eq!(at0, &vec![Variable(0)]);
    assert_eq!(at1, &vec![Variable(0)]);
    assert_eq!(output.var_live_at.len(), 2);
    assert!(output.var_drop_live_at.is_empty());
}

#[test]
fn dump_lists_drop_live_variables_per_point() {
    let mut output = Output::new(true);
    let cfg_edge = vec![(Point(0), Point(1))];
    let result = compute_live_regions(
        vec![],
        vec![(Variable(3), Point(1))],
        vec![],
        vec![],
        vec![(Variable(3), Origin(2))],
        &cfg_edge,
        vec![(Variable(3), Point(0))],
        &mut output,
    );
    assert!(result.contains(&(Origin(2), Point(1))));
    let at1 = group(&output.var_drop_live_at, 1).expect("drop-live variables at the use point");
    assert_eq!(at1, &vec![Variable(3)]);
}

#[test]
fn disabled_dump_stays_empty() {
    let mut output = Output::new(false);
    let cfg_edge = vec![(Point(0), Point(1))];
    let result = compute_live_regions(
        vec![(Variable(0), Point(1))],
        vec![],
        vec![],
        vec![(Variable(0), Origin(0))],
        vec![],
        &cfg_edge,
        vec![],
        &mut output,
    );
    assert_eq!(result.len(), 2);
    assert!(output.var_live_at.is_empty());
    assert!(output.var_drop_live_at.is_empty());
}

#[test]
fn expansion_appends_only_missing_pairs() {
    let mut region_live_at = vec![(Origin(0), Point(0))];
    let cfg_edge = vec![(Point(0), Point(1))];
    make_universal_region_live(&mut region_live_at, &cfg_edge, vec![Origin(0)]);
    assert!(region_live_at.contains(&(Origin(0), Point(0))));
    assert!(region_live_at.contains(&(Origin(0), Point(1))));
    assert_eq!(region_live_at.len(), 2);
}

#[test]
fn cfg_points_collects_distinct_endpoints() {
    let cfg_edge = vec![(Point(0), Point(1)), (Point(1), Point(2)), (Point(0), Point(2))];
    let pts = cfg_points(&cfg_edge);
    assert_eq!(pts.len(), 3);
    assert!(pts.contains(&Point(0)));
    assert!(pts.contains(&Point(1)));
    assert!(pts.contains(&Point(2)));
}
