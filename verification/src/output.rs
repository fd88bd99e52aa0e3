//! The optional debug sink.
//!
//! When enabled, the solver exports, for every point of the computed
//! liveness relations, the list of live and of drop-live variables at that
//! point, grouped by point. The dump is purely observational: it never feeds
//! back into the algorithm, and its contract says exactly which tuples it
//! reflects.

use vstd::prelude::*;

use crate::ids::{Point, Variable};
use crate::relation::{lemma_push_keeps_no_duplicates, pt_contains, var_contains};

verus! {

broadcast use vstd::seq_lib::lemma_seq_contains_after_push;

/// The debug sink handed to the solver: a flag, and the two per-point
/// groupings filled in when the flag is set.
pub struct Output {
    /// Whether the solver should fill the two groupings below.
    pub dump_enabled: bool,
    /// Point to list of live variables, one entry per point.
    pub var_live_at: Vec<(Point, Vec<Variable>)>,
    /// Point to list of drop-live variables, one entry per point.
    pub var_drop_live_at: Vec<(Point, Vec<Variable>)>,
}

/// `groups` is a faithful per-point view of the tuple set `rel`: points are
/// listed at most once, every listed group holds a duplicate-free, non-empty
/// list of variables, and a variable is listed under a point exactly when
/// the tuple is in `rel`. So an empty relation admits no entries at all, and
/// the groups are pinned up to order.
pub open spec fn groups_relation(
    groups: Seq<(Point, Vec<Variable>)>,
    rel: Set<(Variable, Point)>,
) -> bool {
    (forall|a: int, b: int| 0 <= a < b < groups.len() ==> groups[a].0 != groups[b].0) && (forall|
        i: int,
    |
        0 <= i < groups.len() ==> (#[trigger] groups[i]).1@.no_duplicates() && groups[i].1@.len()
            > 0) && (forall|v: Variable, p: Point|
        rel.contains((v, p)) == exists|i: int|
            0 <= i < groups.len() && groups[i].0 == p && #[trigger] groups[i].1@.contains(v))
}

impl Output {
    /// A fresh sink with empty groupings.
    pub fn new(dump_enabled: bool) -> (out: Output)
        ensures
            out.dump_enabled == dump_enabled,
            out.var_live_at@.len() == 0,
            out.var_drop_live_at@.len() == 0,
    {
        Output { dump_enabled, var_live_at: Vec::new(), var_drop_live_at: Vec::new() }
    }
}

/// Some tuple of `rel` has `p` as its point.
spec fn point_of(rel: Seq<(Variable, Point)>, p: Point) -> bool {
    exists|v: Variable| rel.to_set().contains((v, p))
}

/// The distinct points that appear as the second component of some tuple.
fn rel_points(rel: &Vec<(Variable, Point)>) -> (pts: Vec<Point>)
    ensures
        pts@.no_duplicates(),
        forall|p: Point| #[trigger] pts@.contains(p) == point_of(rel@, p),
{
    let mut pts: Vec<Point> = Vec::new();
    let mut i: usize = 0;
    while i < rel.len()
        invariant
            i <= rel@.len(),
            pts@.no_duplicates(),
            forall|j: int| 0 <= j < pts@.len() ==> point_of(rel@, #[trigger] pts@[j]),
            forall|k: int| 0 <= k < i ==> pts@.contains((#[trigger] rel@[k]).1),
        decreases rel@.len() - i,
    {
        let t = rel[i];
        if !pt_contains(&pts, t.1) {
            let ghost prev = pts@;
            proof {
                assert(rel@[i as int] == (rel@[i as int].0, rel@[i as int].1));
                assert(rel@.to_set().contains((t.0, t.1)));
                assert(point_of(rel@, t.1));
            }
            pts.push(t.1);
            proof {
                lemma_push_keeps_no_duplicates(prev, t.1);
            }
        }
        i += 1;
    }
    proof {
        assert forall|p: Point| #[trigger] pts@.contains(p) implies point_of(rel@, p) by {
            let j = choose|j: int| 0 <= j < pts@.len() && pts@[j] == p;
            assert(point_of(rel@, pts@[j]));
        }
        assert forall|p: Point| point_of(rel@, p) implies #[trigger] pts@.contains(p) by {
            let v = choose|v: Variable| rel@.to_set().contains((v, p));
            let k = choose|k: int| 0 <= k < rel@.len() && rel@[k] == (v, p);
            assert(pts@.contains(rel@[k].1));
        }
    }
    pts
}

/// Group a liveness relation by point: one entry per distinct point, holding
/// the duplicate-free, non-empty list of that point's variables.
#[verifier::loop_isolation(false)]
pub fn group_by_point(rel: &Vec<(Variable, Point)>) -> (out: Vec<(Point, Vec<Variable>)>)
    ensures
        groups_relation(out@, rel@.to_set()),
{
    let pts = rel_points(rel);
    let mut out: Vec<(Point, Vec<Variable>)> = Vec::new();
    let mut i: usize = 0;
    while i < pts.len()
        invariant
            i <= pts@.len(),
            out@.len() == i,
            forall|a: int| 0 <= a < i ==> (#[trigger] out@[a]).0 == pts@[a],
            forall|a: int|
                0 <= a < i ==> (#[trigger] out@[a]).1@.no_duplicates() && out@[a].1@.len() > 0,
            forall|a: int, v: Variable|
                0 <= a < i ==> (#[trigger] out@[a].1@.contains(v)) == rel@.to_set().contains(
                    (v, pts@[a]),
                ),
        decreases pts@.len() - i,
    {
        let p = pts[i];
        let mut vs: Vec<Variable> = Vec::new();
        let mut k: usize = 0;
        while k < rel.len()
            invariant
                k <= rel@.len(),
                i < pts@.len(),
                p == pts@[i as int],
                vs@.no_duplicates(),
                forall|v: Variable| #[trigger] vs@.contains(v) ==> rel@.to_set().contains((v, p)),
                forall|kk: int|
                    0 <= kk < k && (#[trigger] rel@[kk]).1 == p ==> vs@.contains(rel@[kk].0),
            decreases rel@.len() - k,
        {
            let t = rel[k];
            if t.1 == p && !var_contains(&vs, t.0) {
                let ghost prev = vs@;
                proof {
                    assert(rel@[k as int] == (rel@[k as int].0, rel@[k as int].1));
                    assert(rel@.to_set().contains((t.0, p)));
                }
                vs.push(t.0);
                proof {
                    lemma_push_keeps_no_duplicates(prev, t.0);
                }
            }
            k += 1;
        }
        proof {
            assert forall|v: Variable| rel@.to_set().contains((v, p)) implies #[trigger] vs@
                .contains(v) by {
                let kk = choose|kk: int| 0 <= kk < rel@.len() && rel@[kk] == (v, p);
                assert(vs@.contains(rel@[kk].0));
            }
            assert(pts@.contains(p));
            assert(point_of(rel@, p));
            let v0 = choose|v: Variable| rel@.to_set().contains((v, p));
            assert(vs@.contains(v0));
            assert(vs@.len() > 0);
        }
        out.push((p, vs));
        i += 1;
    }
    proof {
        assert forall|v: Variable, p: Point| rel@.to_set().contains((v, p)) implies exists|i: int|
            0 <= i < out@.len() && out@[i].0 == p && #[trigger] out@[i].1@.contains(v) by {
            assert(exists|v2: Variable| rel@.to_set().contains((v2, p)));
            assert(pts@.contains(p));
            let a = choose|a: int| 0 <= a < pts@.len() && pts@[a] == p;
            assert(out@[a].1@.contains(v) == rel@.to_set().contains((v, pts@[a])));
        }
        assert forall|v: Variable, p: Point|
            (exists|i: int|
                0 <= i < out@.len() && out@[i].0 == p && #[trigger] out@[i]
                    .1@.contains(v)) implies rel@.to_set().contains((v, p)) by {
            let a = choose|a: int|
                0 <= a < out@.len() && out@[a].0 == p && out@[a].1@.contains(v);
            assert(out@[a].1@.contains(v) == rel@.to_set().contains((v, pts@[a])));
        }
    }
    out
}

} // verus!
