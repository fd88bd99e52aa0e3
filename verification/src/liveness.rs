//! The origin liveness calculation.
//!
//! [`compute_live_regions`] runs the liveness engine to its fixpoint and
//! extracts the rule-derived `(Origin, Point)` relation;
//! [`make_universal_region_live`] adds every universal region as live at
//! every point of the control-flow graph; [`init_region_live_at`] composes
//! the two into the single entry point of the solver. All results carry set
//! semantics: duplicate-free, order immaterial, content pinned by the
//! contracts.

use vstd::prelude::*;

use crate::engine::{drop_live_seeds, initialized_on_entry, join_region, propagate};
use crate::ids::{Origin, Point, Variable};
use crate::output::{group_by_point, groups_relation, Output};
use crate::relation::{lemma_push_keeps_no_duplicates, op_contains, vp_dedup};
use crate::rules::{
    cfg_point, drop_live_seed, drop_live_set, facts_of, live_set, region_live,
    region_live_by_rules, region_rule, var_maybe_initialized_on_entry,
};

verus! {

broadcast use vstd::seq_lib::lemma_seq_contains_after_push;

/// The distinct points that appear in the control-flow graph, as either
/// endpoint of some edge.
#[verifier::loop_isolation(false)]
pub fn cfg_points(cfg_edge: &Vec<(Point, Point)>) -> (pts: Vec<Point>)
    ensures
        pts@.no_duplicates(),
        forall|p: Point| #[trigger] pts@.contains(p) == cfg_point(cfg_edge@.to_set(), p),
{
    let ghost eset = cfg_edge@.to_set();
    let mut pts: Vec<Point> = Vec::new();
    let mut i: usize = 0;
    while i < cfg_edge.len()
        invariant
            i <= cfg_edge@.len(),
            pts@.no_duplicates(),
            forall|j: int| 0 <= j < pts@.len() ==> cfg_point(eset, #[trigger] pts@[j]),
            forall|k: int|
                0 <= k < i ==> pts@.contains((#[trigger] cfg_edge@[k]).0) && pts@.contains(
                    cfg_edge@[k].1,
                ),
        decreases cfg_edge@.len() - i,
    {
        let e = cfg_edge[i];
        proof {
            assert(cfg_edge@[i as int] == (cfg_edge@[i as int].0, cfg_edge@[i as int].1));
            assert(cfg_edge@.contains(cfg_edge@[i as int]));
            assert(cfg_edge@.to_set().contains((e.0, e.1)));
            assert(eset.contains((e.0, e.1)));
            assert(cfg_point(eset, e.0));
            assert(cfg_point(eset, e.1));
        }
        if !crate::relation::pt_contains(&pts, e.0) {
            let ghost prev = pts@;
            pts.push(e.0);
            proof {
                lemma_push_keeps_no_duplicates(prev, e.0);
            }
        }
        if !crate::relation::pt_contains(&pts, e.1) {
            let ghost prev = pts@;
            pts.push(e.1);
            proof {
                lemma_push_keeps_no_duplicates(prev, e.1);
            }
        }
        i += 1;
    }
    proof {
        assert forall|p: Point| #[trigger] pts@.contains(p) implies cfg_point(eset, p) by {
            let j = choose|j: int| 0 <= j < pts@.len() && pts@[j] == p;
            assert(cfg_point(eset, pts@[j]));
        }
        assert forall|p: Point| cfg_point(eset, p) implies #[trigger] pts@.contains(p) by {
            let q = choose|q: Point| eset.contains((p, q)) || eset.contains((q, p));
            if eset.contains((p, q)) {
                let k = choose|k: int| 0 <= k < cfg_edge@.len() && cfg_edge@[k] == (p, q);
                assert(pts@.contains(cfg_edge@[k].0));
            } else {
                let k = choose|k: int| 0 <= k < cfg_edge@.len() && cfg_edge@[k] == (q, p);
                assert(pts@.contains(cfg_edge@[k].1));
            }
        }
    }
    pts
}

/// Force every universal region to be live at every point of the
/// control-flow graph, appending each such pair not already present.
///
/// A universal region is bound outside the analyzed body and may be required
/// at any point, so it is unioned in after the rule-based derivation.
#[verifier::loop_isolation(false)]
pub fn make_universal_region_live(
    region_live_at: &mut Vec<(Origin, Point)>,
    cfg_edge: &Vec<(Point, Point)>,
    universal_region: Vec<Origin>,
)
    requires
        old(region_live_at)@.no_duplicates(),
    ensures
        final(region_live_at)@.no_duplicates(),
        forall|r: Origin, p: Point|
            #[trigger] final(region_live_at)@.contains((r, p)) == (old(region_live_at)@.contains(
                (r, p),
            ) || (universal_region@.contains(r) && cfg_point(cfg_edge@.to_set(), p))),
{
    let ghost base = region_live_at@;
    let pts = cfg_points(cfg_edge);
    let mut i: usize = 0;
    while i < universal_region.len()
        invariant
            i <= universal_region@.len(),
            region_live_at@.no_duplicates(),
            forall|j: int|
                0 <= j < region_live_at@.len() ==> base.contains(#[trigger] region_live_at@[j])
                    || (universal_region@.contains(region_live_at@[j].0) && pts@.contains(
                    region_live_at@[j].1,
                )),
            forall|t: (Origin, Point)| base.contains(t) ==> region_live_at@.contains(t),
            forall|a: int, k: int|
                #![trigger universal_region@[a], pts@[k]]
                0 <= a < i && 0 <= k < pts@.len() ==> region_live_at@.contains(
                    (universal_region@[a], pts@[k]),
                ),
        decreases universal_region@.len() - i,
    {
        let r = universal_region[i];
        let mut k: usize = 0;
        while k < pts.len()
            invariant
                k <= pts@.len(),
                i < universal_region@.len(),
                r == universal_region@[i as int],
                region_live_at@.no_duplicates(),
                forall|j: int|
                    0 <= j < region_live_at@.len() ==> base.contains(
                        #[trigger] region_live_at@[j],
                    ) || (universal_region@.contains(region_live_at@[j].0) && pts@.contains(
                        region_live_at@[j].1,
                    )),
                forall|t: (Origin, Point)| base.contains(t) ==> region_live_at@.contains(t),
                forall|a: int, kk: int|
                    #![trigger universal_region@[a], pts@[kk]]
                    0 <= a < i && 0 <= kk < pts@.len() ==> region_live_at@.contains(
                        (universal_region@[a], pts@[kk]),
                    ),
                forall|kk: int|
                    0 <= kk < k ==> region_live_at@.contains((r, #[trigger] pts@[kk])),
            decreases pts@.len() - k,
        {
            let p = pts[k];
            let cand = (r, p);
            if !op_contains(region_live_at, cand) {
                proof {
                    assert(universal_region@.contains(universal_region@[i as int]));
                    assert(pts@.contains(pts@[k as int]));
                }
                let ghost prev = region_live_at@;
                region_live_at.push(cand);
                proof {
                    lemma_push_keeps_no_duplicates(prev, cand);
                }
            }
            k += 1;
        }
        i += 1;
    }
    proof {
        assert forall|r: Origin, p: Point| #[trigger] region_live_at@.contains(
            (r, p),
        ) implies (base.contains((r, p)) || (universal_region@.contains(r) && cfg_point(
            cfg_edge@.to_set(),
            p,
        ))) by {
            let j = choose|j: int| 0 <= j < region_live_at@.len() && region_live_at@[j] == (r, p);
            assert(base.contains(region_live_at@[j]) || (universal_region@.contains(
                region_live_at@[j].0,
            ) && pts@.contains(region_live_at@[j].1)));
        }
        assert forall|r: Origin, p: Point|
            universal_region@.contains(r) && cfg_point(
                cfg_edge@.to_set(),
                p,
            ) implies #[trigger] region_live_at@.contains((r, p)) by {
            let a = choose|a: int|
                0 <= a < universal_region@.len() && universal_region@[a] == r;
            assert(pts@.contains(p));
            let k = choose|k: int| 0 <= k < pts@.len() && pts@[k] == p;
            assert(region_live_at@.contains((universal_region@[a], pts@[k])));
        }
    }
}

/// Run the liveness engine to its fixpoint and extract the rule-derived
/// region liveness relation.
///
/// Seeds plain liveness from `var_used` and drop-liveness from the
/// drop-use tuples whose variable may be initialized on entry, propagates
/// both backward along `cfg_edge` to the fixpoint, and joins the results
/// with the variable-to-region relations. When the debug sink is enabled,
/// the two liveness relations are exported to it, grouped by point.
pub fn compute_live_regions(
    var_used: Vec<(Variable, Point)>,
    var_drop_used: Vec<(Variable, Point)>,
    var_defined: Vec<(Variable, Point)>,
    var_uses_region: Vec<(Variable, Origin)>,
    var_drops_region: Vec<(Variable, Origin)>,
    cfg_edge: &Vec<(Point, Point)>,
    var_maybe_initialized_on_exit: Vec<(Variable, Point)>,
    output: &mut Output,
) -> (region_live_at: Vec<(Origin, Point)>)
    ensures
        region_live_at@.no_duplicates(),
        forall|r: Origin, p: Point|
            #[trigger] region_live_at@.contains((r, p)) == region_live_by_rules(
                facts_of(
                    var_used@,
                    var_drop_used@,
                    var_defined@,
                    var_uses_region@,
                    var_drops_region@,
                    cfg_edge@,
                    var_maybe_initialized_on_exit@,
                ),
                r,
                p,
            ),
        final(output).dump_enabled == old(output).dump_enabled,
        !old(output).dump_enabled ==> *final(output) == *old(output),
        old(output).dump_enabled ==> groups_relation(
            final(output).var_live_at@,
            live_set(
                facts_of(
                    var_used@,
                    var_drop_used@,
                    var_defined@,
                    var_uses_region@,
                    var_drops_region@,
                    cfg_edge@,
                    var_maybe_initialized_on_exit@,
                ),
            ),
        ),
        old(output).dump_enabled ==> groups_relation(
            final(output).var_drop_live_at@,
            drop_live_set(
                facts_of(
                    var_used@,
                    var_drop_used@,
                    var_defined@,
                    var_uses_region@,
                    var_drops_region@,
                    cfg_edge@,
                    var_maybe_initialized_on_exit@,
                ),
            ),
        ),
{
    let ghost f = facts_of(
        var_used@,
        var_drop_used@,
        var_defined@,
        var_uses_region@,
        var_drops_region@,
        cfg_edge@,
        var_maybe_initialized_on_exit@,
    );

    let on_entry_rel = initialized_on_entry(&var_maybe_initialized_on_exit, cfg_edge);
    let live_seeds = vp_dedup(&var_used);
    let live_rel = propagate(live_seeds, &var_defined, cfg_edge, Option::None);
    let drop_seeds = drop_live_seeds(&var_drop_used, &on_entry_rel);
    let drop_live_rel = propagate(
        drop_seeds,
        &var_defined,
        cfg_edge,
        Option::Some(&var_maybe_initialized_on_exit),
    );

    proof {
        assert(live_seeds@.to_set() =~= f.var_used);
        assert forall|t: (Variable, Point)| live_rel@.to_set().contains(t) == live_set(f).contains(
            t,
        ) by {
            assert(t == (t.0, t.1));
            assert(live_rel@.contains((t.0, t.1)) == crate::rules::var_live(f, t.0, t.1));
        }
        assert(live_rel@.to_set() =~= live_set(f));

        assert forall|t: (Variable, Point)|
            drop_seeds@.to_set().contains(t) == drop_live_seed(f).contains(t) by {
            assert(t == (t.0, t.1));
            assert(on_entry_rel@.contains((t.0, t.1)) == var_maybe_initialized_on_entry(
                f,
                t.0,
                t.1,
            ));
            assert(on_entry_rel@.to_set().contains(t) == on_entry_rel@.contains((t.0, t.1)));
        }
        assert(drop_seeds@.to_set() =~= drop_live_seed(f));
        assert forall|t: (Variable, Point)|
            drop_live_rel@.to_set().contains(t) == drop_live_set(f).contains(t) by {
            assert(t == (t.0, t.1));
            assert(drop_live_rel@.contains((t.0, t.1)) == crate::rules::var_drop_live(
                f,
                t.0,
                t.1,
            ));
        }
        assert(drop_live_rel@.to_set() =~= drop_live_set(f));
    }

    let acc: Vec<(Origin, Point)> = Vec::new();
    let partial = join_region(acc, &drop_live_rel, &var_drops_region);
    let region = join_region(partial, &live_rel, &var_uses_region);
    proof {
        assert forall|r: Origin, p: Point| #[trigger] region@.contains((r, p))
            == region_live_by_rules(f, r, p) by {
            assert(region@.contains((r, p)) == (partial@.contains((r, p)) || region_rule(
                live_rel@.to_set(),
                var_uses_region@.to_set(),
                r,
                p,
            )));
            assert(partial@.contains((r, p)) == region_rule(
                drop_live_rel@.to_set(),
                var_drops_region@.to_set(),
                r,
                p,
            ));
        }
    }

    if output.dump_enabled {
        let live_groups = group_by_point(&live_rel);
        let drop_groups = group_by_point(&drop_live_rel);
        output.var_live_at = live_groups;
        output.var_drop_live_at = drop_groups;
    }
    region
}

/// The single entry point of the solver: run the liveness engine, then add
/// the universal regions at every point of the control-flow graph. The
/// result is the final region liveness relation, with set semantics.
pub fn init_region_live_at(
    var_used: Vec<(Variable, Point)>,
    var_drop_used: Vec<(Variable, Point)>,
    var_defined: Vec<(Variable, Point)>,
    var_uses_region: Vec<(Variable, Origin)>,
    var_drops_region: Vec<(Variable, Origin)>,
    var_maybe_initialized_on_exit: Vec<(Variable, Point)>,
    cfg_edge: &Vec<(Point, Point)>,
    universal_region: Vec<Origin>,
    output: &mut Output,
) -> (region_live_at: Vec<(Origin, Point)>)
    ensures
        region_live_at@.no_duplicates(),
        forall|r: Origin, p: Point|
            #[trigger] region_live_at@.contains((r, p)) == region_live(
                facts_of(
                    var_used@,
                    var_drop_used@,
                    var_defined@,
                    var_uses_region@,
                    var_drops_region@,
                    cfg_edge@,
                    var_maybe_initialized_on_exit@,
                ),
                universal_region@.to_set(),
                r,
                p,
            ),
        final(output).dump_enabled == old(output).dump_enabled,
        !old(output).dump_enabled ==> *final(output) == *old(output),
        old(output).dump_enabled ==> groups_relation(
            final(output).var_live_at@,
            live_set(
                facts_of(
                    var_used@,
                    var_drop_used@,
                    var_defined@,
                    var_uses_region@,
                    var_drops_region@,
                    cfg_edge@,
                    var_maybe_initialized_on_exit@,
                ),
            ),
        ),
        old(output).dump_enabled ==> groups_relation(
            final(output).var_drop_live_at@,
            drop_live_set(
                facts_of(
                    var_used@,
                    var_drop_used@,
                    var_defined@,
                    var_uses_region@,
                    var_drops_region@,
                    cfg_edge@,
                    var_maybe_initialized_on_exit@,
                ),
            ),
        ),
{
    let ghost f = facts_of(
        var_used@,
        var_drop_used@,
        var_defined@,
        var_uses_region@,
        var_drops_region@,
        cfg_edge@,
        var_maybe_initialized_on_exit@,
    );
    let mut region_live_at = compute_live_regions(
        var_used,
        var_drop_used,
        var_defined,
        var_uses_region,
        var_drops_region,
        cfg_edge,
        var_maybe_initialized_on_exit,
        output,
    );
    let ghost derived = region_live_at@;
    make_universal_region_live(&mut region_live_at, cfg_edge, universal_region);
    proof {
        assert forall|r: Origin, p: Point| #[trigger] region_live_at@.contains((r, p))
            == region_live(f, universal_region@.to_set(), r, p) by {
            assert(region_live_at@.contains((r, p)) == (derived.contains((r, p)) || (
            universal_region@.contains(r) && cfg_point(cfg_edge@.to_set(), p))));
            assert(derived.contains((r, p)) == region_live_by_rules(f, r, p));
        }
    }
    region_live_at
}

} // verus!
