//! Properties of the solver, stated and proved against the rule model.
//!
//! Each law speaks of the spec-level relations that the solver's contracts
//! pin its results to, so together they hold of every run.

use vstd::prelude::*;

use crate::ids::{Origin, Point, Variable};
use crate::rules::{
    cfg_point, lemma_reach_in_universe, lemma_reach_step, live_seed, reach_universe, reach_within,
    reachable, region_live, step_ok, var_live, Facts,
};

verus! {

/// Monotonicity: derived relations only ever grow. A tuple derivable within
/// `m` fixpoint rounds is derivable within every later round count, so once
/// a tuple enters a liveness relation it stays for the rest of the run.
pub proof fn lemma_rounds_monotone(
    seed: Set<(Variable, Point)>,
    kill: Set<(Variable, Point)>,
    edges: Set<(Point, Point)>,
    keep: Option<Set<(Variable, Point)>>,
    v: Variable,
    p: Point,
    m: nat,
    n: nat,
)
    requires
        m <= n,
        reach_within(seed, kill, edges, keep, v, p, m),
    ensures
        reach_within(seed, kill, edges, keep, v, p, n),
    decreases m,
{
    if seed.contains((v, p)) {
    } else {
        let q = choose|q: Point|
            edges.contains((p, q)) && reach_within(seed, kill, edges, keep, v, q, (m - 1) as nat);
        lemma_rounds_monotone(seed, kill, edges, keep, v, q, (m - 1) as nat, (n - 1) as nat);
        assert(edges.contains((p, q)) && reach_within(seed, kill, edges, keep, v, q, (n - 1) as nat));
    }
}

/// Determinism: any two results that meet the solver's output contract on
/// the same input facts hold exactly the same set of pairs, whatever
/// iteration order produced them.
pub proof fn lemma_deterministic(
    f: Facts,
    universal: Set<Origin>,
    a: Set<(Origin, Point)>,
    b: Set<(Origin, Point)>,
)
    requires
        forall|r: Origin, p: Point| #[trigger] a.contains((r, p)) == region_live(f, universal, r, p),
        forall|r: Origin, p: Point| #[trigger] b.contains((r, p)) == region_live(f, universal, r, p),
    ensures
        a == b,
{
    assert forall|t: (Origin, Point)| a.contains(t) == b.contains(t) by {
        assert(t == (t.0, t.1));
        assert(a.contains((t.0, t.1)) == region_live(f, universal, t.0, t.1));
        assert(b.contains((t.0, t.1)) == region_live(f, universal, t.0, t.1));
    }
    assert(a =~= b);
}

/// Base soundness: every tuple of `var_used` is in the final liveness
/// relation.
pub proof fn lemma_base_liveness(f: Facts, v: Variable, p: Point)
    requires
        f.var_used.contains((v, p)),
    ensures
        var_live(f, v, p),
{
    assert(reach_within(live_seed(f), f.var_defined, f.cfg_edge, Option::None, v, p, 0));
}

/// Propagation soundness: liveness at a successor point extends backward
/// along a control-flow edge whenever the predecessor does not (re)define
/// the variable.
pub proof fn lemma_backward_propagation(f: Facts, v: Variable, p: Point, q: Point)
    requires
        var_live(f, v, q),
        f.cfg_edge.contains((p, q)),
        !f.var_defined.contains((v, p)),
    ensures
        var_live(f, v, p),
{
    lemma_reach_step(live_seed(f), f.var_defined, f.cfg_edge, Option::None, v, p, q);
}

/// Kill correctness: a definition without a use at the same point blocks
/// liveness there entirely — no backward propagation from any successor can
/// derive the tuple, and the base rule does not seed it.
pub proof fn lemma_kill(f: Facts, v: Variable, p: Point)
    requires
        f.var_defined.contains((v, p)),
        !f.var_used.contains((v, p)),
    ensures
        !var_live(f, v, p),
{
    assert forall|n: nat| !reach_within(
        live_seed(f),
        f.var_defined,
        f.cfg_edge,
        Option::None,
        v,
        p,
        n,
    ) by {
        assert(!live_seed(f).contains((v, p)));
    }
}

/// Universal coverage: a universal region is live at every point of the
/// control-flow graph, independent of the rule-based derivation.
pub proof fn lemma_universal_coverage(f: Facts, universal: Set<Origin>, r: Origin, p: Point)
    requires
        universal.contains(r),
        cfg_point(f.cfg_edge, p),
    ensures
        region_live(f, universal, r, p),
{
}

/// Termination bound: every derivable tuple lies in the finite universe
/// [`reach_universe`] built from the seed and edge relations, whose size
/// [`crate::rules::lemma_universe_finite`] bounds by
/// `seed.len() + seed.len() * edges.len()`. Each fixpoint round that does
/// not stop adds at least one universe tuple to the growing relation, so
/// the number of rounds is finite and bounded by that count; the same
/// quantity is the decreasing measure of the solver's fixpoint loop.
pub proof fn lemma_derivation_bounded(
    seed: Seq<(Variable, Point)>,
    kill: Set<(Variable, Point)>,
    edges: Seq<(Point, Point)>,
    keep: Option<Set<(Variable, Point)>>,
    v: Variable,
    p: Point,
)
    requires
        reachable(seed.to_set(), kill, edges.to_set(), keep, v, p),
    ensures
        reach_universe(seed, edges).contains((v, p)),
{
    let n = choose|n: nat| reach_within(seed.to_set(), kill, edges.to_set(), keep, v, p, n);
    lemma_reach_in_universe(seed, kill, edges, keep, v, p, n);
}

} // verus!
