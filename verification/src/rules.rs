//! The rule set, as mathematics.
//!
//! Liveness is the least relation closed under a seed rule and one backward
//! propagation rule along control-flow edges. Both the plain and the drop
//! variant of liveness are instances of one round-indexed derivability
//! predicate, [`reach_within`]: a tuple is derivable within `n` rounds if it
//! is seeded, or follows in one propagation step from a tuple derivable
//! within `n - 1` rounds. The solver's contracts state that its relations
//! hold exactly the derivable tuples.

use vstd::prelude::*;

use crate::ids::{Origin, Point, Variable};

verus! {

/// The input relations of one analysis run, as sets of tuples.
pub struct Facts {
    /// Variable read at point.
    pub var_used: Set<(Variable, Point)>,
    /// Variable potentially read by an implicit drop at point.
    pub var_drop_used: Set<(Variable, Point)>,
    /// Variable (re)assigned at point, killing prior liveness.
    pub var_defined: Set<(Variable, Point)>,
    /// Variable's type mentions this region.
    pub var_uses_region: Set<(Variable, Origin)>,
    /// Variable's drop implementation mentions this region.
    pub var_drops_region: Set<(Variable, Origin)>,
    /// Directed control-flow successor edges.
    pub cfg_edge: Set<(Point, Point)>,
    /// Variable may hold a value when control leaves the point.
    pub var_maybe_initialized_on_exit: Set<(Variable, Point)>,
}

/// The [`Facts`] read off the materialized input relations.
pub open spec fn facts_of(
    var_used: Seq<(Variable, Point)>,
    var_drop_used: Seq<(Variable, Point)>,
    var_defined: Seq<(Variable, Point)>,
    var_uses_region: Seq<(Variable, Origin)>,
    var_drops_region: Seq<(Variable, Origin)>,
    cfg_edge: Seq<(Point, Point)>,
    var_maybe_initialized_on_exit: Seq<(Variable, Point)>,
) -> Facts {
    Facts {
        var_used: var_used.to_set(),
        var_drop_used: var_drop_used.to_set(),
        var_defined: var_defined.to_set(),
        var_uses_region: var_uses_region.to_set(),
        var_drops_region: var_drops_region.to_set(),
        cfg_edge: cfg_edge.to_set(),
        var_maybe_initialized_on_exit: var_maybe_initialized_on_exit.to_set(),
    }
}

/// The optional extra condition of a propagation step: absent, or membership
/// in a guard relation.
pub open spec fn step_ok(keep: Option<Set<(Variable, Point)>>, v: Variable, p: Point) -> bool {
    match keep {
        Option::None => true,
        Option::Some(s) => s.contains((v, p)),
    }
}

/// `(v, p)` is derivable within `n` propagation rounds from `seed`, stepping
/// backward along `edges`, blocked at tuples in `kill`, and (when `keep` is
/// set) allowed only at tuples in the guard relation.
pub open spec fn reach_within(
    seed: Set<(Variable, Point)>,
    kill: Set<(Variable, Point)>,
    edges: Set<(Point, Point)>,
    keep: Option<Set<(Variable, Point)>>,
    v: Variable,
    p: Point,
    n: nat,
) -> bool
    decreases n,
{
    seed.contains((v, p)) || (n > 0 && !kill.contains((v, p)) && step_ok(keep, v, p) && exists|
        q: Point,
    |
        edges.contains((p, q)) && reach_within(seed, kill, edges, keep, v, q, (n - 1) as nat))
}

/// `(v, p)` is derivable in some finite number of rounds.
pub open spec fn reachable(
    seed: Set<(Variable, Point)>,
    kill: Set<(Variable, Point)>,
    edges: Set<(Point, Point)>,
    keep: Option<Set<(Variable, Point)>>,
    v: Variable,
    p: Point,
) -> bool {
    exists|n: nat| reach_within(seed, kill, edges, keep, v, p, n)
}

/// `(v, q)` joins a tuple of `vmie` with an edge: the variable may be
/// initialized on exit from some predecessor of `q`.
pub open spec fn on_entry(
    vmie: Set<(Variable, Point)>,
    edges: Set<(Point, Point)>,
    v: Variable,
    q: Point,
) -> bool {
    exists|p: Point| vmie.contains((v, p)) && edges.contains((p, q))
}

/// `var_maybe_initialized_on_entry(V, Q) :-
///     var_maybe_initialized_on_exit(V, P), cfg_edge(P, Q).`
pub open spec fn var_maybe_initialized_on_entry(f: Facts, v: Variable, q: Point) -> bool {
    on_entry(f.var_maybe_initialized_on_exit, f.cfg_edge, v, q)
}

/// `(r, p)` joins a liveness tuple with a variable-to-region tuple: some
/// variable is live at `p` and mentions region `r`.
pub open spec fn region_rule(
    live: Set<(Variable, Point)>,
    var_region: Set<(Variable, Origin)>,
    r: Origin,
    p: Point,
) -> bool {
    exists|v: Variable| live.contains((v, p)) && var_region.contains((v, r))
}

/// The seeds of plain liveness: `var_live(V, P) :- var_used(V, P)`.
pub open spec fn live_seed(f: Facts) -> Set<(Variable, Point)> {
    f.var_used
}

/// The seeds of drop-liveness:
/// `var_drop_live(V, P) :- var_drop_used(V, P), var_maybe_initialized_on_entry(V, P).`
pub open spec fn drop_live_seed(f: Facts) -> Set<(Variable, Point)> {
    Set::new(
        |t: (Variable, Point)|
            f.var_drop_used.contains(t) && var_maybe_initialized_on_entry(f, t.0, t.1),
    )
}

/// Variable `v` is live upon entry to point `p`: it is used there, or live at
/// a control-flow successor it propagates back from, unless (re)defined at
/// `p`:
/// `var_live(V, P) :- var_live(V, Q), cfg_edge(P, Q), !var_defined(V, P).`
pub open spec fn var_live(f: Facts, v: Variable, p: Point) -> bool {
    reachable(live_seed(f), f.var_defined, f.cfg_edge, Option::None, v, p)
}

/// Variable `v` is drop-live upon entry to point `p`; backward propagation
/// additionally requires that the variable may still hold a value at `p`:
/// `var_drop_live(V, P) :- var_drop_live(V, Q), cfg_edge(P, Q),
///     !var_defined(V, P), var_maybe_initialized_on_exit(V, P).`
pub open spec fn var_drop_live(f: Facts, v: Variable, p: Point) -> bool {
    reachable(
        drop_live_seed(f),
        f.var_defined,
        f.cfg_edge,
        Option::Some(f.var_maybe_initialized_on_exit),
        v,
        p,
    )
}

/// The plain liveness relation, as a set of tuples.
pub open spec fn live_set(f: Facts) -> Set<(Variable, Point)> {
    Set::new(|t: (Variable, Point)| var_live(f, t.0, t.1))
}

/// The drop-liveness relation, as a set of tuples.
pub open spec fn drop_live_set(f: Facts) -> Set<(Variable, Point)> {
    Set::new(|t: (Variable, Point)| var_drop_live(f, t.0, t.1))
}

/// Region `r` is made live at `p` by the two rule-based derivations:
/// `region_live_at(R, P) :- var_drop_live(V, P), var_drops_region(V, R).`
/// `region_live_at(R, P) :- var_live(V, P), var_uses_region(V, R).`
pub open spec fn region_live_by_rules(f: Facts, r: Origin, p: Point) -> bool {
    region_rule(drop_live_set(f), f.var_drops_region, r, p) || region_rule(
        live_set(f),
        f.var_uses_region,
        r,
        p,
    )
}

/// `p` appears in the control-flow graph, as either endpoint of some edge.
pub open spec fn cfg_point(edges: Set<(Point, Point)>, p: Point) -> bool {
    exists|q: Point| edges.contains((p, q)) || edges.contains((q, p))
}

/// The final answer: a region is live at a point if the rules derive it, or
/// if it is a universal region and the point appears in the control-flow
/// graph.
pub open spec fn region_live(f: Facts, universal: Set<Origin>, r: Origin, p: Point) -> bool {
    region_live_by_rules(f, r, p) || (universal.contains(r) && cfg_point(f.cfg_edge, p))
}

/// `live` contains every seed and is closed under the propagation rule.
pub open spec fn closed_under(
    live: Set<(Variable, Point)>,
    seed: Set<(Variable, Point)>,
    kill: Set<(Variable, Point)>,
    edges: Set<(Point, Point)>,
    keep: Option<Set<(Variable, Point)>>,
) -> bool {
    (forall|t: (Variable, Point)| seed.contains(t) ==> live.contains(t)) && (forall|
        v: Variable,
        p: Point,
        q: Point,
    |
        live.contains((v, q)) && edges.contains((p, q)) && !kill.contains((v, p)) && step_ok(
            keep,
            v,
            p,
        ) ==> live.contains((v, p)))
}

/// Every candidate tuple a propagation step can form: a variable taken from
/// some seed tuple, paired with the source point of some edge, laid out as
/// one flat sequence of length `seed.len() * edges.len()`.
pub open spec fn step_candidates(
    seed: Seq<(Variable, Point)>,
    edges: Seq<(Point, Point)>,
) -> Seq<(Variable, Point)> {
    Seq::new(
        seed.len() * edges.len(),
        |k: int| (seed[k / edges.len() as int].0, edges[k % edges.len() as int].0),
    )
}

/// The finite universe that every derivable tuple lies in: the seeds
/// themselves, plus every candidate a step can form.
pub open spec fn reach_universe(
    seed: Seq<(Variable, Point)>,
    edges: Seq<(Point, Point)>,
) -> Set<(Variable, Point)> {
    (seed + step_candidates(seed, edges)).to_set()
}

/// Every seed tuple lies in the universe.
pub proof fn lemma_seed_in_universe(
    seed: Seq<(Variable, Point)>,
    edges: Seq<(Point, Point)>,
    i: int,
)
    requires
        0 <= i < seed.len(),
    ensures
        reach_universe(seed, edges).contains(seed[i]),
{
    let all = seed + step_candidates(seed, edges);
    assert(all[i] == seed[i]);
    assert(all.contains(seed[i]));
}

/// Every step candidate lies in the universe.
pub proof fn lemma_candidate_in_universe(
    seed: Seq<(Variable, Point)>,
    edges: Seq<(Point, Point)>,
    i: int,
    k: int,
)
    requires
        0 <= i < seed.len(),
        0 <= k < edges.len(),
    ensures
        reach_universe(seed, edges).contains((seed[i].0, edges[k].0)),
{
    let e = edges.len() as int;
    let j = i * e + k;
    assert(0 <= j && j < seed.len() * e) by (nonlinear_arith)
        requires
            0 <= i < seed.len(),
            0 <= k < e,
            j == i * e + k,
    ;
    vstd::arithmetic::div_mod::lemma_fundamental_div_mod_converse(j, e, i, k);
    assert(step_candidates(seed, edges)[j] == (seed[i].0, edges[k].0));
    let all = seed + step_candidates(seed, edges);
    assert(all[seed.len() + j] == (seed[i].0, edges[k].0));
    assert(all.contains((seed[i].0, edges[k].0)));
}

/// The universe is finite, with at most one tuple per seed plus one per
/// seed/edge combination. Every fixpoint round that does not reach the
/// fixpoint adds at least one tuple of this universe to its relation, so the
/// number of rounds is bounded by this count; it is the decreasing measure of
/// the solver's outer loop.
pub proof fn lemma_universe_finite(seed: Seq<(Variable, Point)>, edges: Seq<(Point, Point)>)
    ensures
        reach_universe(seed, edges).finite(),
        reach_universe(seed, edges).len() <= seed.len() + seed.len() * edges.len(),
{
    let all = seed + step_candidates(seed, edges);
    all.lemma_cardinality_of_set();
}

/// A step away from a tuple of the universe stays in the universe: the
/// variable is kept, the point is replaced by any edge's source point.
pub proof fn lemma_universe_step(
    seed: Seq<(Variable, Point)>,
    edges: Seq<(Point, Point)>,
    t: (Variable, Point),
    k: int,
)
    requires
        reach_universe(seed, edges).contains(t),
        0 <= k < edges.len(),
    ensures
        reach_universe(seed, edges).contains((t.0, edges[k].0)),
{
    let all = seed + step_candidates(seed, edges);
    let idx = choose|idx: int| 0 <= idx < all.len() && all[idx] == t;
    let e = edges.len() as int;
    let vi = if idx < seed.len() {
        idx
    } else {
        (idx - seed.len()) / e
    };
    assert(0 <= vi < seed.len() && seed[vi].0 == t.0) by {
        if idx >= seed.len() {
            let j = idx - seed.len();
            vstd::arithmetic::div_mod::lemma_div_pos_is_pos(j, e);
            vstd::arithmetic::div_mod::lemma_multiply_divide_lt(j, e, seed.len() as int);
        }
    }
    lemma_candidate_in_universe(seed, edges, vi, k);
}

/// Every derivable tuple lies in the universe.
pub proof fn lemma_reach_in_universe(
    seed: Seq<(Variable, Point)>,
    kill: Set<(Variable, Point)>,
    edges: Seq<(Point, Point)>,
    keep: Option<Set<(Variable, Point)>>,
    v: Variable,
    p: Point,
    n: nat,
)
    requires
        reach_within(seed.to_set(), kill, edges.to_set(), keep, v, p, n),
    ensures
        reach_universe(seed, edges).contains((v, p)),
    decreases n,
{
    if seed.to_set().contains((v, p)) {
        let i = choose|i: int| 0 <= i < seed.len() && seed[i] == (v, p);
        lemma_seed_in_universe(seed, edges, i);
    } else {
        let q = choose|q: Point|
            edges.to_set().contains((p, q)) && reach_within(
                seed.to_set(),
                kill,
                edges.to_set(),
                keep,
                v,
                q,
                (n - 1) as nat,
            );
        lemma_reach_in_universe(seed, kill, edges, keep, v, q, (n - 1) as nat);
        let k = choose|k: int| 0 <= k < edges.len() && edges[k] == (p, q);
        lemma_universe_step(seed, edges, (v, q), k);
    }
}

/// One propagation step preserves derivability: a derivable tuple at a
/// successor point extends to an unkilled, unguarded predecessor.
pub proof fn lemma_reach_step(
    seed: Set<(Variable, Point)>,
    kill: Set<(Variable, Point)>,
    edges: Set<(Point, Point)>,
    keep: Option<Set<(Variable, Point)>>,
    v: Variable,
    p: Point,
    q: Point,
)
    requires
        reachable(seed, kill, edges, keep, v, q),
        edges.contains((p, q)),
        !kill.contains((v, p)),
        step_ok(keep, v, p),
    ensures
        reachable(seed, kill, edges, keep, v, p),
{
    let n = choose|n: nat| reach_within(seed, kill, edges, keep, v, q, n);
    assert(reach_within(seed, kill, edges, keep, v, p, n + 1)) by {
        assert(edges.contains((p, q)) && reach_within(seed, kill, edges, keep, v, q, n));
    }
}

/// A set that contains the seeds and is closed under propagation contains
/// every derivable tuple.
pub proof fn lemma_closed_contains_reach(
    live: Set<(Variable, Point)>,
    seed: Set<(Variable, Point)>,
    kill: Set<(Variable, Point)>,
    edges: Set<(Point, Point)>,
    keep: Option<Set<(Variable, Point)>>,
    v: Variable,
    p: Point,
    n: nat,
)
    requires
        closed_under(live, seed, kill, edges, keep),
        reach_within(seed, kill, edges, keep, v, p, n),
    ensures
        live.contains((v, p)),
    decreases n,
{
    if seed.contains((v, p)) {
    } else {
        let q = choose|q: Point|
            edges.contains((p, q)) && reach_within(seed, kill, edges, keep, v, q, (n - 1) as nat);
        lemma_closed_contains_reach(live, seed, kill, edges, keep, v, q, (n - 1) as nat);
    }
}

} // verus!
