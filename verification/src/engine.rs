//! The fixpoint engine.
//!
//! [`propagate`] runs the backward liveness propagation to its fixpoint: it
//! starts from a duplicate-free seed relation and keeps applying the step
//! rule — extend a live tuple backward along a control-flow edge, unless the
//! variable is (re)defined at the predecessor, and (for drop-liveness) only
//! where the guard relation allows it — until a full round adds no tuple.
//! Each round recomputes every edge/tuple combination; that is slower than
//! delta-driven rounds but changes nothing about the final content, which is
//! proved to be exactly the derivable tuples of [`crate::rules::reachable`].

use vstd::prelude::*;

use crate::ids::{Origin, Point, Variable};
use crate::relation::{lemma_push_keeps_no_duplicates, op_contains, vp_contains};
use crate::rules::{
    closed_under, lemma_closed_contains_reach, lemma_reach_step, lemma_seed_in_universe,
    lemma_universe_finite, lemma_universe_step, on_entry, reach_universe, reach_within, reachable,
    region_rule, step_ok,
};

verus! {

broadcast use vstd::seq_lib::lemma_seq_contains_after_push;

/// The guard relation of a propagation step, as the spec model sees it.
pub open spec fn keep_view(keep: Option<&Vec<(Variable, Point)>>) -> Option<
    Set<(Variable, Point)>,
> {
    match keep {
        Option::None => Option::None,
        Option::Some(kv) => Option::Some(kv@.to_set()),
    }
}

/// The round has handled tuple `t` against edge `e`: if the step applies,
/// its conclusion is already in `live`.
spec fn pair_done(
    live: Seq<(Variable, Point)>,
    kill: Set<(Variable, Point)>,
    keep: Option<Set<(Variable, Point)>>,
    e: (Point, Point),
    t: (Variable, Point),
) -> bool {
    (t.1 == e.1 && !kill.contains((t.0, e.0)) && step_ok(keep, t.0, e.0)) ==> live.contains(
        (t.0, e.0),
    )
}

/// A duplicate-free sequence of tuples of a finite set holds no more tuples
/// than the set.
proof fn lemma_len_le_universe(s: Seq<(Variable, Point)>, uni: Set<(Variable, Point)>)
    requires
        s.no_duplicates(),
        uni.finite(),
        forall|j: int| 0 <= j < s.len() ==> uni.contains(#[trigger] s[j]),
    ensures
        s.len() <= uni.len(),
{
    s.unique_seq_to_set();
    assert forall|x: (Variable, Point)| s.to_set().contains(x) implies uni.contains(x) by {
        let j = choose|j: int| 0 <= j < s.len() && s[j] == x;
    }
    vstd::set_lib::lemma_len_subset(s.to_set(), uni);
}

/// Backward propagation to the fixpoint.
///
/// Returns the least relation that contains `seed` and is closed under the
/// step rule: exactly the tuples derivable from the seeds, as sets.
#[verifier::loop_isolation(false)]
pub fn propagate(
    seed: Vec<(Variable, Point)>,
    kill: &Vec<(Variable, Point)>,
    cfg_edge: &Vec<(Point, Point)>,
    keep: Option<&Vec<(Variable, Point)>>,
) -> (live: Vec<(Variable, Point)>)
    requires
        seed@.no_duplicates(),
    ensures
        live@.no_duplicates(),
        forall|v: Variable, p: Point|
            #![trigger live@.contains((v, p))]
            #![trigger reachable(seed@.to_set(), kill@.to_set(), cfg_edge@.to_set(), keep_view(keep), v, p)]
            live@.contains((v, p)) == reachable(
                seed@.to_set(),
                kill@.to_set(),
                cfg_edge@.to_set(),
                keep_view(keep),
                v,
                p,
            ),
{
    let ghost seed0 = seed@;
    let ghost sset = seed@.to_set();
    let ghost kset = kill@.to_set();
    let ghost eset = cfg_edge@.to_set();
    let ghost kp = keep_view(keep);
    let ghost uni = reach_universe(seed@, cfg_edge@);
    let mut live = seed;
    proof {
        lemma_universe_finite(seed0, cfg_edge@);
        assert forall|j: int| 0 <= j < live@.len() implies uni.contains(#[trigger] live@[j]) by {
            lemma_seed_in_universe(seed0, cfg_edge@, j);
        }
        assert forall|j: int| 0 <= j < live@.len() implies reachable(
            sset,
            kset,
            eset,
            kp,
            live@[j].0,
            live@[j].1,
        ) by {
            assert(seed0.contains(seed0[j]));
            assert(reach_within(sset, kset, eset, kp, live@[j].0, live@[j].1, 0));
        }
        lemma_len_le_universe(live@, uni);
    }
    let mut again = true;
    while again
        invariant
            live@.no_duplicates(),
            forall|j: int| 0 <= j < live@.len() ==> uni.contains(#[trigger] live@[j]),
            forall|j: int|
                0 <= j < live@.len() ==> reachable(
                    sset,
                    kset,
                    eset,
                    kp,
                    #[trigger] live@[j].0,
                    live@[j].1,
                ),
            forall|t: (Variable, Point)| sset.contains(t) ==> live@.contains(t),
            live@.len() <= uni.len(),
            !again ==> closed_under(live@.to_set(), sset, kset, eset, kp),
        decreases uni.len() - live@.len() + (if again {
            1int
        } else {
            0int
        }),
    {
        let mut changed = false;
        let ghost live0 = live@;
        let mut ei: usize = 0;
        while ei < cfg_edge.len()
            invariant
                live@.no_duplicates(),
                forall|j: int| 0 <= j < live@.len() ==> uni.contains(#[trigger] live@[j]),
                forall|j: int|
                    0 <= j < live@.len() ==> reachable(
                        sset,
                        kset,
                        eset,
                        kp,
                        #[trigger] live@[j].0,
                        live@[j].1,
                    ),
                forall|t: (Variable, Point)| sset.contains(t) ==> live@.contains(t),
                live@.len() <= uni.len(),
                ei <= cfg_edge@.len(),
                changed ==> live@.len() > live0.len(),
                !changed ==> live@ == live0,
                !changed ==> forall|k: int, j: int|
                    0 <= k < ei && 0 <= j < live@.len() ==> pair_done(
                        live@,
                        kset,
                        kp,
                        #[trigger] cfg_edge@[k],
                        #[trigger] live@[j],
                    ),
            decreases cfg_edge@.len() - ei,
        {
            let edge = cfg_edge[ei];
            let mut li: usize = 0;
            while li < live.len()
                invariant
                    live@.no_duplicates(),
                    forall|j: int| 0 <= j < live@.len() ==> uni.contains(#[trigger] live@[j]),
                    forall|j: int|
                        0 <= j < live@.len() ==> reachable(
                            sset,
                            kset,
                            eset,
                            kp,
                            #[trigger] live@[j].0,
                            live@[j].1,
                        ),
                    forall|t: (Variable, Point)| sset.contains(t) ==> live@.contains(t),
                    live@.len() <= uni.len(),
                    ei < cfg_edge@.len(),
                    li <= live@.len(),
                    changed ==> live@.len() > live0.len(),
                    !changed ==> live@ == live0,
                    !changed ==> forall|k: int, j: int|
                        0 <= k < ei && 0 <= j < live@.len() ==> pair_done(
                            live@,
                            kset,
                            kp,
                            #[trigger] cfg_edge@[k],
                            #[trigger] live@[j],
                        ),
                    !changed ==> forall|j: int|
                        0 <= j < li ==> pair_done(
                            live@,
                            kset,
                            kp,
                            cfg_edge@[ei as int],
                            #[trigger] live@[j],
                        ),
                decreases uni.len() - li,
            {
                let t = live[li];
                if t.1 == edge.1 {
                    let cand = (t.0, edge.0);
                    let killed = vp_contains(kill, cand);
                    let guard_ok = match keep {
                        Option::None => true,
                        Option::Some(kv) => vp_contains(kv, cand),
                    };
                    if !killed && guard_ok && !vp_contains(&live, cand) {
                        proof {
                            assert(cfg_edge@.contains(edge));
                            lemma_reach_step(sset, kset, eset, kp, t.0, edge.0, edge.1);
                            lemma_universe_step(seed0, cfg_edge@, t, ei as int);
                        }
                        let ghost prev = live@;
                        live.push(cand);
                        proof {
                            lemma_push_keeps_no_duplicates(prev, cand);
                            assert forall|u: (Variable, Point)| sset.contains(u) implies live@
                                .contains(u) by {
                                let j = choose|j: int| 0 <= j < prev.len() && prev[j] == u;
                                assert(live@[j] == u);
                            }
                            lemma_len_le_universe(live@, uni);
                        }
                        changed = true;
                    }
                }
                li += 1;
            }
            ei += 1;
        }
        again = changed;
        proof {
            if !changed {
                assert forall|v: Variable, p: Point, q: Point|
                    live@.to_set().contains((v, q)) && eset.contains((p, q)) && !kset.contains(
                        (v, p),
                    ) && step_ok(kp, v, p) implies live@.to_set().contains((v, p)) by {
                    let j = choose|j: int| 0 <= j < live@.len() && live@[j] == (v, q);
                    let k = choose|k: int| 0 <= k < cfg_edge@.len() && cfg_edge@[k] == (p, q);
                    assert(pair_done(live@, kset, kp, cfg_edge@[k], live@[j]));
                }
            }
        }
    }
    proof {
        assert forall|v: Variable, p: Point| live@.contains((v, p)) implies reachable(
            sset,
            kset,
            eset,
            kp,
            v,
            p,
        ) by {
            let j = choose|j: int| 0 <= j < live@.len() && live@[j] == (v, p);
            assert(reachable(sset, kset, eset, kp, live@[j].0, live@[j].1));
        }
        assert forall|v: Variable, p: Point| reachable(sset, kset, eset, kp, v, p) implies live@
            .contains((v, p)) by {
            let n = choose|n: nat| reach_within(sset, kset, eset, kp, v, p, n);
            lemma_closed_contains_reach(live@.to_set(), sset, kset, eset, kp, v, p, n);
        }
    }
    live
}

/// The non-recursive entry join, computed once before the fixpoint:
/// `var_maybe_initialized_on_entry(V, Q) :-
///     var_maybe_initialized_on_exit(V, P), cfg_edge(P, Q).`
pub fn initialized_on_entry(
    vmie: &Vec<(Variable, Point)>,
    cfg_edge: &Vec<(Point, Point)>,
) -> (out: Vec<(Variable, Point)>)
    ensures
        out@.no_duplicates(),
        forall|v: Variable, q: Point|
            #[trigger] out@.contains((v, q)) == on_entry(vmie@.to_set(), cfg_edge@.to_set(), v, q),
{
    let mut out: Vec<(Variable, Point)> = Vec::new();
    let mut i: usize = 0;
    while i < vmie.len()
        invariant
            i <= vmie@.len(),
            out@.no_duplicates(),
            forall|j: int|
                0 <= j < out@.len() ==> on_entry(
                    vmie@.to_set(),
                    cfg_edge@.to_set(),
                    (#[trigger] out@[j]).0,
                    out@[j].1,
                ),
            forall|a: int, k: int|
                #![trigger vmie@[a], cfg_edge@[k]]
                0 <= a < i && 0 <= k < cfg_edge@.len() && vmie@[a].1 == cfg_edge@[k].0
                    ==> out@.contains((vmie@[a].0, cfg_edge@[k].1)),
        decreases vmie@.len() - i,
    {
        let t = vmie[i];
        let mut k: usize = 0;
        while k < cfg_edge.len()
            invariant
                i < vmie@.len(),
                t == vmie@[i as int],
                k <= cfg_edge@.len(),
                out@.no_duplicates(),
                forall|j: int|
                    0 <= j < out@.len() ==> on_entry(
                        vmie@.to_set(),
                        cfg_edge@.to_set(),
                        (#[trigger] out@[j]).0,
                        out@[j].1,
                    ),
                forall|a: int, kk: int|
                    #![trigger vmie@[a], cfg_edge@[kk]]
                    0 <= a < i && 0 <= kk < cfg_edge@.len() && vmie@[a].1 == cfg_edge@[kk].0
                        ==> out@.contains((vmie@[a].0, cfg_edge@[kk].1)),
                forall|kk: int|
                    0 <= kk < k && t.1 == (#[trigger] cfg_edge@[kk]).0 ==> out@.contains(
                        (t.0, cfg_edge@[kk].1),
                    ),
            decreases cfg_edge@.len() - k,
        {
            let e = cfg_edge[k];
            if t.1 == e.0 {
                let cand = (t.0, e.1);
                if !vp_contains(&out, cand) {
                    proof {
                        assert(vmie@.to_set().contains((cand.0, t.1)));
                        assert(cfg_edge@.to_set().contains((t.1, cand.1)));
                        assert(on_entry(vmie@.to_set(), cfg_edge@.to_set(), cand.0, cand.1));
                    }
                    let ghost prev = out@;
                    out.push(cand);
                    proof {
                        lemma_push_keeps_no_duplicates(prev, cand);
                    }
                }
            }
            k += 1;
        }
        i += 1;
    }
    proof {
        assert forall|v: Variable, q: Point| #[trigger] out@.contains((v, q)) implies on_entry(
            vmie@.to_set(),
            cfg_edge@.to_set(),
            v,
            q,
        ) by {
            let j = choose|j: int| 0 <= j < out@.len() && out@[j] == (v, q);
            assert(on_entry(vmie@.to_set(), cfg_edge@.to_set(), out@[j].0, out@[j].1));
        }
        assert forall|v: Variable, q: Point| on_entry(
            vmie@.to_set(),
            cfg_edge@.to_set(),
            v,
            q,
        ) implies #[trigger] out@.contains((v, q)) by {
            let p = choose|p: Point|
                vmie@.to_set().contains((v, p)) && cfg_edge@.to_set().contains((p, q));
            let a = choose|a: int| 0 <= a < vmie@.len() && vmie@[a] == (v, p);
            let k = choose|k: int| 0 <= k < cfg_edge@.len() && cfg_edge@[k] == (p, q);
            assert(out@.contains((vmie@[a].0, cfg_edge@[k].1)));
        }
    }
    out
}

/// The seeds of drop-liveness: the drop-use tuples whose variable may be
/// initialized on entry to the point of use.
pub fn drop_live_seeds(
    var_drop_used: &Vec<(Variable, Point)>,
    on_entry_rel: &Vec<(Variable, Point)>,
) -> (out: Vec<(Variable, Point)>)
    ensures
        out@.no_duplicates(),
        forall|t: (Variable, Point)|
            #[trigger] out@.contains(t) == (var_drop_used@.to_set().contains(t)
                && on_entry_rel@.to_set().contains(t)),
{
    let mut out: Vec<(Variable, Point)> = Vec::new();
    let mut i: usize = 0;
    while i < var_drop_used.len()
        invariant
            i <= var_drop_used@.len(),
            out@.no_duplicates(),
            forall|j: int|
                0 <= j < out@.len() ==> var_drop_used@.to_set().contains(#[trigger] out@[j])
                    && on_entry_rel@.to_set().contains(out@[j]),
            forall|k: int|
                0 <= k < i && on_entry_rel@.to_set().contains(#[trigger] var_drop_used@[k])
                    ==> out@.contains(var_drop_used@[k]),
        decreases var_drop_used@.len() - i,
    {
        let t = var_drop_used[i];
        if vp_contains(on_entry_rel, t) && !vp_contains(&out, t) {
            let ghost prev = out@;
            out.push(t);
            proof {
                lemma_push_keeps_no_duplicates(prev, t);
            }
        }
        i += 1;
    }
    proof {
        assert forall|t: (Variable, Point)|
            var_drop_used@.to_set().contains(t) && on_entry_rel@.to_set().contains(
                t,
            ) implies out@.contains(t) by {
            let k = choose|k: int| 0 <= k < var_drop_used@.len() && var_drop_used@[k] == t;
            assert(out@.contains(var_drop_used@[k]));
        }
        assert forall|t: (Variable, Point)| out@.contains(t) implies var_drop_used@.to_set()
            .contains(t) && on_entry_rel@.to_set().contains(t) by {
            let j = choose|j: int| 0 <= j < out@.len() && out@[j] == t;
        }
    }
    out
}

/// One region-liveness rule: join a liveness relation with a
/// variable-to-region relation on the variable, appending every `(R, P)`
/// conclusion not yet present in `acc`.
pub fn join_region(
    acc: Vec<(Origin, Point)>,
    live: &Vec<(Variable, Point)>,
    var_region: &Vec<(Variable, Origin)>,
) -> (out: Vec<(Origin, Point)>)
    requires
        acc@.no_duplicates(),
    ensures
        out@.no_duplicates(),
        forall|r: Origin, p: Point|
            #[trigger] out@.contains((r, p)) == (acc@.contains((r, p)) || region_rule(
                live@.to_set(),
                var_region@.to_set(),
                r,
                p,
            )),
{
    let ghost acc0 = acc@;
    let mut out = acc;
    let mut i: usize = 0;
    while i < live.len()
        invariant
            i <= live@.len(),
            out@.no_duplicates(),
            forall|j: int|
                0 <= j < out@.len() ==> acc0.contains(#[trigger] out@[j]) || region_rule(
                    live@.to_set(),
                    var_region@.to_set(),
                    out@[j].0,
                    out@[j].1,
                ),
            forall|t: (Origin, Point)| acc0.contains(t) ==> out@.contains(t),
            forall|a: int, k: int|
                #![trigger live@[a], var_region@[k]]
                0 <= a < i && 0 <= k < var_region@.len() && live@[a].0 == var_region@[k].0
                    ==> out@.contains((var_region@[k].1, live@[a].1)),
        decreases live@.len() - i,
    {
        let t = live[i];
        let mut k: usize = 0;
        while k < var_region.len()
            invariant
                i < live@.len(),
                t == live@[i as int],
                k <= var_region@.len(),
                out@.no_duplicates(),
                forall|j: int|
                    0 <= j < out@.len() ==> acc0.contains(#[trigger] out@[j]) || region_rule(
                        live@.to_set(),
                        var_region@.to_set(),
                        out@[j].0,
                        out@[j].1,
                    ),
                forall|t2: (Origin, Point)| acc0.contains(t2) ==> out@.contains(t2),
                forall|a: int, kk: int|
                    #![trigger live@[a], var_region@[kk]]
                    0 <= a < i && 0 <= kk < var_region@.len() && live@[a].0 == var_region@[kk].0
                        ==> out@.contains((var_region@[kk].1, live@[a].1)),
                forall|kk: int|
                    0 <= kk < k && t.0 == (#[trigger] var_region@[kk]).0 ==> out@.contains(
                        (var_region@[kk].1, t.1),
                    ),
            decreases var_region@.len() - k,
        {
            let b = var_region[k];
            if t.0 == b.0 {
                let cand = (b.1, t.1);
                if !op_contains(&out, cand) {
                    proof {
                        assert(live@.to_set().contains((b.0, cand.1)));
                        assert(var_region@.to_set().contains((b.0, cand.0)));
                        assert(region_rule(
                            live@.to_set(),
                            var_region@.to_set(),
                            cand.0,
                            cand.1,
                        ));
                    }
                    let ghost prev = out@;
                    out.push(cand);
                    proof {
                        lemma_push_keeps_no_duplicates(prev, cand);
                    }
                }
            }
            k += 1;
        }
        i += 1;
    }
    proof {
        assert forall|r: Origin, p: Point| #[trigger] out@.contains((r, p)) implies (acc0.contains(
            (r, p),
        ) || region_rule(live@.to_set(), var_region@.to_set(), r, p)) by {
            let j = choose|j: int| 0 <= j < out@.len() && out@[j] == (r, p);
            assert(acc0.contains(out@[j]) || region_rule(
                live@.to_set(),
                var_region@.to_set(),
                out@[j].0,
                out@[j].1,
            ));
        }
        assert forall|r: Origin, p: Point|
            region_rule(live@.to_set(), var_region@.to_set(), r, p) implies #[trigger] out@
            .contains((r, p)) by {
            let v = choose|v: Variable|
                live@.to_set().contains((v, p)) && var_region@.to_set().contains((v, r));
            let a = choose|a: int| 0 <= a < live@.len() && live@[a] == (v, p);
            let k = choose|k: int| 0 <= k < var_region@.len() && var_region@[k] == (v, r);
            assert(out@.contains((var_region@[k].1, live@[a].1)));
        }
    }
    out
}

} // verus!
