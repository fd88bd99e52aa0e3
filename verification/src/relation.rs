//! Relation store: set-valued tuple collections.
//!
//! A relation is a duplicate-free `Vec` of tuples, read as the set of its
//! elements. The helpers here answer membership probes and build
//! duplicate-free copies and projections; the join shapes live with the
//! engine that uses them.

use vstd::prelude::*;

use crate::ids::{Origin, Point, Variable};

verus! {

/// Pushing an element that is not yet present keeps a sequence
/// duplicate-free. Every relation in this crate grows only through pushes
/// guarded by a membership probe, so this lemma carries the set
/// representation invariant through each of them.
pub proof fn lemma_push_keeps_no_duplicates<T>(s: Seq<T>, x: T)
    requires
        s.no_duplicates(),
        !s.contains(x),
    ensures
        s.push(x).no_duplicates(),
{
    assert forall|a: int, b: int|
        0 <= a < s.push(x).len() && 0 <= b < s.push(x).len() && a != b implies s.push(x)[a] != s
        .push(x)[b] by {
        if a < s.len() && b == s.len() {
            assert(s[a] != x);
        } else if b < s.len() && a == s.len() {
            assert(s[b] != x);
        }
    }
}

/// Membership probe for a `Variable x Point` relation.
pub fn vp_contains(rel: &Vec<(Variable, Point)>, t: (Variable, Point)) -> (r: bool)
    ensures
        r == rel@.contains(t),
{
    let mut i: usize = 0;
    while i < rel.len()
        invariant
            i <= rel@.len(),
            forall|k: int| 0 <= k < i ==> rel@[k] != t,
        decreases rel@.len() - i,
    {
        if rel[i].0 == t.0 && rel[i].1 == t.1 {
            return true;
        }
        i += 1;
    }
    false
}

/// Membership probe for an `Origin x Point` relation.
pub fn op_contains(rel: &Vec<(Origin, Point)>, t: (Origin, Point)) -> (r: bool)
    ensures
        r == rel@.contains(t),
{
    let mut i: usize = 0;
    while i < rel.len()
        invariant
            i <= rel@.len(),
            forall|k: int| 0 <= k < i ==> rel@[k] != t,
        decreases rel@.len() - i,
    {
        if rel[i].0 == t.0 && rel[i].1 == t.1 {
            return true;
        }
        i += 1;
    }
    false
}

/// Membership probe for a set of points.
pub fn pt_contains(pts: &Vec<Point>, p: Point) -> (r: bool)
    ensures
        r == pts@.contains(p),
{
    let mut i: usize = 0;
    while i < pts.len()
        invariant
            i <= pts@.len(),
            forall|k: int| 0 <= k < i ==> pts@[k] != p,
        decreases pts@.len() - i,
    {
        if pts[i] == p {
            return true;
        }
        i += 1;
    }
    false
}

/// Membership probe for a set of variables.
pub fn var_contains(vs: &Vec<Variable>, v: Variable) -> (r: bool)
    ensures
        r == vs@.contains(v),
{
    let mut i: usize = 0;
    while i < vs.len()
        invariant
            i <= vs@.len(),
            forall|k: int| 0 <= k < i ==> vs@[k] != v,
        decreases vs@.len() - i,
    {
        if vs[i] == v {
            return true;
        }
        i += 1;
    }
    false
}

/// Duplicate-free copy of a `Variable x Point` relation: the same set of
/// tuples, each kept once.
pub fn vp_dedup(rel: &Vec<(Variable, Point)>) -> (out: Vec<(Variable, Point)>)
    ensures
        out@.no_duplicates(),
        forall|t: (Variable, Point)| out@.contains(t) == rel@.contains(t),
{
    let mut out: Vec<(Variable, Point)> = Vec::new();
    let mut i: usize = 0;
    while i < rel.len()
        invariant
            i <= rel@.len(),
            out@.no_duplicates(),
            forall|t: (Variable, Point)| #[trigger] out@.contains(t) ==> rel@.contains(t),
            forall|k: int| 0 <= k < i ==> out@.contains(rel@[k]),
        decreases rel@.len() - i,
    {
        let t = rel[i];
        let ghost prev = out@;
        if !vp_contains(&out, t) {
            out.push(t);
            proof {
                lemma_push_keeps_no_duplicates(prev, t);
            }
        }
        proof {
            assert forall|u: (Variable, Point)| #[trigger] out@.contains(u) implies rel@.contains(
                u,
            ) by {
                let k = choose|k: int| 0 <= k < out@.len() && out@[k] == u;
                if k < prev.len() {
                    assert(prev.contains(u));
                } else {
                    assert(u == rel@[i as int]);
                }
            }
            assert forall|k: int| 0 <= k < i + 1 implies out@.contains(rel@[k]) by {
                if k < i {
                    let j = choose|j: int| 0 <= j < prev.len() && prev[j] == rel@[k];
                    assert(out@[j] == rel@[k]);
                } else {
                    if prev.contains(t) {
                        let j = choose|j: int| 0 <= j < prev.len() && prev[j] == t;
                        assert(out@[j] == t);
                    } else {
                        assert(out@[out@.len() - 1] == t);
                    }
                }
            }
        }
        i += 1;
    }
    proof {
        assert forall|t: (Variable, Point)| rel@.contains(t) implies out@.contains(t) by {
            let k = choose|k: int| 0 <= k < rel@.len() && rel@[k] == t;
        }
    }
    out
}

} // verus!
