//! Opaque identifier domains.
//!
//! The three identifier kinds are distinct, non-interchangeable types, each a
//! separate integer space with no arithmetic meaning beyond equality. Keeping
//! them apart prevents a point from being mistaken for a variable or a region
//! anywhere in the solver.
//!
//! The spaces are concrete integer newtypes rather than generic parameters:
//! the solver needs nothing of an identifier but decidable equality, and a
//! concrete representation lets the verifier ground `==` structurally. The
//! upstream collaborator that interns raw names maps its identifiers onto
//! these spaces.

use vstd::prelude::*;

verus! {

/// A location in the control-flow graph.
#[derive(Clone, Copy, PartialEq, Eq, Structural, Debug)]
pub struct Point(pub u64);

/// A local value slot tracked by the analysis.
#[derive(Clone, Copy, PartialEq, Eq, Structural, Debug)]
pub struct Variable(pub u64);

/// An abstract lifetime (region) identifier.
#[derive(Clone, Copy, PartialEq, Eq, Structural, Debug)]
pub struct Origin(pub u64);

} // verus!
