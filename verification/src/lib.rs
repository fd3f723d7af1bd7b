//! A rank-1 constraint system (R1CS) encoding of the circle relation
//! x^2 + y^2 = r^2 over the BLS12-381 scalar field, with x and y private
//! and the radius r public.

use vstd::prelude::*;

pub mod circle;
pub mod field;
pub mod r1cs;

pub use circle::CircleDemo;

verus! {

/// A failure raised while synthesizing a circuit into a constraint system.
#[derive(Clone, Copy, Debug, PartialEq, Eq, Structural)]
pub enum SynthesisError {
    /// A variable needed a concrete value, but none was supplied.
    AssignmentMissing,
}

} // verus!
