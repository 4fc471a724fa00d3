//! Trainer variants compared by the matrix-game experiment harness.
use vstd::prelude::*;

verus! {

/// Trainer variant under test.
#[derive(Debug, Clone, Copy, PartialEq, Eq, Structural)]
pub enum MatrixTrainerKind {
    Ppo,
    WolfPpo,
}

} // verus!
