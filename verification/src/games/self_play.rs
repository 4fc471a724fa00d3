//! Trainer variants that drive matrix-game self-play.
use vstd::prelude::*;

verus! {

/// Which trainer drives self-play.
#[derive(Debug, Clone, Copy, PartialEq, Eq, Structural)]
pub enum MatrixTrainerKind {
    Ppo,
    WolfPpo,
}

} // verus!
