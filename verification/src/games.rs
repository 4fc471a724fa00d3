//! Two-player zero-sum matrix games and the trainers driven on them.
pub mod matrix;
pub mod harness;
pub mod self_play;
