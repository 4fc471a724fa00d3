//! WoLF-PPO learning-rate branches.
pub mod wolf;
