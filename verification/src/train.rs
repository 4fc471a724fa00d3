//! Checkpoint architectures and the training-driver configuration.
pub mod gaussian;
pub mod driver;
