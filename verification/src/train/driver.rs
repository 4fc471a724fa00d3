//! Configuration of the stream/env training driver.
use vstd::prelude::*;

verus! {

/// Configuration for the stream/env training driver.
#[derive(Debug, Clone)]
pub struct WolfPpoTrainConfig {
    /// Log the NES distance after each update (matrix-game harness).
    pub log_nes_distance: bool,
}

impl Default for WolfPpoTrainConfig {
    fn default() -> (r: Self)
        ensures
            !r.log_nes_distance,
    {
        WolfPpoTrainConfig { log_nes_distance: false }
    }
}

} // verus!
