//! Architectures of the tanh-Gaussian inventory policy and the retired tree.
use vstd::prelude::*;
use crate::onnx::{names_retired_unit_lot, path_is_retired_unit_lot};

verus! {

/// Host fossils of the old 3-logit unit-lot microstructure policy. Weights
/// under it are never resumed: the Gaussian ladder head cannot load them.
pub const RETIRED_UNIT_LOT_MICROSTRUCTURE: &'static str = "_retired_unit_lot_microstructure";

/// Checkpoint architecture directory for the Gaussian MLP ladder policy.
pub const GAUSSIAN_MLP_ARCH: &'static str = "gaussian_mlp";

/// Checkpoint architecture directory for the Liquid-on-rungs Gaussian.
pub const GAUSSIAN_LIQUID_ARCH: &'static str = "gaussian_liquid";

/// Function-approximator kind for the continuous inventory policy.
#[derive(Debug, Clone, Copy, PartialEq, Eq, Structural)]
pub enum GaussianArchitecture {
    /// Flattened-ladder MLP.
    Mlp,
    /// Liquid unrolled along rungs.
    LiquidRungs,
}

impl Default for GaussianArchitecture {
    fn default() -> (r: Self)
        ensures
            r == GaussianArchitecture::Mlp,
    {
        GaussianArchitecture::Mlp
    }
}

/// `true` when `path` is under the retired unit-lot fossil tree: one of its
/// `/`-separated components is that directory name, ASCII case ignored.
pub fn is_retired_unit_lot_dir(path: &str) -> (r: bool)
    ensures
        r == names_retired_unit_lot(path@),
{
    path_is_retired_unit_lot(path)
}

} // verus!
