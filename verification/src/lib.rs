//! Verified core of the trolly training gym: action encoding, feature ring
//! buffers, the ONNX Gaussian-mean graph codec, the weekday training
//! schedule, ClickHouse request building and checkpoint fingerprint naming.
use vstd::prelude::*;

pub mod text;
pub mod onnx;
pub mod orchestrator;
pub mod action;
pub mod replay;
pub mod device;
pub mod fingerprint;
pub mod ticks;
pub mod env;
pub mod observation;
pub mod policy;
pub mod torch;
pub mod games;
pub mod ppo;
pub mod sim;
pub mod train;
pub mod wire;

pub use action::{Action, ActionDecision};
pub use env::ObservationLayout;
pub use fingerprint::{ModelFingerprint, FINGERPRINT_SIDECAR};
pub use onnx::{
    inspect_gaussian_mu_onnx, path_is_retired_unit_lot, GaussianMuOnnxInfo, OnnxExportError,
    OnnxPolicyError, DEFAULT_GAUSSIAN_MU_ONNX_OBS_DIM, GAUSSIAN_MU_ONNX_INPUT,
    GAUSSIAN_MU_ONNX_OUTPUT,
};
pub use policy::HoldPolicy;
pub use replay::FeatureRingBuffer;
pub use ticks::{require_clickhouse_reachable, ClickHouseTicks, DEFAULT_CLICKHOUSE_URL};

verus! {

/// Whether the crate was built with libtorch support. This build carries no
/// libtorch bindings.
pub fn torch_enabled() -> (r: bool)
    ensures
        !r,
{
    false
}

/// Whether the crate was built with ONNX Runtime support. The verified
/// library links no ONNX Runtime session code.
pub fn ort_enabled() -> (r: bool)
    ensures
        !r,
{
    false
}

} // verus!
