//! Observation sizes and fixed baseline policies of the microstructure sim.
use vstd::prelude::*;
use crate::action::Action;

verus! {

/// Features per stream frame (7-D depth window).
pub const FEATURES_PER_FRAME: usize = 7;

/// Features per ladder rung.
pub const LADDER_FEATURES_PER_RUNG: usize = 5;

pub open spec fn at_least_one(n: usize) -> int {
    if n == 0 {
        1
    } else {
        n as int
    }
}

/// Flattened stream observation size for the given window length: seven
/// features per frame, at least one frame.
pub fn microstructure_obs_dim(window_frames: usize) -> (r: i64)
    requires
        FEATURES_PER_FRAME * at_least_one(window_frames) <= i64::MAX,
        FEATURES_PER_FRAME * at_least_one(window_frames) <= usize::MAX,
    ensures
        r == FEATURES_PER_FRAME * at_least_one(window_frames),
{
    let frames: usize = if window_frames == 0 {
        1
    } else {
        window_frames
    };
    (FEATURES_PER_FRAME * frames) as i64
}

/// Flattened parallel ladder observation size: five features per rung, at
/// least one rung.
pub fn ladder_obs_dim(rung_count: usize) -> (r: i64)
    requires
        LADDER_FEATURES_PER_RUNG * at_least_one(rung_count) <= i64::MAX,
        LADDER_FEATURES_PER_RUNG * at_least_one(rung_count) <= usize::MAX,
    ensures
        r == LADDER_FEATURES_PER_RUNG * at_least_one(rung_count),
{
    let rungs: usize = if rung_count == 0 {
        1
    } else {
        rung_count
    };
    (rungs * LADDER_FEATURES_PER_RUNG) as i64
}

/// Fixed baseline policies for oracle / hold comparisons.
#[derive(Debug, Clone, Copy, PartialEq, Eq, Structural)]
pub enum BaselinePolicy {
    Hold,
    Long,
    Short,
    Oracle,
    Random,
}

/// Sign of the configured mid drift: below, at or above zero.
#[derive(Debug, Clone, Copy, PartialEq, Eq, Structural)]
pub enum DriftSign {
    Down,
    Flat,
    Up,
}

/// The linear-congruential draw behind the random baseline at `step`.
pub open spec fn random_draw(seed: u64, step: u64) -> u64 {
    let state = ((seed + step + 1) % 0x1_0000_0000_0000_0000) as u64;
    let mixed = ((state * 6364136223846793005u64) % 0x1_0000_0000_0000_0000) as u64;
    ((mixed + 1) % 0x1_0000_0000_0000_0000) as u64
}

pub open spec fn spec_baseline_action(
    policy: BaselinePolicy,
    drift: DriftSign,
    seed: u64,
    step: u64,
) -> Action {
    match policy {
        BaselinePolicy::Hold => Action::Hold,
        BaselinePolicy::Long => Action::Buy,
        BaselinePolicy::Short => Action::Sell,
        BaselinePolicy::Oracle => if step == 0 {
            match drift {
                DriftSign::Up => Action::Buy,
                DriftSign::Down => Action::Sell,
                DriftSign::Flat => Action::Hold,
            }
        } else {
            Action::Hold
        },
        BaselinePolicy::Random => {
            let d = random_draw(seed, step) % 3;
            if d == 0 {
                Action::Hold
            } else if d == 1 {
                Action::Buy
            } else {
                Action::Sell
            }
        },
    }
}

/// The baseline's action at `step`: fixed actions for hold/long/short, one
/// entry in the drift direction for the oracle, and a seeded
/// linear-congruential draw for the random baseline.
pub fn baseline_action(policy: BaselinePolicy, drift: DriftSign, seed: u64, step: u64) -> (r:
    Action)
    requires
        step < u64::MAX,
    ensures
        r == spec_baseline_action(policy, drift, seed, step),
{
    match policy {
        BaselinePolicy::Hold => Action::Hold,
        BaselinePolicy::Long => Action::Buy,
        BaselinePolicy::Short => Action::Sell,
        BaselinePolicy::Oracle => {
            if step == 0 {
                match drift {
                    DriftSign::Up => Action::Buy,
                    DriftSign::Down => Action::Sell,
                    DriftSign::Flat => Action::Hold,
                }
            } else {
                Action::Hold
            }
        },
        BaselinePolicy::Random => {
            let mut state = seed.wrapping_add(step + 1);
            state = state.wrapping_mul(6364136223846793005).wrapping_add(1);
            match state % 3 {
                0 => Action::Hold,
                1 => Action::Buy,
                _ => Action::Sell,
            }
        },
    }
}

} // verus!
