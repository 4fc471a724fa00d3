use trolly_gym::env::ObservationLayout;
use trolly_gym::games::matrix::MatrixGameKind;
use trolly_gym::games::{harness, self_play};
use trolly_gym::policy::gaussian_architecture_from_path;
use trolly_gym::ppo::wolf::WolfMode;
use trolly_gym::sim::{baseline_action, ladder_obs_dim, microstructure_obs_dim, BaselinePolicy, DriftSign};
use trolly_gym::torch::TorchPolicy;
use trolly_gym::train::driver::WolfPpoTrainConfig;
use trolly_gym::train::gaussian::{GaussianArchitecture, GAUSSIAN_LIQUID_ARCH, GAUSSIAN_MLP_ARCH};
use trolly_gym::{ort_enabled, torch_enabled, Action, HoldPolicy};

#[test]
fn hold_policy_returns_hold() {
    assert_eq!(HoldPolicy.act(), Action::Hold);
}

#[test]
fn build_flags_report_no_native_runtimes() {
    assert!(!torch_enabled());
    assert!(!ort_enabled());
}

#[test]
fn torch_stub_loads() {
    let mut p = TorchPolicy::new();
    assert!(!p.is_loaded());
    p.load_stub();
    assert!(p.is_loaded());
    assert!(!TorchPolicy::default().is_loaded());
}

#[test]
fn matrix_games_listed_in_order() {
    assert_eq!(
        MatrixGameKind::all(),
        [
            MatrixGameKind::MatchingPenniesStandard,
            MatrixGameKind::MatchingPenniesWeighted,
            MatrixGameKind::RockPaperScissorsStandard,
            MatrixGameKind::RockPaperScissorsWeighted,
        ]
    );
    assert_ne!(harness::MatrixTrainerKind::Ppo, harness::MatrixTrainerKind::WolfPpo);
    assert_ne!(self_play::MatrixTrainerKind::Ppo, self_play::MatrixTrainerKind::WolfPpo);
    assert_ne!(WolfMode::Win, WolfMode::Lose);
}

#[test]
fn defaults_pick_stream_layout_mlp_and_no_nes_logging() {
    assert_eq!(ObservationLayout::default(), ObservationLayout::Stream);
    assert_eq!(GaussianArchitecture::default(), GaussianArchitecture::Mlp);
    assert!(!WolfPpoTrainConfig::default().log_nes_distance);
}

#[test]
fn architecture_is_read_from_the_checkpoint_path() {
    assert_eq!(
        gaussian_architecture_from_path(&format!("ckpt/microstructure/{GAUSSIAN_LIQUID_ARCH}/latest.safetensors")),
        GaussianArchitecture::LiquidRungs
    );
    assert_eq!(
        gaussian_architecture_from_path(&format!("ckpt/microstructure/{GAUSSIAN_MLP_ARCH}/latest.safetensors")),
        GaussianArchitecture::Mlp
    );
}

#[test]
fn observation_sizes() {
    assert_eq!(microstructure_obs_dim(0), 7);
    assert_eq!(microstructure_obs_dim(8), 56);
    assert_eq!(ladder_obs_dim(0), 5);
    assert_eq!(ladder_obs_dim(8), 40);
}

#[test]
fn baselines_follow_their_rules() {
    assert_eq!(baseline_action(BaselinePolicy::Hold, DriftSign::Up, 1, 0), Action::Hold);
    assert_eq!(baseline_action(BaselinePolicy::Long, DriftSign::Down, 1, 5), Action::Buy);
    assert_eq!(baseline_action(BaselinePolicy::Short, DriftSign::Up, 1, 5), Action::Sell);
    assert_eq!(baseline_action(BaselinePolicy::Oracle, DriftSign::Up, 1, 0), Action::Buy);
    assert_eq!(baseline_action(BaselinePolicy::Oracle, DriftSign::Down, 1, 0), Action::Sell);
    assert_eq!(baseline_action(BaselinePolicy::Oracle, DriftSign::Flat, 1, 0), Action::Hold);
    assert_eq!(baseline_action(BaselinePolicy::Oracle, DriftSign::Up, 1, 3), Action::Hold);
    for (seed, step) in [(0u64, 0u64), (7, 3), (u64::MAX, 1), (12345, 999)] {
        let state = seed
            .wrapping_add(step + 1)
            .wrapping_mul(6364136223846793005)
            .wrapping_add(1);
        let expected = match state % 3 {
            0 => Action::Hold,
            1 => Action::Buy,
            _ => Action::Sell,
        };
        assert_eq!(baseline_action(BaselinePolicy::Random, DriftSign::Flat, seed, step), expected);
    }
}
