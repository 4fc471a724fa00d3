use trolly_gym::device::{
    device_is_rx_card, gcn_arch_from_prop, name_matches_required_gpu, required_gpu_name_match,
    rx_device_precheck, select_rx_device, HipGpu,
};
use trolly_gym::orchestrator::DeviceSpec;

#[test]
fn rx_7600_matches_rx() {
    assert!(name_matches_required_gpu("AMD Radeon RX 7600", "RX"));
    assert!(device_is_rx_card("AMD Radeon RX 7600", "gfx1102", "RX"));
}

#[test]
fn graphics_plus_gfx1102_is_rx_7600() {
    assert!(device_is_rx_card("AMD Radeon Graphics", "gfx1102", "RX"));
}

#[test]
fn igpu_gfx1036_is_not_rx() {
    assert!(!device_is_rx_card("AMD Radeon Graphics", "gfx1036", "RX"));
    assert!(!name_matches_required_gpu("AMD Radeon Graphics", "RX"));
}

#[test]
fn empty_match_never_passes() {
    assert!(!device_is_rx_card("AMD Radeon RX 7600", "gfx1102", ""));
}

#[test]
fn empty_match_never_passes_for_any_name() {
    for name in ["", "RX", "AMD Radeon RX 7900 XTX", "gfx1102"] {
        assert!(!name_matches_required_gpu(name, ""));
        assert!(!device_is_rx_card(name, "gfx1102", ""));
    }
}

#[test]
fn gpu_match_defaults_to_rx() {
    assert_eq!(required_gpu_name_match(None), "RX");
    assert_eq!(required_gpu_name_match(Some("   ")), "RX");
    assert_eq!(required_gpu_name_match(Some(" 7600 ")), "7600");
}

#[test]
fn arch_is_read_up_to_the_first_non_alphanumeric_byte() {
    let mut blob = vec![0u8; 64];
    blob[10..18].copy_from_slice(b"gfx1102:");
    assert_eq!(gcn_arch_from_prop(&blob), "gfx1102");
    assert_eq!(gcn_arch_from_prop(b"no isa here"), "");
    assert_eq!(gcn_arch_from_prop(b"gfx1036abcdefghijklmnop"), "gfx1036abcdefghi");
}

fn gpu(index: usize, name: &str, arch: &str) -> HipGpu {
    HipGpu {
        index,
        name: name.into(),
        arch: arch.into(),
    }
}

#[test]
fn precheck_refuses_cpu_and_missing_gpu() {
    let cpu = rx_device_precheck(DeviceSpec::Cpu, true).unwrap();
    assert!(cpu.starts_with("training refuses CPU"));
    let none = rx_device_precheck(DeviceSpec::Auto, false).unwrap();
    assert!(none.contains("no CUDA/ROCm GPU"));
    assert_eq!(rx_device_precheck(DeviceSpec::Cuda(1), true), None);
}

#[test]
fn auto_picks_the_rx_card_over_the_igpu() {
    let gpus = vec![
        gpu(0, "AMD Radeon Graphics", "gfx1036"),
        gpu(1, "AMD Radeon Graphics", "gfx1102"),
    ];
    assert_eq!(select_rx_device(DeviceSpec::Auto, &gpus, "RX"), Ok(1));
    let err = select_rx_device(DeviceSpec::Cuda(0), &gpus, "RX").unwrap_err();
    assert_eq!(
        err,
        "training bails: no visible device is the RX card (match `RX` / gfx1102; refuses CPU and iGPU). Visible: cuda:0=AMD Radeon Graphics (gfx1036), cuda:1=AMD Radeon Graphics (gfx1102)"
    );
    let missing = select_rx_device(DeviceSpec::Cuda(5), &gpus, "RX").unwrap_err();
    assert!(missing.starts_with("training bails: TROLLY_TRAIN_DEVICE=cuda:5 but HIP has no such device ("));
    assert_eq!(
        select_rx_device(DeviceSpec::Auto, &[], "RX").unwrap_err(),
        "training bails: HIP device count is 0"
    );
    assert_eq!(gpu(2, "X", "").label(), "cuda:2=X");
}
