use trolly_gym::onnx::{encode_gemm_mu_onnx, encode_recorded_mean_mu_onnx, recorded_mean_mu_graph, ProtoMap, PRODUCER};
use trolly_gym::train::gaussian::is_retired_unit_lot_dir;
use trolly_gym::{
    inspect_gaussian_mu_onnx, path_is_retired_unit_lot, OnnxExportError, OnnxPolicyError,
    DEFAULT_GAUSSIAN_MU_ONNX_OBS_DIM, GAUSSIAN_MU_ONNX_INPUT, GAUSSIAN_MU_ONNX_OUTPUT,
};

#[test]
fn recorded_mean_standin_writes_static_ladder_mu_graph() {
    let (bytes, info) = recorded_mean_mu_graph(
        "/tmp/trolly-onnx/mu.onnx",
        DEFAULT_GAUSSIAN_MU_ONNX_OBS_DIM,
        0.8f32.to_bits(),
    )
    .unwrap();
    assert_eq!(info.obs_dim, 40);
    assert_eq!(info.input_name, GAUSSIAN_MU_ONNX_INPUT);
    assert_eq!(info.output_name, GAUSSIAN_MU_ONNX_OUTPUT);
    assert_eq!(info.op_type, "Gemm");
    assert_eq!(info.producer, PRODUCER);
    assert!((f32::from_bits(info.mean_bias_bits) - 0.8).abs() < f32::EPSILON);
    assert!(bytes.windows(b"Gemm".len()).any(|w| w == b"Gemm"));
}

#[test]
fn export_refuses_retired_unit_lot_path() {
    let path = "/tmp/_retired_unit_lot_microstructure/mu.onnx";
    let err = recorded_mean_mu_graph(path, 40, 0.8f32.to_bits()).unwrap_err();
    assert!(matches!(err, OnnxExportError::RetiredUnitLot(_)));
    assert!(path_is_retired_unit_lot(
        "checkpoints/gpu_train_orchestrator/_retired_unit_lot_microstructure"
    ));
}

#[test]
fn export_rejects_invalid_obs_dim_and_nan_mean() {
    let path = "/tmp/trolly-onnx/bad.onnx";
    assert!(matches!(
        recorded_mean_mu_graph(path, 0, 0.8f32.to_bits()),
        Err(OnnxExportError::InvalidObservationDim(0))
    ));
    assert!(matches!(
        recorded_mean_mu_graph(path, 40, f32::NAN.to_bits()),
        Err(OnnxExportError::NonFiniteMean)
    ));
    assert!(matches!(
        encode_recorded_mean_mu_onnx(path, -3, 0.0f32.to_bits()),
        Err(OnnxExportError::InvalidObservationDim(-3))
    ));
    assert!(matches!(
        encode_recorded_mean_mu_onnx(path, 4, f32::INFINITY.to_bits()),
        Err(OnnxExportError::NonFiniteMean)
    ));
}

#[test]
fn retired_dir_is_detected() {
    assert!(is_retired_unit_lot_dir(
        "checkpoints/gpu_train_orchestrator/_retired_unit_lot_microstructure/mlp"
    ));
    assert!(!is_retired_unit_lot_dir(
        "checkpoints/gpu_train_orchestrator/microstructure/gaussian_mlp"
    ));
}

#[test]
fn retired_component_match_ignores_ascii_case_only_whole_components() {
    assert!(path_is_retired_unit_lot("a/_RETIRED_UNIT_LOT_MICROSTRUCTURE/b"));
    assert!(!path_is_retired_unit_lot("a/x_retired_unit_lot_microstructure/b"));
    assert!(!path_is_retired_unit_lot(""));
}

#[test]
fn written_graph_reads_back_for_several_widths_and_biases() {
    for (dim, mean) in [(1u64, -0.8f32), (7, 0.0), (40, 0.05), (300, 123.5)] {
        let bytes = encode_gemm_mu_onnx(dim, mean.to_bits());
        let info = inspect_gaussian_mu_onnx(&bytes).unwrap();
        assert_eq!(info.obs_dim, dim as i64);
        assert_eq!(info.mean_bias_bits, mean.to_bits());
        assert_eq!(info.producer, "trolly-gym");
    }
}

#[test]
fn inspector_reports_broken_graphs() {
    assert_eq!(
        inspect_gaussian_mu_onnx(&[0x80]),
        Err(OnnxExportError::InvalidGraph("truncated varint".into()))
    );
    assert_eq!(
        inspect_gaussian_mu_onnx(&[]),
        Err(OnnxExportError::InvalidGraph("missing graph".into()))
    );
    assert_eq!(
        inspect_gaussian_mu_onnx(&[0x0a, 0x05, 0x01]),
        Err(OnnxExportError::InvalidGraph(
            "truncated length-delimited field".into()
        ))
    );
    assert_eq!(
        inspect_gaussian_mu_onnx(&[0x0b]),
        Err(OnnxExportError::InvalidGraph("unsupported protobuf wire type 3".into()))
    );
    let mut nan_bias = encode_gemm_mu_onnx(4, 0.5f32.to_bits());
    let pos = nan_bias
        .windows(4)
        .position(|w| w == 0.5f32.to_bits().to_le_bytes())
        .unwrap();
    nan_bias[pos..pos + 4].copy_from_slice(&f32::NAN.to_bits().to_le_bytes());
    assert_eq!(
        inspect_gaussian_mu_onnx(&nan_bias),
        Err(OnnxExportError::InvalidGraph(
            "graph is missing observation/mean/Gemm/B".into()
        ))
    );
}

#[test]
fn proto_reader_decodes_fields() {
    let bytes = [0x08, 0x96, 0x01, 0x12, 0x02, b'h', b'i', 0x1d, 1, 2, 3, 4];
    let map = ProtoMap::parse(&bytes).unwrap();
    assert_eq!(map.varint_field(1), Some(150));
    assert_eq!(map.string_field(2).as_deref(), Some("hi"));
    assert_eq!(map.bytes_field(2), Some(b"hi".to_vec()));
    assert_eq!(map.varint_field(3), None);
}

#[test]
fn runtime_unavailable_is_read_from_load_and_inference_errors() {
    let load = OnnxPolicyError::Load {
        path: "m.onnx".into(),
        source: "Failed to load ONNX Runtime shared library".into(),
    };
    assert!(load.is_runtime_unavailable());
    assert!(OnnxPolicyError::Inference("ort dylib missing".into()).is_runtime_unavailable());
    assert!(!OnnxPolicyError::Inference("shape mismatch".into()).is_runtime_unavailable());
    assert!(!OnnxPolicyError::EmptyOutput.is_runtime_unavailable());
}

#[test]
fn error_messages_name_the_cause() {
    assert_eq!(
        OnnxExportError::InvalidObservationDim(-5).to_string(),
        "invalid ONNX observation dimension -5"
    );
    assert_eq!(
        OnnxExportError::InvalidObservationDim(i64::MIN).to_string(),
        format!("invalid ONNX observation dimension {}", i64::MIN)
    );
    assert_eq!(OnnxExportError::NonFiniteMean.to_string(), "recorded Gaussian μ is not finite");
    assert_eq!(
        OnnxExportError::RetiredUnitLot("a/b".into()).to_string(),
        "refusing retired unit-lot checkpoint a/b"
    );
    assert_eq!(
        OnnxExportError::InvalidGraph("missing graph".into()).to_string(),
        "inspect ONNX Gaussian μ graph: missing graph"
    );
    assert_eq!(
        OnnxPolicyError::ShortOutput { len: 2 }.to_string(),
        "ONNX model returned 2 logits; expected at least 3"
    );
    assert_eq!(
        OnnxPolicyError::MissingModel("m.onnx".into()).to_string(),
        "ONNX model m.onnx does not exist"
    );
    assert_eq!(
        OnnxPolicyError::UnexpectedMeanOutput { len: 3 }.to_string(),
        "ONNX Gaussian μ head returned 3 values; expected [1] or [1,1]"
    );
    assert_eq!(OnnxPolicyError::InvalidObservationDim(0).to_string(), "invalid ONNX observation dimension 0");
}
