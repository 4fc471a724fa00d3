use trolly_gym::env::TrackedSymbols;
use trolly_gym::onnx::check_model_request;
use trolly_gym::policy::mean_action_fields;
use trolly_gym::ticks::ingest_enabled;
use trolly_gym::OnnxPolicyError;

#[test]
fn observed_symbols_keep_the_primary_first_and_drop_repeats() {
    let mut symbols = TrackedSymbols::new("BTCUSDT");
    assert_eq!(symbols.tracked_symbols(), vec!["BTCUSDT".to_string()]);
    assert!(!symbols.is_multi_symbol());
    symbols.observe_symbols(&["ETHUSDT", " btcusdt ", "", "ethusdt", " SOLUSDT "]);
    assert_eq!(symbols.tracked_symbols(), vec!["BTCUSDT", "ETHUSDT", "SOLUSDT"]);
    assert_eq!(symbols.symbol, "BTCUSDT");
    assert!(symbols.is_multi_symbol());
    assert!(symbols.tracks_symbol("solusdt"));
    assert!(!symbols.tracks_symbol("XRPUSDT"));
}

#[test]
fn blank_primary_is_replaced_by_the_first_observed_symbol() {
    let mut symbols = TrackedSymbols::new("  ");
    symbols.observe_symbols(&["ETHUSDT"]);
    assert_eq!(symbols.symbol, "ETHUSDT");
    assert_eq!(symbols.tracked_symbols(), vec!["ETHUSDT"]);
    assert!(!symbols.is_multi_symbol());
}

#[test]
fn parse_mean_action_targets_rejects_empty() {
    assert_eq!(mean_action_fields("  "), Err("empty mean-action vector".to_string()));
    let fields = mean_action_fields("0.8,nope").unwrap();
    assert_eq!(fields, vec!["0.8", "nope"]);
    assert!(fields[1].parse::<f32>().is_err());
}

#[test]
fn mean_action_fields_split_on_commas_and_whitespace() {
    assert_eq!(
        mean_action_fields(" 0.8, -0.8\t0.05,,\n1 ").unwrap(),
        vec!["0.8", "-0.8", "0.05", "1"]
    );
}

#[test]
fn model_requests_check_width_then_file() {
    assert!(matches!(
        check_model_request("m.onnx", 0, false),
        Err(OnnxPolicyError::InvalidObservationDim(0))
    ));
    assert!(matches!(
        check_model_request("m.onnx", 7, false),
        Err(OnnxPolicyError::MissingModel(p)) if p == "m.onnx"
    ));
    assert!(matches!(check_model_request("m.onnx", 7, true), Ok(7)));
}

#[test]
fn ingest_switch() {
    assert!(ingest_enabled(Some("1"), false));
    assert!(ingest_enabled(Some("True"), false));
    assert!(!ingest_enabled(Some("yes"), false));
    assert!(ingest_enabled(None, true));
    assert!(!ingest_enabled(None, false));
}
