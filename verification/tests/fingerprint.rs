use trolly_gym::fingerprint::{
    fingerprint_for, hash_bytes, hash_text, hex_encode, sidecar_for_checkpoint, sidecar_from_parts,
    sidecar_path,
};
use trolly_gym::FINGERPRINT_SIDECAR;

#[test]
fn hashes_are_lowercase_sha256_hex() {
    assert_eq!(
        hash_text(""),
        "e3b0c44298fc1c149afbf4c8996fb92427ae41e4649b934ca495991b7852b855"
    );
    assert_eq!(
        hash_bytes(b"abc"),
        "ba7816bf8f01cfea414140de5dae2223b00361a396177a9cb410ff61f20015ad"
    );
    assert_eq!(hash_text("session-a"), hash_bytes(b"session-a"));
    assert_eq!(hex_encode(&[0x00, 0xab, 0x0f]), "00ab0f");
}

#[test]
fn sidecar_sits_next_to_the_weights() {
    assert_eq!(
        sidecar_for_checkpoint("ckpt/mlp/latest.safetensors"),
        "ckpt/mlp/latest.fingerprint.json"
    );
    assert_eq!(
        sidecar_for_checkpoint("latest.safetensors"),
        "latest.fingerprint.json"
    );
    assert_eq!(sidecar_path("ckpt/mlp"), format!("ckpt/mlp/{FINGERPRINT_SIDECAR}"));
    assert_eq!(sidecar_path("ckpt/mlp/"), "ckpt/mlp/latest.fingerprint.json");
}

#[test]
fn fingerprint_hashes_window_and_config() {
    let fp = fingerprint_for(hash_bytes(b"fake-weights"), "session-a", "mlp hidden=20", "x/latest.safetensors");
    assert_eq!(fp.weights_sha256, hash_bytes(b"fake-weights"));
    assert_eq!(fp.data_window_sha256, hash_text("session-a"));
    assert_eq!(fp.config_sha256, hash_text("mlp hidden=20"));
    assert_eq!(fp.checkpoint, "x/latest.safetensors");
}

#[test]
fn sidecar_parts_default_the_directory_and_the_name() {
    assert_eq!(sidecar_from_parts(Some("ckpt/mlp"), Some("best")), "ckpt/mlp/best.fingerprint.json");
    assert_eq!(sidecar_from_parts(Some(""), Some("latest")), "latest.fingerprint.json");
    assert_eq!(sidecar_from_parts(None, Some("latest")), "./latest.fingerprint.json");
    assert_eq!(sidecar_from_parts(Some("ckpt"), None), "ckpt/latest.fingerprint.json");
}
