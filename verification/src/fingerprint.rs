//! Content hashes stored beside every updated checkpoint.
//!
//! Every save advertises a [`ModelFingerprint`] in `latest.fingerprint.json`:
//! the SHA-256 of the weights file, of the data window and of the config.
use vstd::prelude::*;
use crate::text::{path_join, path_join_str, push_char, push_str, str_to_string};
use vstd::utf8::encode_utf8;

verus! {

/// Sidecar written next to `latest.safetensors` on every save.
pub const FINGERPRINT_SIDECAR: &'static str = "latest.fingerprint.json";

/// Hashes of the weights, the data window and the config of one checkpoint.
#[derive(Debug, Clone, PartialEq, Eq)]
pub struct ModelFingerprint {
    pub weights_sha256: String,
    pub data_window_sha256: String,
    pub config_sha256: String,
    pub checkpoint: String,
}

/// SHA-256 digest of `data` (as `sha2::Sha256` computes it).
pub uninterp spec fn sha256_digest(data: Seq<u8>) -> Seq<u8>;

/// `<sha2::Sha256 as sha2::Digest>::digest`. Trusted: the result is the
/// SHA-256 digest of the input, a function of the input alone, and is 32
/// bytes long (the `Output` type of `Sha256` is a 32-byte array).
#[verifier::external_body]
fn sha256(data: &[u8]) -> (r: Vec<u8>)
    ensures
        r@ == sha256_digest(data@),
        r@.len() == 32,
{
    <sha2::Sha256 as sha2::Digest>::digest(data).to_vec()
}

pub open spec fn hex_digit(n: nat) -> char {
    if n < 10 {
        ((n + 48) as u32) as char
    } else {
        ((n + 87) as u32) as char
    }
}

/// Lower-case hexadecimal text, two digits per byte.
pub open spec fn hex_lower(bytes: Seq<u8>) -> Seq<char>
    decreases bytes.len(),
{
    if bytes.len() == 0 {
        Seq::<char>::empty()
    } else {
        hex_lower(bytes.drop_last()) + seq![
            hex_digit((bytes.last() / 16) as nat),
            hex_digit((bytes.last() % 16) as nat),
        ]
    }
}

proof fn lemma_hex_len(bytes: Seq<u8>)
    ensures
        hex_lower(bytes).len() == 2 * bytes.len(),
    decreases bytes.len(),
{
    if bytes.len() > 0 {
        lemma_hex_len(bytes.drop_last());
    }
}

fn hex_char(n: u8) -> (c: char)
    requires
        n < 16,
    ensures
        c == hex_digit(n as nat),
{
    if n < 10 {
        (n + 48) as char
    } else {
        (n + 87) as char
    }
}

pub fn hex_encode(bytes: &[u8]) -> (r: String)
    ensures
        r@ == hex_lower(bytes@),
{
    let mut out = String::new();
    for i in 0..bytes.len()
        invariant
            out@ == hex_lower(bytes@.take(i as int)),
    {
        let b = bytes[i];
        push_char(&mut out, hex_char(b / 16));
        push_char(&mut out, hex_char(b % 16));
        assert(bytes@.take(i + 1).drop_last() =~= bytes@.take(i as int));
        assert(out@ =~= hex_lower(bytes@.take(i + 1)));
    }
    assert(bytes@.take(bytes@.len() as int) =~= bytes@);
    out
}

/// Lower-case hex SHA-256 of `bytes` (64 characters).
pub fn hash_bytes(bytes: &[u8]) -> (r: String)
    ensures
        r@ == hex_lower(sha256_digest(bytes@)),
        r@.len() == 64,
{
    let d = sha256(bytes);
    proof {
        lemma_hex_len(d@);
    }
    hex_encode(d.as_slice())
}

/// Lower-case hex SHA-256 of the UTF-8 bytes of `text`.
pub fn hash_text(text: &str) -> (r: String)
    ensures
        r@ == hex_lower(sha256_digest(encode_utf8(text@))),
        r@.len() == 64,
{
    hash_bytes(text.as_bytes())
}

/// `Path::new(p).parent()`, as text.
pub uninterp spec fn path_parent_of(p: Seq<char>) -> Option<Seq<char>>;

/// `Path::new(p).file_stem()`, as text.
pub uninterp spec fn path_file_stem_of(p: Seq<char>) -> Option<Seq<char>>;

/// `std::path::Path::parent`. Trusted: the parent depends on the path text
/// alone; the text of a `&str` path converts back to a string losslessly.
#[verifier::external_body]
fn path_parent(p: &str) -> (r: Option<String>)
    ensures
        match path_parent_of(p@) {
            Some(s) => r matches Some(x) && x@ == s,
            None => r is None,
        },
{
    std::path::Path::new(p).parent().map(|q| q.to_string_lossy().into_owned())
}

/// `std::path::Path::file_stem`. Trusted: the stem depends on the path text
/// alone; the stem of a `&str` path is valid UTF-8.
#[verifier::external_body]
fn path_file_stem(p: &str) -> (r: Option<String>)
    ensures
        match path_file_stem_of(p@) {
            Some(s) => r matches Some(x) && x@ == s,
            None => r is None,
        },
{
    std::path::Path::new(p).file_stem().and_then(|s| s.to_str()).map(|s| s.to_owned())
}

/// `{checkpoint_dir}/latest.fingerprint.json`.
pub fn sidecar_path(checkpoint_dir: &str) -> (r: String)
    ensures
        r@ == path_join(checkpoint_dir@, FINGERPRINT_SIDECAR@),
{
    path_join_str(checkpoint_dir, FINGERPRINT_SIDECAR)
}

/// Sidecar path from a weights file's parent directory and stem: the
/// directory defaults to `.`, the name to `latest.fingerprint.json`.
pub open spec fn sidecar_from_parts_spec(dir: Option<Seq<char>>, stem: Option<Seq<char>>) -> Seq<char> {
    let d = match dir {
        Some(d) => d,
        None => "."@,
    };
    match stem {
        Some(stem) => path_join(d, stem + ".fingerprint.json"@),
        None => path_join(d, FINGERPRINT_SIDECAR@),
    }
}

pub open spec fn spec_sidecar_for_checkpoint(path: Seq<char>) -> Seq<char> {
    sidecar_from_parts_spec(path_parent_of(path), path_file_stem_of(path))
}

/// `{stem}.fingerprint.json` in `dir` (`.` when there is none), or
/// `latest.fingerprint.json` when the weights file has no stem.
pub fn sidecar_from_parts(dir: Option<&str>, stem: Option<&str>) -> (r: String)
    ensures
        r@ == sidecar_from_parts_spec(
            match dir {
                Some(d) => Some(d@),
                None => None,
            },
            match stem {
                Some(s) => Some(s@),
                None => None,
            },
        ),
{
    let d = match dir {
        Some(d) => d,
        None => ".",
    };
    proof {
        reveal_strlit(".");
    }
    match stem {
        Some(stem) => {
            let mut name = str_to_string(stem);
            push_str(&mut name, ".fingerprint.json");
            path_join_str(d, name.as_str())
        },
        None => path_join_str(d, FINGERPRINT_SIDECAR),
    }
}

/// `{stem}.fingerprint.json` next to the weights file (`latest.safetensors`
/// → `latest.fingerprint.json`).
pub fn sidecar_for_checkpoint(checkpoint_path: &str) -> (r: String)
    ensures
        r@ == spec_sidecar_for_checkpoint(checkpoint_path@),
{
    let dir = path_parent(checkpoint_path);
    let stem = path_file_stem(checkpoint_path);
    let dir_ref: Option<&str> = match &dir {
        Some(d) => Some(d.as_str()),
        None => None,
    };
    let stem_ref: Option<&str> = match &stem {
        Some(s) => Some(s.as_str()),
        None => None,
    };
    sidecar_from_parts(dir_ref, stem_ref)
}

/// The fingerprint of a checkpoint whose weights hash is already known.
pub fn fingerprint_for(weights_sha256: String, data_window: &str, config: &str, checkpoint: &str) -> (r: ModelFingerprint)
    ensures
        r.weights_sha256@ == weights_sha256@,
        r.data_window_sha256@ == hex_lower(sha256_digest(encode_utf8(data_window@))),
        r.config_sha256@ == hex_lower(sha256_digest(encode_utf8(config@))),
        r.checkpoint@ == checkpoint@,
{
    ModelFingerprint {
        weights_sha256,
        data_window_sha256: hash_text(data_window),
        config_sha256: hash_text(config),
        checkpoint: str_to_string(checkpoint),
    }
}

} // verus!
