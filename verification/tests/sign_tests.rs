use base64::Engine as _;
use mcpg_plugin::crypto::{hex_encode, sha256_hex};
use mcpg_plugin::inspect::sign_receipt;
use mcpg_plugin::path::signature_path_for;
use mcpg_plugin::sign::{
    parse_sign_args, public_key_file, resolve_public_key, sign_local, sign_subprocess, SignerKind,
    SignerOutput,
};

const ARTIFACT: &[u8] = b"plugin-bytes-go-here";

fn args(v: &[&str]) -> Vec<String> {
    v.iter().map(|s| s.to_string()).collect()
}

/// Sign the artifact with a fixed seed; (signature, public key hex).
fn local_sign(seed: u8) -> (Vec<u8>, String) {
    sign_local(&[seed; 32], ARTIFACT).unwrap()
}

fn ran(stdout: Vec<u8>) -> SignerOutput {
    SignerOutput { success: true, status: "exit status: 0".to_owned(), stdout }
}

#[test]
fn parse_sign_args_local_only() {
    let args = args(&["--key", "/path/to/seed", "/path/to/artifact"]);
    let parsed = parse_sign_args(&args).unwrap();
    match parsed.signer {
        SignerKind::Local { key_path } => {
            assert_eq!(key_path, "/path/to/seed");
        },
        other => panic!("expected Local, got {other:?}"),
    }
    assert_eq!(parsed.artifact, "/path/to/artifact");
}

#[test]
fn parse_sign_args_subprocess_with_public_key() {
    let key = "deadbeef".repeat(8);
    let args = args(&["--subprocess", "/path/to/kms-signer.sh", "--public-key", &key, "/path/to/artifact"]);
    let parsed = parse_sign_args(&args).unwrap();
    match parsed.signer {
        SignerKind::Subprocess { command, public_key } => {
            assert_eq!(command, "/path/to/kms-signer.sh");
            assert_eq!(public_key.as_deref(), Some("deadbeef".repeat(8).as_str()));
        },
        other => panic!("expected Subprocess, got {other:?}"),
    }
}

#[test]
fn parse_sign_args_rejects_both_key_and_subprocess() {
    let args = args(&["--key", "/seed", "--subprocess", "cmd", "/artifact"]);
    let err = parse_sign_args(&args).unwrap_err().to_string();
    assert!(err.contains("mutually exclusive"), "got: {err}");
}

#[test]
fn parse_sign_args_rejects_neither() {
    let args = args(&["/artifact"]);
    let err = parse_sign_args(&args).unwrap_err().to_string();
    assert!(err.contains("--key") && err.contains("--subprocess"), "got: {err}");
}

#[test]
fn parse_sign_args_rejects_public_key_with_local() {
    let key = "deadbeef".repeat(8);
    let args = args(&["--key", "/seed", "--public-key", &key, "/artifact"]);
    let err = parse_sign_args(&args).unwrap_err().to_string();
    assert!(err.contains("only applies to --subprocess"), "got: {err}");
}

#[test]
fn parse_sign_args_missing_values() {
    let e = |v: &[&str]| parse_sign_args(&args(v)).unwrap_err().to_string();
    assert_eq!(e(&["--key"]), "--key requires a value");
    assert_eq!(e(&["--subprocess"]), "--subprocess requires a command string");
    assert_eq!(e(&["--public-key"]), "--public-key requires a value");
    assert_eq!(e(&["--key", "/seed"]), "artifact path is required");
}

#[test]
fn resolve_public_key_accepts_bare_hex() {
    let hex = "0123456789abcdef".repeat(4);
    let resolved = resolve_public_key(&hex, None).unwrap();
    assert_eq!(resolved, hex);
}

#[test]
fn resolve_public_key_accepts_0x_prefix_uppercase() {
    let resolved = resolve_public_key(&format!("0x{}", "AB".repeat(32)), None).unwrap();
    assert_eq!(resolved, "ab".repeat(32));
}

#[test]
fn resolve_public_key_rejects_short_hex() {
    let err = resolve_public_key("deadbeef", None).unwrap_err().to_string();
    assert!(err.contains("64 hex chars"), "got: {err}");
}

#[test]
fn resolve_public_key_reads_file_raw_bytes() {
    let value = "file:/keys/raw.pub";
    assert_eq!(public_key_file(value).as_deref(), Some("/keys/raw.pub"));
    let contents: Result<Vec<u8>, String> = Ok(vec![0xABu8; 32]);
    let resolved = resolve_public_key(value, Some(&contents)).unwrap();
    assert_eq!(resolved, "ab".repeat(32));
}

#[test]
fn resolve_public_key_reads_file_hex_with_trailing_newline() {
    let value = "file:/keys/hex.pub";
    let contents: Result<Vec<u8>, String> = Ok(format!("{}\n", "cd".repeat(32)).into_bytes());
    let resolved = resolve_public_key(value, Some(&contents)).unwrap();
    assert_eq!(resolved, "cd".repeat(32));
}

#[test]
fn resolve_public_key_file_errors() {
    let value = "file:/keys/k.pub";
    let unreadable: Result<Vec<u8>, String> = Err("No such file or directory (os error 2)".to_owned());
    assert_eq!(
        resolve_public_key(value, Some(&unreadable)).unwrap_err().to_string(),
        "failed to read --public-key file '/keys/k.pub': No such file or directory (os error 2)"
    );
    let short: Result<Vec<u8>, String> = Ok(vec![1, 2, 3]);
    let err = resolve_public_key(value, Some(&short)).unwrap_err().to_string();
    assert!(err.starts_with("--public-key file '/keys/k.pub' must be either 32 raw bytes"), "got: {err}");
    // 32 bytes of text that is not hex are taken as raw key bytes.
    let raw_text: Result<Vec<u8>, String> = Ok(vec![b'z'; 32]);
    assert_eq!(resolve_public_key(value, Some(&raw_text)).unwrap(), "7a".repeat(32));
}

#[test]
fn resolve_public_key_trims_and_strips_repeated_prefix() {
    let resolved = resolve_public_key(&format!("  0x0x{}\t", "Ef".repeat(32)), None).unwrap();
    assert_eq!(resolved, "ef".repeat(32));
    assert!(resolve_public_key(&format!("{}0", "ab".repeat(32)), None).is_err());
    assert!(resolve_public_key(&format!("0X{}", "ab".repeat(32)), None).is_err());
    assert!(resolve_public_key(&format!("{}g", "ab".repeat(31)), None).is_err());
}

#[test]
fn sign_local_derives_key_and_signature() {
    let (sig, pk) = local_sign(42);
    assert_eq!(sig.len(), 64);
    assert_eq!(pk.len(), 64);
    // RFC 8032, section 7.1, test 1.
    let seed = hex_decode_test("9d61b19deffd5a60ba844af492ec2cc44449c5697b326919703bac031cae7f60");
    let (sig, pk) = sign_local(&seed, b"").unwrap();
    assert_eq!(pk, "d75a980182b10ab7d54bfed3c964073a0ee172f3daa62325af021a68f707511a");
    assert_eq!(
        hex_encode(&sig),
        "e5564300c360ac729086e2cc806e828a84877f1eb8e5d974d873e065224901555fb8821590a33bacc61e39701cf9b46bd25bf5f0595bbe24655141438e7a100b"
    );
}

fn hex_decode_test(s: &str) -> Vec<u8> {
    (0..s.len()).step_by(2).map(|i| u8::from_str_radix(&s[i..i + 2], 16).unwrap()).collect()
}

#[test]
fn sign_local_rejects_wrong_seed_length() {
    let err = sign_local(&[1u8; 31], ARTIFACT).unwrap_err().to_string();
    assert_eq!(err, "key file must be exactly 32 bytes (raw Ed25519 seed), got 31 bytes");
}

#[test]
fn sign_subprocess_happy_path_via_inline_dd() {
    // The external signer emitted a real signature of the artifact.
    let (sig_bytes, pubkey_hex) = local_sign(42);
    let b64 = base64::engine::general_purpose::STANDARD.encode(&sig_bytes);
    let stdout = base64::engine::general_purpose::STANDARD.decode(b64).unwrap();
    let cmd = "printf '%s' '<sig>' | base64 -d";
    let (got_sig, got_pubkey) =
        sign_subprocess(cmd, &ran(stdout), ARTIFACT, Some(&pubkey_hex), None).unwrap();
    assert_eq!(got_sig, sig_bytes);
    assert_eq!(got_pubkey, pubkey_hex);
}

#[test]
fn sign_subprocess_rejects_wrong_signature_size() {
    let pubkey = hex_encode(&[0u8; 32]);
    let err = sign_subprocess("head -c 65 /dev/zero", &ran(vec![0u8; 65]), ARTIFACT, Some(&pubkey), None)
        .unwrap_err()
        .to_string();
    assert!(err.contains("64 bytes"), "got: {err}");
}

#[test]
fn sign_subprocess_rejects_wrong_public_key() {
    let (sig_bytes, _pubkey_hex) = local_sign(42);
    let (_, other_pubkey_hex) = local_sign(99);
    let err = sign_subprocess("signer", &ran(sig_bytes), ARTIFACT, Some(&other_pubkey_hex), None)
        .unwrap_err()
        .to_string();
    assert!(err.contains("does NOT verify"), "expected verification failure, got: {err}");
}

#[test]
fn sign_subprocess_requires_public_key() {
    let err = sign_subprocess("head -c 64 /dev/zero", &ran(vec![0u8; 64]), ARTIFACT, None, None)
        .unwrap_err()
        .to_string();
    assert!(err.contains("--public-key"), "got: {err}");
}

#[test]
fn sign_subprocess_propagates_subprocess_failure() {
    let pubkey = hex_encode(&[0u8; 32]);
    let failed = SignerOutput { success: false, status: "exit status: 17".to_owned(), stdout: vec![] };
    let err = sign_subprocess("exit 17", &failed, ARTIFACT, Some(&pubkey), None).unwrap_err().to_string();
    assert!(err.contains("status"), "got: {err}");
    assert_eq!(err, "subprocess signer 'exit 17' exited with status exit status: 17");
}

#[test]
fn sign_subprocess_with_key_file() {
    let (sig_bytes, pubkey_hex) = local_sign(7);
    let contents: Result<Vec<u8>, String> = Ok(format!("0x{pubkey_hex}\n").into_bytes());
    let (sig, pk) =
        sign_subprocess("signer", &ran(sig_bytes.clone()), ARTIFACT, Some("file:/k"), Some(&contents)).unwrap();
    assert_eq!(sig, sig_bytes);
    assert_eq!(pk, pubkey_hex);
}

#[test]
fn signature_sidecar_paths() {
    assert_eq!(signature_path_for("/a/libx.so"), "/a/libx.so.sig");
    assert_eq!(signature_path_for("/a/plugin"), "/a/plugin.sig");
    assert_eq!(signature_path_for("artifact"), "artifact.sig");
    assert_eq!(signature_path_for("/a/.hidden"), "/a/.hidden.sig");
    assert_eq!(signature_path_for("/a/libx.so/"), "/a/libx.so.sig");
    assert_eq!(signature_path_for("/a/b.tar.gz"), "/a/b.tar.gz.sig");
}

#[test]
fn sign_receipt_lines() {
    let lines = sign_receipt("/a/libx.so", "/a/libx.so.sig", ARTIFACT, "ab");
    let hash = sha256_hex(ARTIFACT);
    assert_eq!(lines[0], "Signed: /a/libx.so");
    assert_eq!(lines[1], "  Signature: /a/libx.so.sig");
    assert_eq!(lines[2], format!("  SHA-256:   {hash}"));
    assert_eq!(lines[3], "  Public key: ab");
}

#[test]
fn sign_subprocess_with_raw_key_file() {
    let (sig_bytes, pubkey_hex) = local_sign(11);
    let contents: Result<Vec<u8>, String> = Ok(hex_decode_test(&pubkey_hex));
    let (sig, pk) =
        sign_subprocess("signer", &ran(sig_bytes.clone()), ARTIFACT, Some("file:/k.raw"), Some(&contents)).unwrap();
    assert_eq!(sig, sig_bytes);
    assert_eq!(pk, pubkey_hex);
    // The same signature over other bytes is refused.
    let err = sign_subprocess("signer", &ran(sig_bytes), b"other", Some("file:/k.raw"), Some(&contents))
        .unwrap_err()
        .to_string();
    assert!(err.contains("does NOT verify"), "got: {err}");
}
