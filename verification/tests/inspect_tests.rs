use mcpg_plugin::cli::wants_help;
use mcpg_plugin::crypto::sha256_hex;
use mcpg_plugin::inspect::{
    check_public_key, hash_report, is_plugin_artifact, list_dir, list_line, parse_unpack_args,
    parse_verify_args, verify_report, SignatureCheck,
};

fn args(v: &[&str]) -> Vec<String> {
    v.iter().map(|s| s.to_string()).collect()
}

const ABC_SHA256: &str = "ba7816bf8f01cfea414140de5dae2223b00361a396177a9cb410ff61f20015ad";

#[test]
fn sha256_known_answer() {
    assert_eq!(sha256_hex(b"abc"), ABC_SHA256);
    assert_eq!(sha256_hex(b""), "e3b0c44298fc1c149afbf4c8996fb92427ae41e4649b934ca495991b7852b855");
}

#[test]
fn hash_report_lines() {
    assert_eq!(
        hash_report(b"abc"),
        vec![
            format!("sha256:{ABC_SHA256}"),
            String::new(),
            "# Add to plugin config:".to_owned(),
            "#   integrity:".to_owned(),
            format!("#     sha256: \"{ABC_SHA256}\""),
        ]
    );
}

#[test]
fn wants_help_anywhere() {
    assert!(wants_help(&args(&["a", "-h"])));
    assert!(wants_help(&args(&["--help"])));
    assert!(!wants_help(&args(&["help", "-H", "--helpme"])));
    assert!(!wants_help(&[]));
}

#[test]
fn verify_args() {
    assert!(parse_verify_args(&[]).unwrap().is_none());
    let v = parse_verify_args(&args(&["--key", "k.pub", "a.so", "--hash", "ab", "b.so"])).unwrap().unwrap();
    assert_eq!(v.key.as_deref(), Some("k.pub"));
    assert_eq!(v.hash.as_deref(), Some("ab"));
    assert_eq!(v.artifact, "b.so");
    let e = |x: &[&str]| parse_verify_args(&args(x)).unwrap_err().to_string();
    assert_eq!(e(&["--key"]), "--key requires a value");
    assert_eq!(e(&["a.so", "--hash"]), "--hash requires a value");
    assert_eq!(e(&["--hash", "ab"]), "no artifact path specified");
}

#[test]
fn verify_public_key_length() {
    assert!(check_public_key(&[0u8; 32]).is_ok());
    assert_eq!(
        check_public_key(&[0u8; 31]).unwrap_err().to_string(),
        "public key must be exactly 32 bytes, got 31"
    );
}

#[test]
fn verify_reports() {
    let r = verify_report(b"abc", Some(ABC_SHA256), Some(&SignatureCheck::Verified));
    assert!(r.passed);
    assert_eq!(
        r.lines,
        vec![
            format!("  [OK] SHA-256: {ABC_SHA256}"),
            "  [OK] Ed25519 signature verified".to_owned(),
            String::new(),
            "Verification: PASSED".to_owned(),
        ]
    );

    let r = verify_report(b"abc", Some("00"), None);
    assert!(!r.passed);
    assert_eq!(r.lines[0], format!("  [FAIL] SHA-256: expected 00, got {ABC_SHA256}"));
    assert_eq!(r.lines[2], "Verification: FAILED");

    let r = verify_report(b"abc", None, None);
    assert!(r.passed);
    assert_eq!(r.lines[0], format!("  SHA-256: {ABC_SHA256}"));

    let r = verify_report(b"abc", None, Some(&SignatureCheck::Mismatch));
    assert!(!r.passed);
    assert_eq!(r.lines[1], "  [FAIL] Ed25519 signature does not match");

    let r = verify_report(b"abc", None, Some(&SignatureCheck::Error("no .sig".to_owned())));
    assert!(!r.passed);
    assert_eq!(r.lines[1], "  [FAIL] Signature check error: no .sig");
    // A hash in upper case does not match the lower-case digest.
    assert!(!verify_report(b"abc", Some(&ABC_SHA256.to_uppercase()), None).passed);
}

#[test]
fn list_directory_and_lines() {
    assert_eq!(list_dir(&args(&["/plugins", "x"]), Some("/env")), "/plugins");
    assert_eq!(list_dir(&[], Some("/env")), "/env");
    assert_eq!(list_dir(&[], None), ".");
    for name in ["a.so", "a.dylib", "a.dll", "a.wasm", ".so"] {
        assert!(is_plugin_artifact(name), "{name}");
    }
    for name in ["a.so.sig", "a.zip", "so", "a.wasm.bak"] {
        assert!(!is_plugin_artifact(name), "{name}");
    }
    assert_eq!(list_line("p.wasm", b"abc", false), "  p.wasm (wasm) sha256:ba7816bf8f01cfea");
    assert_eq!(list_line("libp.so", b"abc", true), "  libp.so (native) sha256:ba7816bf8f01cfea [signed]");
}

#[test]
fn unpack_args() {
    assert!(parse_unpack_args(&[]).unwrap().is_none());
    assert_eq!(
        parse_unpack_args(&args(&["a.zip"])).unwrap_err().to_string(),
        "unpack requires <archive> <target-dir>"
    );
    assert_eq!(
        parse_unpack_args(&args(&["a.zip", "out", "extra"])).unwrap(),
        Some(("a.zip".to_owned(), "out".to_owned()))
    );
}
