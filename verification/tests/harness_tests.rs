use mcpg_plugin::harness::{default_context, json_argument, parse_test_args, synthesise_headers, test_trust};

fn args(v: &[&str]) -> Vec<String> {
    v.iter().map(|s| s.to_string()).collect()
}

#[test]
fn default_context_is_verified_tester() {
    let ctx = default_context();
    assert_eq!(ctx.identity.kind, "verified");
    assert_eq!(ctx.identity.trust_level, "verified");
    assert_eq!(ctx.tool_name, "test.tool");
    assert_eq!(ctx.transport, "http");
    assert!(ctx.identity.subject_id.is_some());
}

#[test]
fn default_context_fields() {
    let ctx = default_context();
    assert_eq!(ctx.request_id, "mcpg-plugin-test");
    assert_eq!(ctx.session_id, None);
    assert_eq!(ctx.surface, "tool");
    assert_eq!(ctx.identity.subject_id.as_deref(), Some("tester@example.com"));
    assert_eq!(ctx.identity.auth_provider.as_deref(), Some("mcpg-plugin-test"));
    assert_eq!(ctx.identity.issuer, None);
    assert!(ctx.identity.roles.is_empty() && ctx.identity.groups.is_empty() && ctx.identity.scopes.is_empty());
    assert!(ctx.identity.attributes.is_empty());
}

#[test]
fn synthesise_headers_exposes_identity_fields() {
    let mut ctx = default_context();
    ctx.identity.insert_attribute("tenant_id".into(), "acme".into());
    let headers = synthesise_headers(&ctx);
    // Subject + auth_provider headers plus one per attribute.
    let names: Vec<&str> = headers.iter().map(|(k, _)| k.as_str()).collect();
    assert!(names.iter().any(|n| n == &"X-Mcpg-Test-Subject"));
    assert!(names.iter().any(|n| n == &"X-Mcpg-Test-AuthProvider"));
    assert!(names.iter().any(|n| n == &"X-Mcpg-Attr-tenant_id"));
}

#[test]
fn synthesise_headers_order_and_values() {
    let mut ctx = default_context();
    ctx.identity.subject_id = None;
    ctx.identity.insert_attribute("zone".into(), "eu".into());
    ctx.identity.insert_attribute("account".into(), "42".into());
    let headers = synthesise_headers(&ctx);
    assert_eq!(
        headers,
        vec![
            ("X-Mcpg-Test-AuthProvider".to_owned(), "mcpg-plugin-test".to_owned()),
            ("X-Mcpg-Attr-account".to_owned(), "42".to_owned()),
            ("X-Mcpg-Attr-zone".to_owned(), "eu".to_owned()),
        ]
    );
}

#[test]
fn attributes_stay_sorted_and_unique() {
    let mut ctx = default_context();
    for (k, v) in [("m", "1"), ("b", "2"), ("z", "3"), ("m", "4"), ("a", "5"), ("b", "6"), ("ma", "7")] {
        ctx.identity.insert_attribute(k.into(), v.into());
    }
    let got: Vec<(&str, &str)> =
        ctx.identity.attributes.iter().map(|(k, v)| (k.as_str(), v.as_str())).collect();
    assert_eq!(got, vec![("a", "5"), ("b", "6"), ("m", "4"), ("ma", "7"), ("z", "3")]);
}

#[test]
fn test_args_parse() {
    let t = parse_test_args(&args(&[
        "p.zip",
        "--descriptor",
        "d.yaml",
        "--context",
        "c.json",
        "--arguments",
        "a.json",
        "--config",
        "cfg.json",
        "--key",
        "k.pub",
    ]))
    .unwrap()
    .unwrap();
    assert_eq!(t.archive, "p.zip");
    assert_eq!(t.descriptor.as_deref(), Some("d.yaml"));
    assert_eq!(t.context.as_deref(), Some("c.json"));
    assert_eq!(t.arguments.as_deref(), Some("a.json"));
    assert_eq!(t.config.as_deref(), Some("cfg.json"));
    assert_eq!(t.key.as_deref(), Some("k.pub"));

    let t = parse_test_args(&args(&["p.zip"])).unwrap().unwrap();
    assert!(t.descriptor.is_none() && t.context.is_none() && t.key.is_none());
}

#[test]
fn test_args_usage_and_errors() {
    assert_eq!(parse_test_args(&[]).unwrap_err().to_string(), "missing <archive.zip>");
    assert!(parse_test_args(&args(&["help"])).unwrap().is_none());
    assert!(parse_test_args(&args(&["-h", "--bogus"])).unwrap().is_none());
    let e = |v: &[&str]| parse_test_args(&args(v)).unwrap_err().to_string();
    assert_eq!(e(&["p.zip", "--verbose"]), "unknown flag: --verbose");
    assert_eq!(e(&["p.zip", "--descriptor"]), "--descriptor requires a path");
    assert_eq!(e(&["p.zip", "--context"]), "--context requires a path");
    assert_eq!(e(&["p.zip", "--arguments"]), "--arguments requires a path");
    assert_eq!(e(&["p.zip", "--config"]), "--config requires a path");
    assert_eq!(e(&["p.zip", "--key"]), "--key requires a path");
    // The archive itself is never read as a flag.
    assert_eq!(parse_test_args(&args(&["--key"])).unwrap().unwrap().archive, "--key");
    assert_eq!(e(&["--key", "k"]), "unknown flag: k");
}

#[test]
fn test_trust_banner() {
    let t = test_trust(None).unwrap();
    assert!(t.trusted_key.is_none());
    assert_eq!(t.banner, "signature verification skipped (no --key)");

    let key = [7u8; 32];
    let t = test_trust(Some(("keys/k.pub", &key))).unwrap();
    assert_eq!(t.trusted_key, Some(key.to_vec()));
    assert_eq!(t.banner, "signature verified against keys/k.pub");

    let err = test_trust(Some(("keys/k.pub", &[1u8; 33]))).unwrap_err().to_string();
    assert_eq!(err, "--key keys/k.pub: expected 32 raw bytes, got 33");
}

#[test]
fn load_json_file_parses_arguments() {
    let v = json_argument("args.json", br#"{"k": 1, "items": ["a", "b"]}"#).unwrap();
    assert_eq!(v["k"], 1);
    assert_eq!(v["items"][0], "a");
}

#[test]
fn json_argument_names_the_file_on_error() {
    let err = json_argument("bad.json", b"{ not json }").unwrap_err().to_string();
    assert!(err.starts_with("parse bad.json: key must be a string"), "got: {err}");
    assert!(json_argument("e.json", b"").is_err());
    assert_eq!(json_argument("n.json", b" null ").unwrap(), serde_json::Value::Null);
}
