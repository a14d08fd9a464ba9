use mcpg_plugin::registry::{
    default_pull_output_path, parse_push_pull_options, pinned_digest, plan_pull, plan_push,
    registry_host_from_reference, resolve_push_pull_auth, AuthPlan,
};

fn args(v: &[&str]) -> Vec<String> {
    v.iter().map(|s| s.to_string()).collect()
}

fn env(v: &[(&str, &str)]) -> Vec<(String, String)> {
    v.iter().map(|(k, x)| (k.to_string(), x.to_string())).collect()
}

#[test]
fn registry_hosts() {
    assert_eq!(registry_host_from_reference("ghcr.io/org/plugin:1.0.0"), "ghcr.io");
    assert_eq!(registry_host_from_reference("https://localhost:5000/p:1"), "localhost:5000");
    assert_eq!(registry_host_from_reference("http://reg/p"), "reg");
    assert_eq!(registry_host_from_reference("plugin"), "plugin");
    assert_eq!(registry_host_from_reference(""), "");
}

#[test]
fn default_pull_output_paths() {
    assert_eq!(default_pull_output_path("ghcr.io/org/plugin:1.0.0"), "plugin_1.0.0.zip");
    assert_eq!(default_pull_output_path("ghcr.io/org/plugin"), "plugin_latest.zip");
    assert_eq!(default_pull_output_path("localhost:5000/plugin"), "plugin_latest.zip");
    assert_eq!(default_pull_output_path("localhost:5000/org/plugin"), "plugin_latest.zip");
    assert_eq!(default_pull_output_path("localhost:5000/org/plugin:2.1"), "plugin_2.1.zip");
    assert_eq!(default_pull_output_path("https://reg:443/p:3"), "p_3.zip");
    assert_eq!(default_pull_output_path("plugin:2"), "plugin_2.zip");
}

#[test]
fn pinned_digests() {
    assert_eq!(pinned_digest("ghcr.io/o/p@sha256:abc").as_deref(), Some("abc"));
    assert_eq!(pinned_digest("r/p@sha256:one@sha256:two").as_deref(), Some("two"));
    assert_eq!(pinned_digest("ghcr.io/o/p:1"), None);
    assert_eq!(pinned_digest("@sha256:").as_deref(), Some(""));
    assert_eq!(pinned_digest("sha256:x"), None);
}

#[test]
fn options_parse() {
    let o = parse_push_pull_options(
        &args(&[
            "-u",
            "ci",
            "--password",
            "env:TOKEN",
            "--docker-config",
            "/c.json",
            "--no-docker-config",
            "--insecure-registry",
            "a:1",
            "--insecure-registry",
            "b",
        ]),
        &env(&[("OTHER", "x"), ("TOKEN", "s3cret"), ("TOKEN", "later")]),
    )
    .unwrap();
    assert_eq!(o.username.as_deref(), Some("ci"));
    assert_eq!(o.password.as_deref(), Some("s3cret"));
    assert_eq!(o.docker_config.as_deref(), Some("/c.json"));
    assert!(o.no_docker_config);
    assert_eq!(o.insecure, vec!["a:1".to_owned(), "b".to_owned()]);

    let plain = parse_push_pull_options(&args(&["-p", "pw"]), &[]).unwrap();
    assert_eq!(plain.password.as_deref(), Some("pw"));
}

#[test]
fn options_errors() {
    let e = |v: &[&str]| parse_push_pull_options(&args(v), &[]).unwrap_err().to_string();
    assert_eq!(e(&["--username"]), "--username requires a value");
    assert_eq!(e(&["--password"]), "--password requires a value");
    assert_eq!(e(&["--docker-config"]), "--docker-config requires a path");
    assert_eq!(e(&["--insecure-registry"]), "--insecure-registry requires a host[:port]");
    assert_eq!(e(&["--password", "env:MISSING"]), "env var MISSING not set");
    assert_eq!(e(&["--verbose"]), "unknown option: --verbose");
}

#[test]
fn auth_priority() {
    let both = parse_push_pull_options(&args(&["-u", "a", "-p", "b"]), &[]).unwrap();
    match resolve_push_pull_auth("ghcr.io/x:1", &both).unwrap() {
        AuthPlan::Basic { username, password } => assert_eq!((username.as_str(), password.as_str()), ("a", "b")),
        other => panic!("expected basic auth, got {other:?}"),
    }
    let one = parse_push_pull_options(&args(&["-u", "a"]), &[]).unwrap();
    assert_eq!(
        resolve_push_pull_auth("ghcr.io/x:1", &one).unwrap_err().to_string(),
        "--username and --password must be supplied together"
    );
    let none = parse_push_pull_options(&[], &[]).unwrap();
    match resolve_push_pull_auth("https://ghcr.io/x:1", &none).unwrap() {
        AuthPlan::DockerConfig { host, path } => {
            assert_eq!(host, "ghcr.io");
            assert_eq!(path, None);
        },
        other => panic!("expected docker config, got {other:?}"),
    }
    let alt = parse_push_pull_options(&args(&["--docker-config", "/d.json"]), &[]).unwrap();
    match resolve_push_pull_auth("r/x", &alt).unwrap() {
        AuthPlan::DockerConfig { path, .. } => assert_eq!(path.as_deref(), Some("/d.json")),
        other => panic!("expected docker config, got {other:?}"),
    }
    let anon = parse_push_pull_options(&args(&["--no-docker-config"]), &[]).unwrap();
    assert!(matches!(resolve_push_pull_auth("r/x", &anon).unwrap(), AuthPlan::Anonymous));
}

#[test]
fn push_plans() {
    assert!(plan_push(&[], &[]).unwrap().is_none());
    assert_eq!(
        plan_push(&args(&["a.zip"]), &[]).unwrap_err().to_string(),
        "push requires <archive> <registry/repo:tag>"
    );
    let p = plan_push(&args(&["a.zip", "ghcr.io/o/p:1", "--no-docker-config"]), &[]).unwrap().unwrap();
    assert_eq!(p.archive, "a.zip");
    assert_eq!(p.reference, "ghcr.io/o/p:1");
    assert!(matches!(p.auth, AuthPlan::Anonymous));
}

#[test]
fn pull_plans() {
    assert!(plan_pull(&[], &[]).unwrap().is_none());
    let p = plan_pull(&args(&["ghcr.io/o/p@sha256:feed", "-u", "x", "-p", "y"]), &[]).unwrap().unwrap();
    assert_eq!(p.output, "p@sha256_feed.zip");
    assert_eq!(p.pinned_digest.as_deref(), Some("feed"));
    assert!(matches!(p.auth, AuthPlan::Basic { .. }));

    let p = plan_pull(&args(&["r/p:1", "-o", "a.zip", "--output", "b.zip", "--insecure-registry", "r"]), &[])
        .unwrap()
        .unwrap();
    assert_eq!(p.output, "b.zip");
    assert_eq!(p.options.insecure, vec!["r".to_owned()]);
    assert_eq!(p.pinned_digest, None);

    assert_eq!(
        plan_pull(&args(&["r/p:1", "--output"]), &[]).unwrap_err().to_string(),
        "--output requires a path argument"
    );
    // `--output` after a credential flag is not an output flag.
    assert_eq!(
        plan_pull(&args(&["r/p:1", "--no-docker-config", "-o", "x"]), &[]).unwrap_err().to_string(),
        "unknown option: -o"
    );
}
