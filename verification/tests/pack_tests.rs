use mcpg_plugin::pack::{
    canonical_filename, host_arch_label, host_os_label, pack_output_path, parse_pack_args,
    license_candidate, short_name_from_id, ArtifactKind,
};
use mcpg_plugin::path::{extension, file_name, parent, path_join};

fn args(v: &[&str]) -> Vec<String> {
    v.iter().map(|s| s.to_string()).collect()
}

#[test]
fn host_labels() {
    assert_eq!(host_os_label("linux"), "linux");
    assert_eq!(host_os_label("macos"), "darwin");
    assert_eq!(host_os_label("windows"), "windows");
    assert_eq!(host_os_label("freebsd"), "unknown");
    assert_eq!(host_arch_label("x86_64"), "amd64");
    assert_eq!(host_arch_label("aarch64"), "arm64");
    assert_eq!(host_arch_label("riscv64"), "unknown");
}

#[test]
fn short_names_and_canonical_filename() {
    assert_eq!(short_name_from_id("dev.mcpg.circuit-breaker"), "circuit-breaker");
    assert_eq!(short_name_from_id("plain"), "plain");
    assert_eq!(short_name_from_id("trailing."), "");
    assert_eq!(
        canonical_filename("circuit-breaker", "1.2.0", "linux", "amd64"),
        "mcpg-plugin-circuit-breaker_1.2.0_linux_amd64.zip"
    );
}

#[test]
fn pack_native_defaults_to_host_platform() {
    let p = parse_pack_args(
        &args(&["--descriptor", "plugin.yaml", "--artifact", "target/release/libx.dylib", "--version", "1.2.0"]),
        "macos",
        "aarch64",
    )
    .unwrap()
    .unwrap();
    assert_eq!(p.artifact_kind, ArtifactKind::Native);
    assert_eq!(p.os, "darwin");
    assert_eq!(p.arch, "arm64");
    assert_eq!(p.signature, None);
    assert_eq!(p.license, None);
    assert_eq!(pack_output_path(&p, "dev.mcpg.x"), "mcpg-plugin-x_1.2.0_darwin_arm64.zip");
}

#[test]
fn pack_wasm_defaults_to_wasi() {
    let p = parse_pack_args(
        &args(&["-d", "d.yaml", "-a", "p.wasm", "-v", "0.1.0", "-s", "p.sig", "-l", "LICENSE"]),
        "linux",
        "x86_64",
    )
    .unwrap()
    .unwrap();
    assert_eq!(p.artifact_kind, ArtifactKind::Wasm);
    assert_eq!((p.os.as_str(), p.arch.as_str()), ("wasi", "wasm"));
    assert_eq!(p.signature.as_deref(), Some("p.sig"));
    assert_eq!(p.license.as_deref(), Some("LICENSE"));
    assert_eq!(pack_output_path(&p, "a.b.c"), "mcpg-plugin-c_0.1.0_wasi_wasm.zip");
}

#[test]
fn pack_overrides() {
    let p = parse_pack_args(
        &args(&[
            "--descriptor", "d", "--artifact", "x.dll", "--version", "2", "--os", "windows", "--arch", "amd64",
            "-o", "out.zip",
        ]),
        "linux",
        "x86_64",
    )
    .unwrap()
    .unwrap();
    assert_eq!((p.os.as_str(), p.arch.as_str()), ("windows", "amd64"));
    assert_eq!(pack_output_path(&p, "ignored.id"), "out.zip");
}

#[test]
fn pack_errors() {
    let e = |v: &[&str]| parse_pack_args(&args(v), "linux", "x86_64").unwrap_err().to_string();
    assert!(parse_pack_args(&[], "linux", "x86_64").unwrap().is_none());
    assert_eq!(e(&["--artifact", "x.so", "--version", "1"]), "--descriptor is required");
    assert_eq!(e(&["--descriptor", "d", "--version", "1"]), "--artifact is required");
    assert_eq!(e(&["--descriptor", "d", "--artifact", "x.so"]), "--version is required");
    assert_eq!(e(&["--frobnicate"]), "unknown option: --frobnicate");
    assert_eq!(e(&["--descriptor"]), "--descriptor requires a path argument");
    assert_eq!(e(&["--version"]), "--version requires a value");
    assert_eq!(e(&["--os"]), "--os requires a value");
    assert_eq!(
        e(&["--descriptor", "d", "--artifact", "lib.a", "--version", "1"]),
        "cannot infer artifact kind from lib.a — expected .so/.dylib/.dll or .wasm"
    );
    assert_eq!(
        e(&["--descriptor", "d", "--artifact", ".so", "--version", "1"]),
        "cannot infer artifact kind from .so — expected .so/.dylib/.dll or .wasm"
    );
}

#[test]
fn path_helpers() {
    assert_eq!(file_name("/a/b/c.zip").as_deref(), Some("c.zip"));
    assert_eq!(file_name("/a/b/").as_deref(), Some("b"));
    assert_eq!(file_name("/a/b/.").as_deref(), Some("b"));
    assert_eq!(file_name("/a/.."), None);
    assert_eq!(file_name("/"), None);
    assert_eq!(extension("c.tar.gz").as_deref(), Some("gz"));
    assert_eq!(extension(".bashrc"), None);
    assert_eq!(extension("x."), Some(String::new()));
    assert_eq!(path_join("a", "b"), "a/b");
    assert_eq!(path_join("a/", "b"), "a/b");
    assert_eq!(path_join("", "b"), "b");
    assert_eq!(path_join("a", "/b"), "/b");
}

#[test]
fn parent_matches_std_path() {
    let samples = [
        "", "/", "//", "a", "a/", "a/b", "a//b", "a/b/", "a/./b", "a/b/.", "./a", "./", ".", "./.", "..",
        "a/..", "/a", "//a", "/a/b/c.yaml", "plugin.yaml", "dir/plugin.yaml", ".a/b", "./a/.", "/.",
        "a/.b", "x/./", "../x", "/./a", "a/b//./", ".hidden", "./.x/y",
    ];
    for p in samples {
        let want = std::path::Path::new(p).parent().map(|q| q.to_str().unwrap().to_owned());
        assert_eq!(parent(p), want, "parent of {p:?}");
        let lic = std::path::Path::new(p).parent().map(|q| q.join("LICENSE").to_str().unwrap().to_owned());
        assert_eq!(license_candidate(p), lic, "licence beside {p:?}");
    }
    assert_eq!(license_candidate("plugin.yaml").as_deref(), Some("LICENSE"));
    assert_eq!(license_candidate("crates/x/plugin.yaml").as_deref(), Some("crates/x/LICENSE"));
    assert_eq!(license_candidate("/"), None);
}
