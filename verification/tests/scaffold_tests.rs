use mcpg_plugin::pack::parse_pack_args;
use mcpg_plugin::scaffold::{
    is_scaffold_kind, join_strs, plan_new, render_cargo_toml, render_lib_rs, render_lib_rs_per_kind,
    render_lib_rs_tool_gate, render_plugin_yaml, render_readme, replace_chars, scaffold_files,
    scaffold_kind_list, snake_to_camel,
};

fn args(v: &[&str]) -> Vec<String> {
    v.iter().map(|s| s.to_string()).collect()
}

#[test]
fn snake_to_camel_cases() {
    assert_eq!(snake_to_camel("tool_gate"), "ToolGate");
    assert_eq!(snake_to_camel("audit_sink"), "AuditSink");
    assert_eq!(snake_to_camel("store"), "Store");
    assert_eq!(snake_to_camel("__a__b_"), "AB");
    assert_eq!(snake_to_camel(""), "");
    assert_eq!(snake_to_camel("x1_2y"), "X12y");
    // Upper-casing is Unicode's: `ß` becomes `SS`.
    assert_eq!(snake_to_camel("ßa_éb"), "SSaÉb");
}

#[test]
fn replace_chars_maps_each_char() {
    assert_eq!(replace_chars("audit_sink_x", '_', '-'), "audit-sink-x");
    assert_eq!(replace_chars("mcpg-plugin-tool-gate-x", '-', '_'), "mcpg_plugin_tool_gate_x");
    assert_eq!(replace_chars("", '-', '_'), "");
}

#[test]
fn scaffold_kinds_are_listed() {
    let kinds = scaffold_kind_list();
    assert_eq!(kinds.len(), 21);
    assert_eq!(kinds[0], "tool_gate");
    assert_eq!(kinds[20], "content_store");
    assert!(is_scaffold_kind("identity"));
    assert!(is_scaffold_kind("watch_strategy"));
    assert!(!is_scaffold_kind("identity_provider"));
    assert!(!is_scaffold_kind(""));
    assert_eq!(join_strs(&vec!["a", "b", "c"], ", "), "a, b, c");
    assert_eq!(join_strs(&vec![], ", "), "");
}

#[test]
fn plan_new_defaults() {
    let p = plan_new(&args(&["--kind", "audit_sink", "--name", "demo"])).unwrap().unwrap();
    assert_eq!(p.kind, "audit_sink");
    assert_eq!(p.name, "demo");
    assert_eq!(p.plugin_id, "dev.example.audit_sink.demo");
    assert_eq!(p.crate_name, "mcpg-plugin-audit-sink-demo");
    assert_eq!(p.dir, "mcpg-plugin-audit-sink-demo");
}

#[test]
fn plan_new_overrides() {
    let p = plan_new(&args(&["--name", "n", "--kind", "store", "--id", "com.acme.s", "--out", "/tmp/o"]))
        .unwrap()
        .unwrap();
    assert_eq!(p.plugin_id, "com.acme.s");
    assert_eq!(p.dir, "/tmp/o");
    assert_eq!(p.crate_name, "mcpg-plugin-store-n");
}

#[test]
fn plan_new_errors() {
    assert_eq!(plan_new(&[]).unwrap_err().to_string(), "missing arguments — see usage above");
    assert!(plan_new(&args(&["help"])).unwrap().is_none());
    let e = |v: &[&str]| plan_new(&args(v)).unwrap_err().to_string();
    assert_eq!(e(&["--kind"]), "--kind requires a value");
    assert_eq!(e(&["--name"]), "--name requires a value");
    assert_eq!(e(&["--id"]), "--id requires a value");
    assert_eq!(e(&["--out"]), "--out requires a path");
    assert_eq!(e(&["--force"]), "unknown flag: --force");
    assert_eq!(e(&["--name", "x"]), "--kind is required");
    assert_eq!(e(&["--kind", "store"]), "--name is required");
    let err = e(&["--kind", "nope", "--name", "x"]);
    assert!(err.starts_with("unknown kind 'nope'. Supported: tool_gate, transform, identity, backend, "));
    assert!(err.ends_with("watch_strategy, content_store"));
}

#[test]
fn cargo_toml_names_the_crate() {
    let t = render_cargo_toml("mcpg-plugin-store-x", "store");
    assert!(t.starts_with("[package]\nname = \"mcpg-plugin-store-x\"\nversion = \"0.1.0\"\nedition = \"2024\"\n"));
    assert!(t.contains("crate-type = [\"cdylib\", \"rlib\"]"));
    assert!(t.contains("static-firstparty = [\"mcpg-plugin-sdk/static-firstparty\"]"));
    assert!(t.ends_with("serde_json = \"1\"\n"));
}

#[test]
fn plugin_yaml_template() {
    let y = render_plugin_yaml("dev.example.store.x", "store", "x");
    assert_eq!(
        y,
        "schema: mcpg.dev/plugin/v1\nid: dev.example.store.x\nname: dev.example.store.x\n\
         description: Scaffolded by `mcpg plugin new` — replace this with a real description.\n\
         class: store\nruntime: native-cdylib-v1\nprotocol_version: '1.22'\nrequired_capabilities: []\n"
    );
}

#[test]
fn lib_rs_templates() {
    let gate = render_lib_rs("tool_gate", "my-gate", "dev.example.tool_gate.my-gate");
    assert_eq!(gate, render_lib_rs_tool_gate("my-gate", "dev.example.tool_gate.my-gate"));
    assert!(gate.starts_with("//! Scaffolded by `mcpg plugin new --kind tool_gate`."));
    assert!(gate.contains("        id: \"dev.example.tool_gate.my-gate\".into(),"));
    assert!(gate.contains("    plugin_id: \"dev.example.tool_gate.my-gate\",\n"));
    assert!(gate.contains("        tool_gate as my_gate {\n"));
    assert!(gate.contains("impl SyncToolGate for MyGate {\n    fn manifest(&self) -> &PluginManifest {\n        &self.manifest\n    }\n"));
    assert_eq!(gate.matches("license: None,").count(), 1);
    assert!(gate.ends_with("    ],\n}\n"));

    let other = render_lib_rs("audit_sink", "x", "dev.example.audit_sink.x");
    assert_eq!(other, render_lib_rs_per_kind("audit_sink", "dev.example.audit_sink.x"));
    assert!(other.starts_with("//! Scaffolded by `mcpg plugin new --kind audit_sink`.\n"));
    assert!(other.contains("// TODO: implement the `SyncAuditSink` trait from\n"));
    assert!(other.contains("// `audit_sink`. See the macro's rustdoc"));
    assert!(other.contains("const PLUGIN_ID: &str = \"dev.example.audit_sink.x\";\n"));
    assert!(other.ends_with("fn _unused_id() -> &'static str {\n    PLUGIN_ID\n}\n"));
}

#[test]
fn readme_template() {
    let r = render_readme("mcpg-plugin-store-x", "store", "x", "dev.example.store.x");
    assert!(r.starts_with("# mcpg-plugin-store-x\n\nPlugin scaffolded by `mcpg plugin new --kind store --name <name>`.\n"));
    assert!(r.contains("- **Plugin id**: `dev.example.store.x`\n- **Class**: `store`\n"));
    assert!(r.contains("`target/release/libmcpg_plugin_store_x.so` (Linux),\n`libmcpg_plugin_store_x.dylib` (macOS), or `mcpg_plugin_store_x.dll` (Windows)."));
    assert!(r.contains(
        "mcpg plugin pack \\\n    --descriptor plugin.yaml \\\n    --artifact target/release/libmcpg_plugin_store_x.so \\\n    --version 0.1.0 \\\n    --output mcpg-plugin-store-x.zip\n\nmcpg plugin test mcpg-plugin-store-x.zip\n"
    ));
    assert!(r.contains("mcpg_plugin_store_x::register_static(&mut registrar, &[], host)?;"));
}

#[test]
fn scaffold_file_layout() {
    let p = plan_new(&args(&["--kind", "tool_gate", "--name", "g", "--out", "out/"])).unwrap().unwrap();
    let files = scaffold_files(&p);
    let paths: Vec<&str> = files.iter().map(|(p, _)| p.as_str()).collect();
    assert_eq!(paths, vec!["out/Cargo.toml", "out/plugin.yaml", "out/src/lib.rs", "out/README.md"]);
    assert_eq!(files[0].1, render_cargo_toml("mcpg-plugin-tool-gate-g", "tool_gate"));
    assert_eq!(files[2].1, render_lib_rs_tool_gate("g", "dev.example.tool_gate.g"));
}

#[test]
fn scaffold_readme_pack_recipe_is_accepted_by_pack() {
    let r = render_readme("mcpg-plugin-store-x", "store", "x", "dev.example.store.x");
    let start = r.find("mcpg plugin pack").unwrap();
    let end = start + r[start..].find("\n\n").unwrap();
    let recipe = r[start..end].replace("\\\n", " ");
    let words: Vec<String> = recipe.split_whitespace().skip(3).map(|w| w.to_string()).collect();
    let p = parse_pack_args(&words, "linux", "x86_64").unwrap().unwrap();
    assert_eq!(p.output.as_deref(), Some("mcpg-plugin-store-x.zip"));
    assert_eq!(p.version, "0.1.0");
    assert_eq!(p.artifact, "target/release/libmcpg_plugin_store_x.so");
}
