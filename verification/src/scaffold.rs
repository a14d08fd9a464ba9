//! `new`: the scaffolded plugin crate — its command line, the names
//! derived from the kind and the name, and the text of each file.
use vstd::prelude::*;

use crate::cli::{arg_is, fail, fail_with, opt_text, texts, CliError};
use crate::path::{path_join, path_join_of};
use crate::text::{chars_of, push_char, same_text};

verus! {

// ---------------------------------------------------------------------------
// Characters
// ---------------------------------------------------------------------------

/// What `char::to_uppercase` yields for `c`.
pub uninterp spec fn uppercase_of(c: char) -> Seq<char>;

/// The ASCII upper case of `c` (`c` itself unless it is `a`..=`z`).
pub open spec fn ascii_upper(c: char) -> char {
    if 'a' <= c && c <= 'z' {
        ((c as int) - 32) as char
    } else {
        c
    }
}

/// Trusted: `char::to_uppercase`, collected into a `String`, gives the
/// Unicode upper case of `c`, which depends on `c` alone; for an ASCII
/// character it is the ASCII upper case, as the standard library
/// documents. Beyond ASCII the mapping is not stated.
#[verifier::external_body]
fn uppercase(c: char) -> (r: String)
    ensures
        r@ == uppercase_of(c),
        (c as u32) < 128 ==> r@ == seq![ascii_upper(c)],
{
    c.to_uppercase().collect()
}

/// `s` with every `from` replaced by `to`.
pub open spec fn replace_char(s: Seq<char>, from: char, to: char) -> Seq<char> {
    s.map_values(|c: char| if c == from { to } else { c })
}

/// `s.replace(from, to)` for single characters.
pub fn replace_chars(s: &str, from: char, to: char) -> (r: String)
    ensures
        r@ == replace_char(s@, from, to),
{
    let cs = chars_of(s);
    let mut out = String::new();
    let mut i: usize = 0;
    while i < cs.len()
        invariant
            cs@ == s@,
            i <= cs.len(),
            out@ == replace_char(s@.take(i as int), from, to),
        decreases cs.len() - i,
    {
        let c = cs[i];
        if c == from {
            push_char(&mut out, to);
        } else {
            push_char(&mut out, c);
        }
        assert(replace_char(s@.take(i + 1), from, to) =~= replace_char(s@.take(i as int), from, to)
            + seq![if c == from { to } else { c }]);
        i = i + 1;
    }
    assert(s@.take(cs.len() as int) =~= s@);
    out
}

/// CamelCase of a snake_case text: each `_` is dropped and the character
/// after it (and the first one) is upper-cased with `char::to_uppercase`.
pub open spec fn camel_of(s: Seq<char>, upper_next: bool) -> Seq<char>
    decreases s.len(),
{
    if s.len() == 0 {
        Seq::empty()
    } else if s[0] == '_' {
        camel_of(s.drop_first(), true)
    } else if upper_next {
        uppercase_of(s[0]) + camel_of(s.drop_first(), false)
    } else {
        seq![s[0]] + camel_of(s.drop_first(), false)
    }
}

/// Every character of `s` is ASCII.
pub open spec fn is_ascii_text(s: Seq<char>) -> bool {
    forall|i: int| 0 <= i < s.len() ==> (#[trigger] s[i] as u32) < 128
}

/// `camel_of` for ASCII text: the first letter of each `_`-separated
/// segment becomes its ASCII upper case, the rest is kept, the `_` go.
pub open spec fn camel_ascii(s: Seq<char>, upper_next: bool) -> Seq<char>
    decreases s.len(),
{
    if s.len() == 0 {
        Seq::empty()
    } else if s[0] == '_' {
        camel_ascii(s.drop_first(), true)
    } else if upper_next {
        seq![ascii_upper(s[0])] + camel_ascii(s.drop_first(), false)
    } else {
        seq![s[0]] + camel_ascii(s.drop_first(), false)
    }
}

/// `tool_gate` → `ToolGate`.
pub fn snake_to_camel(s: &str) -> (r: String)
    ensures
        r@ == camel_of(s@, true),
        is_ascii_text(s@) ==> r@ == camel_ascii(s@, true),
{
    let cs = chars_of(s);
    let mut out = String::new();
    let mut next_upper = true;
    let mut i: usize = 0;
    assert(cs@.skip(0) =~= cs@);
    while i < cs.len()
        invariant
            cs@ == s@,
            i <= cs.len(),
            out@ + camel_of(cs@.skip(i as int), next_upper) == camel_of(s@, true),
            is_ascii_text(s@) ==> out@ + camel_ascii(cs@.skip(i as int), next_upper) == camel_ascii(
                s@,
                true,
            ),
        decreases cs.len() - i,
    {
        let ghost rest = cs@.skip(i as int);
        let ghost before = out@;
        assert(rest[0] == cs@[i as int]);
        assert(rest.drop_first() =~= cs@.skip(i + 1));
        let ch = cs[i];
        if ch == '_' {
            next_upper = true;
        } else if next_upper {
            let u = uppercase(ch);
            out.append(u.as_str());
            next_upper = false;
            assert(out@ + camel_of(cs@.skip(i + 1), false) =~= before + (uppercase_of(ch) + camel_of(
                cs@.skip(i + 1),
                false,
            )));
            proof {
                if is_ascii_text(s@) {
                    assert((s@[i as int] as u32) < 128);
                    assert(out@ + camel_ascii(cs@.skip(i + 1), false) =~= before + (seq![
                        ascii_upper(ch),
                    ] + camel_ascii(cs@.skip(i + 1), false)));
                }
            }
        } else {
            push_char(&mut out, ch);
            assert(out@ + camel_of(cs@.skip(i + 1), false) =~= before + (seq![ch] + camel_of(
                cs@.skip(i + 1),
                false,
            )));
            assert(out@ + camel_ascii(cs@.skip(i + 1), false) =~= before + (seq![ch] + camel_ascii(
                cs@.skip(i + 1),
                false,
            )));
        }
        i = i + 1;
    }
    assert(cs@.skip(cs.len() as int) =~= Seq::<char>::empty());
    assert(out@ + Seq::<char>::empty() =~= out@);
    out
}

// ---------------------------------------------------------------------------
// File templates
// ---------------------------------------------------------------------------

pub const CARGO_TOML_A: &'static str = "[package]
name = \"";
pub const CARGO_TOML_B: &'static str = "\"
version = \"0.1.0\"
edition = \"2024\"

[lib]
crate-type = [\"cdylib\", \"rlib\"]

[features]
default = [\"cdylib-export\"]
# Emit the `mcpg_plugin_register` extern \"C\" symbol — the
# macro-generated cdylib entry point the host's dynamic loader
# looks up at OCI load time. Disable when embedding statically.
cdylib-export = [\"mcpg-plugin-sdk/cdylib-export\"]
# Pull in `mcpg-plugin-host` + `anyhow` so the macro's
# `register_static()` expansion compiles. Operators embedding
# the plugin into a custom gateway binary enable this.
static-firstparty = [\"mcpg-plugin-sdk/static-firstparty\"]

[dependencies]
mcpg-plugin-protocol = \"1\"
mcpg-plugin-sdk = \"1\"
serde_json = \"1\"
";
/// The scaffold's `Cargo.toml`: a cdylib + rlib crate named `crate_name`.
pub open spec fn cargo_toml_text(crate_name: Seq<char>) -> Seq<char> {
    CARGO_TOML_A@
        + crate_name
        + CARGO_TOML_B@
}

/// Renders the scaffold's `Cargo.toml`.
pub fn render_cargo_toml(crate_name: &str, _kind: &str) -> (r: String)
    ensures
        r@ == cargo_toml_text(crate_name@),
{
    let mut s = String::from_str(CARGO_TOML_A);
    s.append(crate_name);
    s.append(CARGO_TOML_B);
    s
}

pub const PLUGIN_YAML_A: &'static str = "schema: mcpg.dev/plugin/v1
id: ";
pub const PLUGIN_YAML_B: &'static str = "
name: ";
pub const PLUGIN_YAML_C: &'static str = "
description: Scaffolded by `mcpg plugin new` — replace this with a real description.
class: ";
pub const PLUGIN_YAML_D: &'static str = "
runtime: native-cdylib-v1
protocol_version: '1.22'
required_capabilities: []
";
/// The scaffold's `plugin.yaml` descriptor, with no required capabilities.
pub open spec fn plugin_yaml_text(plugin_id: Seq<char>, kind: Seq<char>) -> Seq<char> {
    PLUGIN_YAML_A@
        + plugin_id
        + PLUGIN_YAML_B@
        + plugin_id
        + PLUGIN_YAML_C@
        + kind
        + PLUGIN_YAML_D@
}

/// Renders the scaffold's `plugin.yaml`.
pub fn render_plugin_yaml(plugin_id: &str, kind: &str, _inner_name: &str) -> (r: String)
    ensures
        r@ == plugin_yaml_text(plugin_id@, kind@),
{
    let mut s = String::from_str(PLUGIN_YAML_A);
    s.append(plugin_id);
    s.append(PLUGIN_YAML_B);
    s.append(plugin_id);
    s.append(PLUGIN_YAML_C);
    s.append(kind);
    s.append(PLUGIN_YAML_D);
    s
}

pub const TOOL_GATE_LIB_A: &'static str = "//! Scaffolded by `mcpg plugin new --kind tool_gate`.
//!
//! Authored via the unified [`declare_plugin!`](mcpg_plugin_sdk::declare_plugin)
//! macro. One invocation generates BOTH the
//! cdylib `mcpg_plugin_register()` export AND a `register_static()`
//! function for the static-firstparty path — same source, two
//! integration points.

use mcpg_plugin_protocol::manifest::{PluginClass, PluginManifest};
use mcpg_plugin_protocol::types::{GateDecision, PluginContext};
use mcpg_plugin_protocol::PROTOCOL_VERSION;
use mcpg_plugin_sdk::declare_plugin;
use mcpg_plugin_sdk::ffi::SyncToolGate;

pub struct MyGate {
    manifest: PluginManifest,
}

impl MyGate {
    pub fn new(_config_json: &str) -> Self {
        Self { manifest: build_manifest() }
    }
}

fn build_manifest() -> PluginManifest {
    PluginManifest {
        license: None,
        id: \"";
pub const TOOL_GATE_LIB_B: &'static str = "\".into(),
        version: env!(\"CARGO_PKG_VERSION\").into(),
        name: \"";
pub const TOOL_GATE_LIB_C: &'static str = "\".into(),
        plugin_class: PluginClass::ToolGate,
        protocol_version: PROTOCOL_VERSION.into(),
        required_capabilities: vec![],
        tags: vec![],
        provides: vec![],
        provides_schemes: vec![],
        module_path_prefix: ::std::module_path!()
            .split(\"::\")
            .next()
            .unwrap_or(\"plugin\")
            .to_owned(),
        backend_profile: None,
    }
}

impl SyncToolGate for MyGate {
    fn manifest(&self) -> &PluginManifest {
        &self.manifest
    }

    fn evaluate_pre(
        &self,
        _ctx: &PluginContext,
        _args: &serde_json::Value,
        _meta: Option<&serde_json::Value>,
        _config: &serde_json::Value,
    ) -> GateDecision {
        // TODO: implement your pre-dispatch logic.
        GateDecision::allow()
    }

    fn evaluate_post(
        &self,
        _ctx: &PluginContext,
        _args: &serde_json::Value,
        _result: &serde_json::Value,
        _duration_ms: u64,
        _config: &serde_json::Value,
    ) -> GateDecision {
        // TODO: implement your post-dispatch logic.
        GateDecision::allow()
    }
}

declare_plugin! {
    plugin_id: \"";
pub const TOOL_GATE_LIB_D: &'static str = "\",
    plugin_version: env!(\"CARGO_PKG_VERSION\"),
    descriptor_yaml: include_str!(\"../plugin.yaml\"),
    entities: [
        tool_gate as ";
pub const TOOL_GATE_LIB_E: &'static str = " {
            inner_name: \"\",
            plugin_type: MyGate,
            factory: |cfg: &str| MyGate::new(cfg),
        },
    ],
}
";
/// The full `tool_gate` template of `src/lib.rs`; the entity's module is `inner_name` with `-` as `_`.
pub open spec fn tool_gate_lib_text(inner_name: Seq<char>, plugin_id: Seq<char>) -> Seq<char> {
    let mod_ident = replace_char(inner_name, '-', '_');
    TOOL_GATE_LIB_A@
        + plugin_id
        + TOOL_GATE_LIB_B@
        + plugin_id
        + TOOL_GATE_LIB_C@
        + plugin_id
        + TOOL_GATE_LIB_D@
        + mod_ident
        + TOOL_GATE_LIB_E@
}

/// Renders the `tool_gate` template of `src/lib.rs`.
pub fn render_lib_rs_tool_gate(inner_name: &str, plugin_id: &str) -> (r: String)
    ensures
        r@ == tool_gate_lib_text(inner_name@, plugin_id@),
{
    let mod_ident = replace_chars(inner_name, '-', '_');
    let mut s = String::from_str(TOOL_GATE_LIB_A);
    s.append(plugin_id);
    s.append(TOOL_GATE_LIB_B);
    s.append(plugin_id);
    s.append(TOOL_GATE_LIB_C);
    s.append(plugin_id);
    s.append(TOOL_GATE_LIB_D);
    s.append(mod_ident.as_str());
    s.append(TOOL_GATE_LIB_E);
    s
}

pub const PER_KIND_LIB_A: &'static str = "//! Scaffolded by `mcpg plugin new --kind ";
pub const PER_KIND_LIB_B: &'static str = "`.
//!
//! Authored via the unified
//! [`declare_plugin!`](mcpg_plugin_sdk::declare_plugin) macro —
//! the same entry point every kind uses.

// TODO: implement the `Sync";
pub const PER_KIND_LIB_C: &'static str = "` trait from
// `mcpg_plugin_sdk::ffi` and invoke
// `mcpg_plugin_sdk::declare_plugin!` with one entity of kind
// `";
pub const PER_KIND_LIB_D: &'static str = "`. See the macro's rustdoc for the full syntax.

const PLUGIN_ID: &str = \"";
pub const PER_KIND_LIB_E: &'static str = "\";

// Placeholder so `cargo build` succeeds on a fresh scaffold —
// replace with the real trait impl + macro invocation.
fn _unused_id() -> &'static str {
    PLUGIN_ID
}
";
/// The stub `src/lib.rs` of the other kinds, naming the `Sync<KindCamel>` trait to implement.
pub open spec fn per_kind_lib_text(kind: Seq<char>, plugin_id: Seq<char>) -> Seq<char> {
    let kind_camel = camel_of(kind, true);
    PER_KIND_LIB_A@
        + kind
        + PER_KIND_LIB_B@
        + kind_camel
        + PER_KIND_LIB_C@
        + kind
        + PER_KIND_LIB_D@
        + plugin_id
        + PER_KIND_LIB_E@
}

/// Renders the stub `src/lib.rs` of a kind without a full template.
pub fn render_lib_rs_per_kind(kind: &str, plugin_id: &str) -> (r: String)
    ensures
        r@ == per_kind_lib_text(kind@, plugin_id@),
{
    let kind_camel = snake_to_camel(kind);
    let mut s = String::from_str(PER_KIND_LIB_A);
    s.append(kind);
    s.append(PER_KIND_LIB_B);
    s.append(kind_camel.as_str());
    s.append(PER_KIND_LIB_C);
    s.append(kind);
    s.append(PER_KIND_LIB_D);
    s.append(plugin_id);
    s.append(PER_KIND_LIB_E);
    s
}

pub const README_A: &'static str = "# ";
pub const README_B: &'static str = "

Plugin scaffolded by `mcpg plugin new --kind ";
pub const README_C: &'static str = " --name <name>`.

- **Plugin id**: `";
pub const README_D: &'static str = "`
- **Class**: `";
pub const README_E: &'static str = "`
- **Runtime**: `native-cdylib-v1`

## Build (cdylib for OCI distribution)

```sh
cargo build --release
```

The cdylib lands at `target/release/lib";
pub const README_F: &'static str = ".so` (Linux),
`lib";
pub const README_G: &'static str = ".dylib` (macOS), or `";
pub const README_H: &'static str = ".dll` (Windows).

## Smoke-test

```sh
mcpg plugin pack \\
    --descriptor plugin.yaml \\
    --artifact target/release/lib";
pub const README_I: &'static str = ".so \\
    --version 0.1.0 \\
    --output ";
pub const README_J: &'static str = ".zip

mcpg plugin test ";
pub const README_K: &'static str = ".zip
```

## Static-firstparty embedding

Add the crate as a path-dep to your gateway crate with
`default-features = false, features = [\"static-firstparty\"]`. Then
in the gateway's boot path:

```rust,ignore
";
pub const README_L: &'static str = "::register_static(&mut registrar, &[], host)?;
```

The `host` argument is the `mcpg_plugin_sdk::HostHandle` the gateway
constructs from its `LateBoundHostServices` + the plugin entry's
alias.

The macro-generated `register_static()` wires the plugin through
the in-process trait dispatch, bypassing the FFI entirely, so the
fast path is preserved.
";
/// The scaffold's `README.md`; the library file is named after `crate_name` with `-` as `_`.
pub open spec fn readme_text(crate_name: Seq<char>, kind: Seq<char>, plugin_id: Seq<char>) -> Seq<char> {
    let so_name = replace_char(crate_name, '-', '_');
    README_A@
        + crate_name
        + README_B@
        + kind
        + README_C@
        + plugin_id
        + README_D@
        + kind
        + README_E@
        + so_name
        + README_F@
        + so_name
        + README_G@
        + so_name
        + README_H@
        + so_name
        + README_I@
        + crate_name
        + README_J@
        + crate_name
        + README_K@
        + so_name
        + README_L@
}

/// Renders the scaffold's `README.md`.
pub fn render_readme(crate_name: &str, kind: &str, _inner_name: &str, plugin_id: &str) -> (r: String)
    ensures
        r@ == readme_text(crate_name@, kind@, plugin_id@),
{
    let so_name = replace_chars(crate_name, '-', '_');
    let mut s = String::from_str(README_A);
    s.append(crate_name);
    s.append(README_B);
    s.append(kind);
    s.append(README_C);
    s.append(plugin_id);
    s.append(README_D);
    s.append(kind);
    s.append(README_E);
    s.append(so_name.as_str());
    s.append(README_F);
    s.append(so_name.as_str());
    s.append(README_G);
    s.append(so_name.as_str());
    s.append(README_H);
    s.append(so_name.as_str());
    s.append(README_I);
    s.append(crate_name);
    s.append(README_J);
    s.append(crate_name);
    s.append(README_K);
    s.append(so_name.as_str());
    s.append(README_L);
    s
}

/// `src/lib.rs`: the full template for `tool_gate`, the stub otherwise.
pub open spec fn lib_rs_text(kind: Seq<char>, inner_name: Seq<char>, plugin_id: Seq<char>) -> Seq<char> {
    if kind == "tool_gate"@ {
        tool_gate_lib_text(inner_name, plugin_id)
    } else {
        per_kind_lib_text(kind, plugin_id)
    }
}

/// Renders the scaffold's `src/lib.rs` for `kind`.
pub fn render_lib_rs(kind: &str, inner_name: &str, plugin_id: &str) -> (r: String)
    ensures
        r@ == lib_rs_text(kind@, inner_name@, plugin_id@),
{
    if same_text(kind, "tool_gate") {
        render_lib_rs_tool_gate(inner_name, plugin_id)
    } else {
        render_lib_rs_per_kind(kind, plugin_id)
    }
}

// ---------------------------------------------------------------------------
// Kinds
// ---------------------------------------------------------------------------

/// The kinds the scaffolder has templates for, in the order they are listed.
pub open spec fn scaffold_kinds() -> Seq<Seq<char>> {
    seq![
        "tool_gate"@,
        "transform"@,
        "identity"@,
        "backend"@,
        "audit_sink"@,
        "log_sink"@,
        "metrics_sink"@,
        "telemetry_sink"@,
        "secret_provider"@,
        "config_provider"@,
        "store"@,
        "cache"@,
        "policy_engine"@,
        "approval_notifier"@,
        "credential_issuer"@,
        "catalog_provider"@,
        "cluster"@,
        "transport"@,
        "http_route"@,
        "watch_strategy"@,
        "content_store"@,
    ]
}

/// Every kind the scaffolder documents is supported, and nothing else:
/// twenty-one names.
pub proof fn lemma_supported_kinds()
    ensures
        scaffold_kinds().contains("tool_gate"@),
        scaffold_kinds().contains("transform"@),
        scaffold_kinds().contains("identity"@),
        scaffold_kinds().contains("backend"@),
        scaffold_kinds().contains("audit_sink"@),
        scaffold_kinds().contains("log_sink"@),
        scaffold_kinds().contains("metrics_sink"@),
        scaffold_kinds().contains("telemetry_sink"@),
        scaffold_kinds().contains("secret_provider"@),
        scaffold_kinds().contains("config_provider"@),
        scaffold_kinds().contains("store"@),
        scaffold_kinds().contains("cache"@),
        scaffold_kinds().contains("policy_engine"@),
        scaffold_kinds().contains("approval_notifier"@),
        scaffold_kinds().contains("credential_issuer"@),
        scaffold_kinds().contains("catalog_provider"@),
        scaffold_kinds().contains("cluster"@),
        scaffold_kinds().contains("transport"@),
        scaffold_kinds().contains("http_route"@),
        scaffold_kinds().contains("watch_strategy"@),
        scaffold_kinds().contains("content_store"@),
        scaffold_kinds().len() == 21,
{
    assert(scaffold_kinds()[0] == "tool_gate"@);
    assert(scaffold_kinds()[1] == "transform"@);
    assert(scaffold_kinds()[2] == "identity"@);
    assert(scaffold_kinds()[3] == "backend"@);
    assert(scaffold_kinds()[4] == "audit_sink"@);
    assert(scaffold_kinds()[5] == "log_sink"@);
    assert(scaffold_kinds()[6] == "metrics_sink"@);
    assert(scaffold_kinds()[7] == "telemetry_sink"@);
    assert(scaffold_kinds()[8] == "secret_provider"@);
    assert(scaffold_kinds()[9] == "config_provider"@);
    assert(scaffold_kinds()[10] == "store"@);
    assert(scaffold_kinds()[11] == "cache"@);
    assert(scaffold_kinds()[12] == "policy_engine"@);
    assert(scaffold_kinds()[13] == "approval_notifier"@);
    assert(scaffold_kinds()[14] == "credential_issuer"@);
    assert(scaffold_kinds()[15] == "catalog_provider"@);
    assert(scaffold_kinds()[16] == "cluster"@);
    assert(scaffold_kinds()[17] == "transport"@);
    assert(scaffold_kinds()[18] == "http_route"@);
    assert(scaffold_kinds()[19] == "watch_strategy"@);
    assert(scaffold_kinds()[20] == "content_store"@);
}

/// The texts of a sequence of string slices.
pub open spec fn str_texts(v: Seq<&str>) -> Seq<Seq<char>> {
    v.map_values(|s: &str| s@)
}

/// The supported kinds.
pub fn scaffold_kind_list() -> (r: Vec<&'static str>)
    ensures
        str_texts(r@) == scaffold_kinds(),
{
    let v = vec![
        "tool_gate",
        "transform",
        "identity",
        "backend",
        "audit_sink",
        "log_sink",
        "metrics_sink",
        "telemetry_sink",
        "secret_provider",
        "config_provider",
        "store",
        "cache",
        "policy_engine",
        "approval_notifier",
        "credential_issuer",
        "catalog_provider",
        "cluster",
        "transport",
        "http_route",
        "watch_strategy",
        "content_store",
    ];
    assert(str_texts(v@) =~= scaffold_kinds());
    v
}

/// `items` joined with `sep` between consecutive items.
pub open spec fn joined(items: Seq<Seq<char>>, sep: Seq<char>) -> Seq<char>
    decreases items.len(),
{
    if items.len() == 0 {
        Seq::empty()
    } else if items.len() == 1 {
        items[0]
    } else {
        joined(items.drop_last(), sep) + sep + items.last()
    }
}

/// `items.join(sep)`.
pub fn join_strs(items: &Vec<&str>, sep: &str) -> (r: String)
    ensures
        r@ == joined(str_texts(items@), sep@),
{
    let ghost all = str_texts(items@);
    let mut out = String::new();
    let mut i: usize = 0;
    while i < items.len()
        invariant
            all == str_texts(items@),
            i <= items.len(),
            out@ == joined(all.take(i as int), sep@),
        decreases items.len() - i,
    {
        let ghost before = all.take(i as int);
        assert(all.take(i + 1).drop_last() =~= before);
        if i > 0 {
            out.append(sep);
        } else {
            assert(before =~= Seq::<Seq<char>>::empty());
        }
        out.append(items[i]);
        i = i + 1;
    }
    assert(all.take(items.len() as int) =~= all);
    out
}

/// The supported kinds, comma-separated.
pub open spec fn kinds_text() -> Seq<char> {
    joined(scaffold_kinds(), ", "@)
}

/// Whether `kind` is one of the supported kinds.
pub fn is_scaffold_kind(kind: &str) -> (r: bool)
    ensures
        r == scaffold_kinds().contains(kind@),
{
    let kinds = scaffold_kind_list();
    let mut i: usize = 0;
    while i < kinds.len()
        invariant
            str_texts(kinds@) == scaffold_kinds(),
            i <= kinds.len(),
            forall|k: int| 0 <= k < i ==> scaffold_kinds()[k] != kind@,
        decreases kinds.len() - i,
    {
        assert(str_texts(kinds@)[i as int] == kinds@[i as int]@);
        if same_text(kinds[i], kind) {
            assert(scaffold_kinds()[i as int] == kind@);
            return true;
        }
        i = i + 1;
    }
    false
}

// ---------------------------------------------------------------------------
// The `new` command line
// ---------------------------------------------------------------------------

/// The flags of `new` read so far.
pub struct NewFlags {
    pub kind: Option<Seq<char>>,
    pub name: Option<Seq<char>>,
    pub id: Option<Seq<char>>,
    pub out: Option<Seq<char>>,
}

/// Reads `args[i..]`: `--kind`, `--name`, `--id` and `--out`, each with a
/// value; a later flag overrides an earlier one.
pub open spec fn scan_new(args: Seq<Seq<char>>, i: int, f: NewFlags) -> Result<NewFlags, Seq<char>>
    decreases args.len() - i,
{
    if i >= args.len() || i < 0 {
        Ok(f)
    } else if args[i] == "--kind"@ {
        if i + 1 < args.len() {
            scan_new(args, i + 2, NewFlags { kind: Some(args[i + 1]), ..f })
        } else {
            Err("--kind requires a value"@)
        }
    } else if args[i] == "--name"@ {
        if i + 1 < args.len() {
            scan_new(args, i + 2, NewFlags { name: Some(args[i + 1]), ..f })
        } else {
            Err("--name requires a value"@)
        }
    } else if args[i] == "--id"@ {
        if i + 1 < args.len() {
            scan_new(args, i + 2, NewFlags { id: Some(args[i + 1]), ..f })
        } else {
            Err("--id requires a value"@)
        }
    } else if args[i] == "--out"@ {
        if i + 1 < args.len() {
            scan_new(args, i + 2, NewFlags { out: Some(args[i + 1]), ..f })
        } else {
            Err("--out requires a path"@)
        }
    } else {
        Err("unknown flag: "@ + args[i])
    }
}

/// A scaffold to write.
#[derive(Debug)]
pub struct NewPlan {
    pub kind: String,
    pub name: String,
    /// `--id`, or `dev.example.<kind>.<name>`.
    pub plugin_id: String,
    /// `mcpg-plugin-<kind with - for _>-<name>`.
    pub crate_name: String,
    /// `--out`, or the crate name.
    pub dir: String,
}

pub struct NewPlanView {
    pub kind: Seq<char>,
    pub name: Seq<char>,
    pub plugin_id: Seq<char>,
    pub crate_name: Seq<char>,
    pub dir: Seq<char>,
}

impl View for NewPlan {
    type V = NewPlanView;

    open spec fn view(&self) -> NewPlanView {
        NewPlanView {
            kind: self.kind@,
            name: self.name@,
            plugin_id: self.plugin_id@,
            crate_name: self.crate_name@,
            dir: self.dir@,
        }
    }
}

/// The default plugin id.
pub open spec fn default_plugin_id(kind: Seq<char>, name: Seq<char>) -> Seq<char> {
    "dev.example."@ + kind + "."@ + name
}

/// The crate name of a scaffold.
pub open spec fn crate_name_of(kind: Seq<char>, name: Seq<char>) -> Seq<char> {
    "mcpg-plugin-"@ + replace_char(kind, '_', '-') + "-"@ + name
}

/// What `plan_new` gives: an error for no arguments, `None` (print the
/// usage) when the first argument asks for help, else the scaffold.
pub open spec fn new_plan_of(args: Seq<Seq<char>>) -> Result<Option<NewPlanView>, Seq<char>> {
    if args.len() == 0 {
        Err("missing arguments — see usage above"@)
    } else if args[0] == "--help"@ || args[0] == "-h"@ || args[0] == "help"@ {
        Ok(None)
    } else {
        match scan_new(args, 0, NewFlags { kind: None, name: None, id: None, out: None }) {
            Err(m) => Err(m),
            Ok(f) => match (f.kind, f.name) {
                (None, _) => Err("--kind is required"@),
                (Some(_), None) => Err("--name is required"@),
                (Some(kind), Some(name)) => if !scaffold_kinds().contains(kind) {
                    Err("unknown kind '"@ + kind + "'. Supported: "@ + kinds_text())
                } else {
                    let crate_name = crate_name_of(kind, name);
                    Ok(
                        Some(
                            NewPlanView {
                                kind,
                                name,
                                plugin_id: match f.id {
                                    Some(id) => id,
                                    None => default_plugin_id(kind, name),
                                },
                                crate_name,
                                dir: match f.out {
                                    Some(d) => d,
                                    None => crate_name,
                                },
                            },
                        ),
                    )
                },
            },
        }
    }
}

/// The value after flag `i`.
fn flag_value(args: &[String], i: usize) -> (r: String)
    requires
        i + 1 < args.len(),
    ensures
        r@ == texts(args@)[i + 1],
{
    args[i + 1].clone()
}

/// Parses the `new` command line into the scaffold to write.
pub fn plan_new(args: &[String]) -> (r: Result<Option<NewPlan>, CliError>)
    ensures
        crate::pack::outcome_opt(r) == new_plan_of(texts(args@)),
{
    let ghost a = texts(args@);
    if args.len() == 0 {
        return Err(fail_with("missing arguments — see usage above"));
    }
    if arg_is(args, 0, "--help") || arg_is(args, 0, "-h") || arg_is(args, 0, "help") {
        return Ok(None);
    }
    let mut kind: Option<String> = None;
    let mut name: Option<String> = None;
    let mut id: Option<String> = None;
    let mut out: Option<String> = None;
    let mut i: usize = 0;
    while i < args.len()
        invariant
            a == texts(args@),
            i <= args@.len(),
            a.len() > 0,
            !(a[0] == "--help"@ || a[0] == "-h"@ || a[0] == "help"@),
            scan_new(a, 0, NewFlags { kind: None, name: None, id: None, out: None }) == scan_new(
                a,
                i as int,
                NewFlags {
                    kind: opt_text(kind),
                    name: opt_text(name),
                    id: opt_text(id),
                    out: opt_text(out),
                },
            ),
        decreases args.len() - i,
    {
        if arg_is(args, i, "--kind") {
            if i + 1 >= args.len() {
                return Err(fail_with("--kind requires a value"));
            }
            kind = Some(flag_value(args, i));
        } else if arg_is(args, i, "--name") {
            if i + 1 >= args.len() {
                return Err(fail_with("--name requires a value"));
            }
            name = Some(flag_value(args, i));
        } else if arg_is(args, i, "--id") {
            if i + 1 >= args.len() {
                return Err(fail_with("--id requires a value"));
            }
            id = Some(flag_value(args, i));
        } else if arg_is(args, i, "--out") {
            if i + 1 >= args.len() {
                return Err(fail_with("--out requires a path"));
            }
            out = Some(flag_value(args, i));
        } else {
            let mut m = String::from_str("unknown flag: ");
            m.append(args[i].as_str());
            return Err(fail(m));
        }
        i = i + 2;
    }
    let kind = match kind {
        Some(k) => k,
        None => {
            return Err(fail_with("--kind is required"));
        },
    };
    let name = match name {
        Some(n) => n,
        None => {
            return Err(fail_with("--name is required"));
        },
    };
    if !is_scaffold_kind(kind.as_str()) {
        let kinds = scaffold_kind_list();
        let mut m = String::from_str("unknown kind '");
        m.append(kind.as_str());
        m.append("'. Supported: ");
        let listed = join_strs(&kinds, ", ");
        m.append(listed.as_str());
        return Err(fail(m));
    }
    let plugin_id = match id {
        Some(x) => x,
        None => {
            let mut p = String::from_str("dev.example.");
            p.append(kind.as_str());
            p.append(".");
            p.append(name.as_str());
            p
        },
    };
    let mut crate_name = String::from_str("mcpg-plugin-");
    let dashed = replace_chars(kind.as_str(), '_', '-');
    crate_name.append(dashed.as_str());
    crate_name.append("-");
    crate_name.append(name.as_str());
    let dir = match out {
        Some(d) => d,
        None => crate_name.clone(),
    };
    Ok(Some(NewPlan { kind, name, plugin_id, crate_name, dir }))
}

/// The files of a scaffold, `(path, contents)`, in the order they are written.
pub open spec fn scaffold_files_of(p: NewPlanView) -> Seq<(Seq<char>, Seq<char>)> {
    seq![
        (path_join_of(p.dir, "Cargo.toml"@), cargo_toml_text(p.crate_name)),
        (path_join_of(p.dir, "plugin.yaml"@), plugin_yaml_text(p.plugin_id, p.kind)),
        (path_join_of(path_join_of(p.dir, "src"@), "lib.rs"@), lib_rs_text(p.kind, p.name, p.plugin_id)),
        (path_join_of(p.dir, "README.md"@), readme_text(p.crate_name, p.kind, p.plugin_id)),
    ]
}

/// The path and contents of each file of the scaffold.
pub fn scaffold_files(p: &NewPlan) -> (r: Vec<(String, String)>)
    ensures
        r@.map_values(|f: (String, String)| (f.0@, f.1@)) == scaffold_files_of(p@),
{
    let src = path_join(p.dir.as_str(), "src");
    let mut v: Vec<(String, String)> = Vec::new();
    v.push(
        (
            path_join(p.dir.as_str(), "Cargo.toml"),
            render_cargo_toml(p.crate_name.as_str(), p.kind.as_str()),
        ),
    );
    v.push(
        (
            path_join(p.dir.as_str(), "plugin.yaml"),
            render_plugin_yaml(p.plugin_id.as_str(), p.kind.as_str(), p.name.as_str()),
        ),
    );
    v.push(
        (
            path_join(src.as_str(), "lib.rs"),
            render_lib_rs(p.kind.as_str(), p.name.as_str(), p.plugin_id.as_str()),
        ),
    );
    v.push(
        (
            path_join(p.dir.as_str(), "README.md"),
            render_readme(p.crate_name.as_str(), p.kind.as_str(), p.name.as_str(), p.plugin_id.as_str()),
        ),
    );
    assert(v@.map_values(|f: (String, String)| (f.0@, f.1@)) =~= scaffold_files_of(p@));
    v
}

} // verus!
