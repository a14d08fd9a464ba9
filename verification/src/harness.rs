//! `test`: the command line of the mock-gateway harness, the trust it
//! loads the plugin with, and the request context it hands the plugin.
use vstd::prelude::*;

use crate::cli::{arg_is, fail, fail_with, opt_text, texts, CliError};
use crate::gc::{lemma_seq_lt_irreflexive, lemma_seq_lt_total, lemma_seq_lt_transitive, seq_lt, text_less};
use crate::text::{chars_of, copy_bytes, decimal, push_decimal, same_text};

verus! {

// ---------------------------------------------------------------------------
// The `test` command line
// ---------------------------------------------------------------------------

/// A parsed `test` command line.
#[derive(Debug)]
pub struct TestArgs {
    pub archive: String,
    /// Replaces the packaged `plugin.yaml`.
    pub descriptor: Option<String>,
    /// The `PluginContext` file (JSON or YAML).
    pub context: Option<String>,
    /// The tool/transform arguments (JSON).
    pub arguments: Option<String>,
    /// The operator config (JSON).
    pub config: Option<String>,
    /// The trusted Ed25519 public key file.
    pub key: Option<String>,
}

pub struct TestArgsView {
    pub archive: Seq<char>,
    pub descriptor: Option<Seq<char>>,
    pub context: Option<Seq<char>>,
    pub arguments: Option<Seq<char>>,
    pub config: Option<Seq<char>>,
    pub key: Option<Seq<char>>,
}

impl View for TestArgs {
    type V = TestArgsView;

    open spec fn view(&self) -> TestArgsView {
        TestArgsView {
            archive: self.archive@,
            descriptor: opt_text(self.descriptor),
            context: opt_text(self.context),
            arguments: opt_text(self.arguments),
            config: opt_text(self.config),
            key: opt_text(self.key),
        }
    }
}

/// Which option a flag of `test` sets: 0 `--descriptor`, 1 `--context`,
/// 2 `--arguments`, 3 `--config`, 4 `--key`; -1 for anything else.
pub open spec fn test_slot(a: Seq<char>) -> int {
    if a == "--descriptor"@ {
        0
    } else if a == "--context"@ {
        1
    } else if a == "--arguments"@ {
        2
    } else if a == "--config"@ {
        3
    } else if a == "--key"@ {
        4
    } else {
        -1
    }
}

/// The error for a flag of `test` given without its path.
pub open spec fn test_missing(slot: int) -> Seq<char> {
    if slot == 0 {
        "--descriptor requires a path"@
    } else if slot == 1 {
        "--context requires a path"@
    } else if slot == 2 {
        "--arguments requires a path"@
    } else if slot == 3 {
        "--config requires a path"@
    } else {
        "--key requires a path"@
    }
}

/// Reads the flags `args[i..]` of `test`, each with a path; a later flag
/// overrides an earlier one.
pub open spec fn scan_test(args: Seq<Seq<char>>, i: int, t: TestArgsView) -> Result<TestArgsView, Seq<char>>
    decreases args.len() - i,
{
    if i >= args.len() || i < 0 {
        Ok(t)
    } else {
        let slot = test_slot(args[i]);
        if slot < 0 {
            Err("unknown flag: "@ + args[i])
        } else if i + 1 >= args.len() {
            Err(test_missing(slot))
        } else {
            let v = Some(args[i + 1]);
            scan_test(
                args,
                i + 2,
                if slot == 0 {
                    TestArgsView { descriptor: v, ..t }
                } else if slot == 1 {
                    TestArgsView { context: v, ..t }
                } else if slot == 2 {
                    TestArgsView { arguments: v, ..t }
                } else if slot == 3 {
                    TestArgsView { config: v, ..t }
                } else {
                    TestArgsView { key: v, ..t }
                },
            )
        }
    }
}

/// What `parse_test_args` gives: an error for no arguments, `None` (print
/// the usage) when the first argument asks for help, else the archive
/// (the first argument) and the flags after it.
pub open spec fn test_args_of(args: Seq<Seq<char>>) -> Result<Option<TestArgsView>, Seq<char>> {
    if args.len() == 0 {
        Err("missing <archive.zip>"@)
    } else if args[0] == "--help"@ || args[0] == "-h"@ || args[0] == "help"@ {
        Ok(None)
    } else {
        match scan_test(
            args,
            1,
            TestArgsView {
                archive: args[0],
                descriptor: None,
                context: None,
                arguments: None,
                config: None,
                key: None,
            },
        ) {
            Ok(t) => Ok(Some(t)),
            Err(m) => Err(m),
        }
    }
}

fn test_slot_exec(args: &[String], i: usize) -> (r: i64)
    requires
        i < args@.len(),
    ensures
        r == test_slot(texts(args@)[i as int]),
{
    if arg_is(args, i, "--descriptor") {
        0
    } else if arg_is(args, i, "--context") {
        1
    } else if arg_is(args, i, "--arguments") {
        2
    } else if arg_is(args, i, "--config") {
        3
    } else if arg_is(args, i, "--key") {
        4
    } else {
        -1
    }
}

/// Parses the `test` command line.
pub fn parse_test_args(args: &[String]) -> (r: Result<Option<TestArgs>, CliError>)
    ensures
        crate::pack::outcome_opt(r) == test_args_of(texts(args@)),
{
    let ghost a = texts(args@);
    if args.len() == 0 {
        return Err(fail_with("missing <archive.zip>"));
    }
    if arg_is(args, 0, "--help") || arg_is(args, 0, "-h") || arg_is(args, 0, "help") {
        return Ok(None);
    }
    let mut t = TestArgs {
        archive: args[0].clone(),
        descriptor: None,
        context: None,
        arguments: None,
        config: None,
        key: None,
    };
    let mut i: usize = 1;
    while i < args.len()
        invariant
            a == texts(args@),
            1 <= i <= args@.len(),
            !(a[0] == "--help"@ || a[0] == "-h"@ || a[0] == "help"@),
            scan_test(
                a,
                1,
                TestArgsView {
                    archive: a[0],
                    descriptor: None,
                    context: None,
                    arguments: None,
                    config: None,
                    key: None,
                },
            ) == scan_test(a, i as int, t@),
        decreases args.len() - i,
    {
        let slot = test_slot_exec(args, i);
        if slot < 0 {
            let mut m = String::from_str("unknown flag: ");
            m.append(args[i].as_str());
            return Err(fail(m));
        }
        if i + 1 >= args.len() {
            return Err(
                fail_with(
                    if slot == 0 {
                        "--descriptor requires a path"
                    } else if slot == 1 {
                        "--context requires a path"
                    } else if slot == 2 {
                        "--arguments requires a path"
                    } else if slot == 3 {
                        "--config requires a path"
                    } else {
                        "--key requires a path"
                    },
                ),
            );
        }
        let v = Some(args[i + 1].clone());
        if slot == 0 {
            t.descriptor = v;
        } else if slot == 1 {
            t.context = v;
        } else if slot == 2 {
            t.arguments = v;
        } else if slot == 3 {
            t.config = v;
        } else {
            t.key = v;
        }
        i = i + 2;
    }
    Ok(Some(t))
}

// ---------------------------------------------------------------------------
// Trust
// ---------------------------------------------------------------------------

/// How the harness verifies the plugin's signature.
#[derive(Debug)]
pub struct TestTrust {
    /// The one trusted public key (signatures enforced), or `None`
    /// (signature checks disabled).
    pub trusted_key: Option<Vec<u8>>,
    /// The `trust:` line of the report.
    pub banner: String,
}

pub struct TestTrustView {
    pub trusted_key: Option<Seq<u8>>,
    pub banner: Seq<char>,
}

impl View for TestTrust {
    type V = TestTrustView;

    open spec fn view(&self) -> TestTrustView {
        TestTrustView {
            trusted_key: match self.trusted_key {
                Some(k) => Some(k@),
                None => None,
            },
            banner: self.banner@,
        }
    }
}

/// The trust for `--key`: the path and the bytes read from it. A key must
/// be exactly 32 raw bytes.
pub open spec fn test_trust_of(key: Option<(Seq<char>, Seq<u8>)>) -> Result<TestTrustView, Seq<char>> {
    match key {
        None => Ok(
            TestTrustView {
                trusted_key: None,
                banner: "signature verification skipped (no --key)"@,
            },
        ),
        Some((path, bytes)) => if bytes.len() == 32 {
            Ok(TestTrustView { trusted_key: Some(bytes), banner: "signature verified against "@ + path })
        } else {
            Err("--key "@ + path + ": expected 32 raw bytes, got "@ + decimal(bytes.len()))
        },
    }
}

/// Decides the signature policy of the harness from the `--key` file.
pub fn test_trust(key: Option<(&str, &[u8])>) -> (r: Result<TestTrust, CliError>)
    ensures
        crate::cli::outcome(r) == test_trust_of(
            match key {
                Some((p, b)) => Some((p@, b@)),
                None => None,
            },
        ),
{
    match key {
        None => Ok(
            TestTrust {
                trusted_key: None,
                banner: String::from_str("signature verification skipped (no --key)"),
            },
        ),
        Some((path, bytes)) => {
            if bytes.len() == 32 {
                let mut banner = String::from_str("signature verified against ");
                banner.append(path);
                Ok(TestTrust { trusted_key: Some(copy_bytes(bytes)), banner })
            } else {
                let mut m = String::from_str("--key ");
                m.append(path);
                m.append(": expected 32 raw bytes, got ");
                push_decimal(&mut m, bytes.len() as u64);
                Err(fail(m))
            }
        },
    }
}

// ---------------------------------------------------------------------------
// The request context
// ---------------------------------------------------------------------------

/// Who is calling, as the plugin sees it.
#[derive(Debug)]
pub struct PluginIdentity {
    pub kind: String,
    pub trust_level: String,
    pub subject_id: Option<String>,
    pub auth_provider: Option<String>,
    pub issuer: Option<String>,
    pub roles: Vec<String>,
    pub groups: Vec<String>,
    pub scopes: Vec<String>,
    /// `(name, value)` pairs, sorted by name, each name once.
    pub attributes: Vec<(String, String)>,
}

/// The request a plugin is invoked for.
#[derive(Debug)]
pub struct PluginContext {
    pub request_id: String,
    pub session_id: Option<String>,
    pub tool_name: String,
    pub surface: String,
    pub transport: String,
    pub identity: PluginIdentity,
}

/// Attribute pairs as plain texts.
pub open spec fn pairs_view(v: Seq<(String, String)>) -> Seq<(Seq<char>, Seq<char>)> {
    v.map_values(|p: (String, String)| (p.0@, p.1@))
}

/// Names strictly increasing: sorted, each name once.
pub open spec fn sorted_names(s: Seq<(Seq<char>, Seq<char>)>) -> bool {
    forall|i: int, j: int| 0 <= i < j < s.len() ==> seq_lt(#[trigger] s[i].0, #[trigger] s[j].0)
}

/// The attributes after setting `name` to `value`: an existing pair for
/// `name` has its value replaced; otherwise the pair is placed before the
/// first larger name.
pub open spec fn set_attribute(s: Seq<(Seq<char>, Seq<char>)>, name: Seq<char>, value: Seq<char>) -> Seq<
    (Seq<char>, Seq<char>),
>
    decreases s.len(),
{
    if s.len() == 0 {
        seq![(name, value)]
    } else if s[0].0 == name {
        seq![(name, value)] + s.drop_first()
    } else if seq_lt(name, s[0].0) {
        seq![(name, value)] + s
    } else {
        seq![s[0]] + set_attribute(s.drop_first(), name, value)
    }
}

/// The value of the first pair named `name`.
pub open spec fn attribute_of(s: Seq<(Seq<char>, Seq<char>)>, name: Seq<char>) -> Option<Seq<char>>
    decreases s.len(),
{
    if s.len() == 0 {
        None
    } else if s[0].0 == name {
        Some(s[0].1)
    } else {
        attribute_of(s.drop_first(), name)
    }
}

proof fn lemma_set_attribute_names(s: Seq<(Seq<char>, Seq<char>)>, name: Seq<char>, value: Seq<char>)
    ensures
        forall|i: int|
            0 <= i < set_attribute(s, name, value).len() ==> (#[trigger] set_attribute(s, name, value)[i]).0
                == name || exists|j: int| 0 <= j < s.len() && s[j].0 == set_attribute(s, name, value)[i].0,
    decreases s.len(),
{
    if s.len() > 0 && s[0].0 != name && !seq_lt(name, s[0].0) {
        let rest = set_attribute(s.drop_first(), name, value);
        lemma_set_attribute_names(s.drop_first(), name, value);
        assert forall|i: int| 0 <= i < set_attribute(s, name, value).len() implies (#[trigger] set_attribute(
            s,
            name,
            value,
        )[i]).0 == name || exists|j: int| 0 <= j < s.len() && s[j].0 == set_attribute(s, name, value)[i].0 by {
            if i == 0 {
                assert(s[0].0 == set_attribute(s, name, value)[0].0);
            } else {
                assert(set_attribute(s, name, value)[i] == rest[i - 1]);
                if rest[i - 1].0 != name {
                    let j = choose|j: int|
                        0 <= j < s.drop_first().len() && s.drop_first()[j].0 == rest[i - 1].0;
                    assert(s[j + 1].0 == rest[i - 1].0);
                }
            }
        }
    } else if s.len() > 0 {
        assert forall|i: int| 0 <= i < set_attribute(s, name, value).len() implies (#[trigger] set_attribute(
            s,
            name,
            value,
        )[i]).0 == name || exists|j: int| 0 <= j < s.len() && s[j].0 == set_attribute(s, name, value)[i].0 by {
            if i > 0 {
                if s[0].0 == name {
                    assert(s[i].0 == set_attribute(s, name, value)[i].0);
                } else {
                    assert(s[i - 1].0 == set_attribute(s, name, value)[i].0);
                }
            }
        }
    }
}

/// Setting an attribute keeps the names sorted and unique.
pub proof fn lemma_set_attribute_sorted(s: Seq<(Seq<char>, Seq<char>)>, name: Seq<char>, value: Seq<char>)
    requires
        sorted_names(s),
    ensures
        sorted_names(set_attribute(s, name, value)),
    decreases s.len(),
{
    let r = set_attribute(s, name, value);
    if s.len() == 0 {
    } else if s[0].0 == name {
        assert forall|i: int, j: int| 0 <= i < j < r.len() implies seq_lt(#[trigger] r[i].0, #[trigger] r[j].0) by {
            assert(s[i].0 == r[i].0 || i == 0);
            assert(s[j].0 == r[j].0);
        }
    } else if seq_lt(name, s[0].0) {
        assert forall|i: int, j: int| 0 <= i < j < r.len() implies seq_lt(#[trigger] r[i].0, #[trigger] r[j].0) by {
            assert(r[j] == s[j - 1]);
            if i == 0 {
                if j > 1 {
                    assert(seq_lt(s[0].0, s[j - 1].0));
                    lemma_seq_lt_transitive(name, s[0].0, s[j - 1].0);
                }
            } else {
                assert(r[i] == s[i - 1]);
            }
        }
    } else {
        let t = s.drop_first();
        assert(sorted_names(t)) by {
            assert forall|i: int, j: int| 0 <= i < j < t.len() implies seq_lt(#[trigger] t[i].0, #[trigger] t[j].0) by {
                assert(t[i] == s[i + 1] && t[j] == s[j + 1]);
            }
        }
        lemma_set_attribute_sorted(t, name, value);
        lemma_set_attribute_names(t, name, value);
        lemma_seq_lt_total(name, s[0].0);
        let rt = set_attribute(t, name, value);
        assert forall|i: int, j: int| 0 <= i < j < r.len() implies seq_lt(#[trigger] r[i].0, #[trigger] r[j].0) by {
            assert(r[j] == rt[j - 1]);
            if i == 0 {
                assert(r[0] == s[0]);
                if rt[j - 1].0 == name {
                } else {
                    let k = choose|k: int| 0 <= k < t.len() && t[k].0 == rt[j - 1].0;
                    assert(t[k] == s[k + 1]);
                    assert(seq_lt(s[0].0, s[k + 1].0));
                }
            } else {
                assert(r[i] == rt[i - 1]);
            }
        }
    }
}

/// Reading an attribute back after setting one: the name just set gives
/// the value just set; every other name gives what it gave before.
pub proof fn lemma_set_attribute_lookup(
    s: Seq<(Seq<char>, Seq<char>)>,
    name: Seq<char>,
    value: Seq<char>,
    other: Seq<char>,
)
    requires
        sorted_names(s),
    ensures
        attribute_of(set_attribute(s, name, value), name) == Some(value),
        other != name ==> attribute_of(set_attribute(s, name, value), other) == attribute_of(s, other),
    decreases s.len(),
{
    if s.len() == 0 {
    } else if s[0].0 == name {
        let r = set_attribute(s, name, value);
        assert(r.drop_first() =~= s.drop_first());
    } else if seq_lt(name, s[0].0) {
        let r = set_attribute(s, name, value);
        assert(r.drop_first() =~= s);
    } else {
        let t = s.drop_first();
        assert(sorted_names(t)) by {
            assert forall|i: int, j: int| 0 <= i < j < t.len() implies seq_lt(#[trigger] t[i].0, #[trigger] t[j].0) by {
                assert(t[i] == s[i + 1] && t[j] == s[j + 1]);
            }
        }
        lemma_set_attribute_lookup(t, name, value, other);
        let r = set_attribute(s, name, value);
        assert(r.drop_first() =~= set_attribute(t, name, value));
    }
}

/// Where `set_attribute` puts `name`: at `i`, the first position whose
/// name does not sort before `name`.
proof fn lemma_set_attribute_at(s: Seq<(Seq<char>, Seq<char>)>, name: Seq<char>, value: Seq<char>, i: int)
    requires
        0 <= i <= s.len(),
        forall|k: int| 0 <= k < i ==> seq_lt(#[trigger] s[k].0, name),
        i < s.len() ==> !seq_lt(s[i].0, name),
    ensures
        set_attribute(s, name, value) == if i < s.len() && s[i].0 == name {
            s.update(i, (name, value))
        } else {
            s.insert(i, (name, value))
        },
    decreases i,
{
    if i == 0 {
        if s.len() > 0 && s[0].0 != name {
            lemma_seq_lt_total(name, s[0].0);
            assert(seq_lt(name, s[0].0));
            assert(seq![(name, value)] + s =~= s.insert(0, (name, value)));
        } else if s.len() > 0 {
            assert(seq![(name, value)] + s.drop_first() =~= s.update(0, (name, value)));
        } else {
            assert(seq![(name, value)] =~= s.insert(0, (name, value)));
        }
    } else {
        let t = s.drop_first();
        assert(seq_lt(s[0].0, name));
        lemma_seq_lt_irreflexive(name);
        if seq_lt(name, s[0].0) {
            crate::gc::lemma_seq_lt_asymmetric(name, s[0].0);
        }
        assert forall|k: int| 0 <= k < i - 1 implies seq_lt(#[trigger] t[k].0, name) by {
            assert(t[k] == s[k + 1]);
        }
        lemma_set_attribute_at(t, name, value, i - 1);
        if i < s.len() && s[i].0 == name {
            assert(seq![s[0]] + t.update(i - 1, (name, value)) =~= s.update(i, (name, value)));
        } else {
            assert(seq![s[0]] + t.insert(i - 1, (name, value)) =~= s.insert(i, (name, value)));
        }
    }
}

impl PluginIdentity {
    /// Names sorted, each once.
    pub open spec fn well_formed(&self) -> bool {
        sorted_names(pairs_view(self.attributes@))
    }

    /// `attributes.insert(name, value)`: sets the attribute, keeping the
    /// names sorted and unique.
    pub fn insert_attribute(&mut self, name: String, value: String)
        requires
            old(self).well_formed(),
        ensures
            final(self).well_formed(),
            pairs_view(final(self).attributes@) == set_attribute(
                pairs_view(old(self).attributes@),
                name@,
                value@,
            ),
            final(self).kind == old(self).kind,
            final(self).trust_level == old(self).trust_level,
            final(self).subject_id == old(self).subject_id,
            final(self).auth_provider == old(self).auth_provider,
            final(self).issuer == old(self).issuer,
            final(self).roles == old(self).roles,
            final(self).groups == old(self).groups,
            final(self).scopes == old(self).scopes,
    {
        let ghost s = pairs_view(self.attributes@);
        let key = chars_of(name.as_str());
        let mut i: usize = 0;
        while i < self.attributes.len()
            invariant_except_break
                s == pairs_view(self.attributes@),
                key@ == name@,
                i <= self.attributes.len(),
                forall|k: int| 0 <= k < i ==> seq_lt(#[trigger] s[k].0, name@),
            ensures
                s == pairs_view(self.attributes@),
                i <= self.attributes.len(),
                forall|k: int| 0 <= k < i ==> seq_lt(#[trigger] s[k].0, name@),
                i < self.attributes.len() ==> !seq_lt(s[i as int].0, name@),
            decreases self.attributes.len() - i,
        {
            let here = chars_of(self.attributes[i].0.as_str());
            assert(s[i as int].0 == here@);
            if !text_less(&here, &key) {
                break;
            }
            i = i + 1;
        }
        proof {
            lemma_set_attribute_at(s, name@, value@, i as int);
            lemma_set_attribute_sorted(s, name@, value@);
        }
        if i < self.attributes.len() && same_text(self.attributes[i].0.as_str(), name.as_str()) {
            self.attributes.set(i, (name, value));
            assert(pairs_view(self.attributes@) =~= s.update(i as int, (name@, value@)));
        } else {
            self.attributes.insert(i, (name, value));
            assert(pairs_view(self.attributes@) =~= s.insert(i as int, (name@, value@)));
        }
    }
}

/// The harness's default caller: one verified tester.
pub fn default_context() -> (ctx: PluginContext)
    ensures
        ctx.request_id@ == "mcpg-plugin-test"@,
        ctx.session_id is None,
        ctx.tool_name@ == "test.tool"@,
        ctx.surface@ == "tool"@,
        ctx.transport@ == "http"@,
        ctx.identity.kind@ == "verified"@,
        ctx.identity.trust_level@ == "verified"@,
        opt_text(ctx.identity.subject_id) == Some("tester@example.com"@),
        opt_text(ctx.identity.auth_provider) == Some("mcpg-plugin-test"@),
        ctx.identity.issuer is None,
        ctx.identity.roles@.len() == 0,
        ctx.identity.groups@.len() == 0,
        ctx.identity.scopes@.len() == 0,
        ctx.identity.attributes@.len() == 0,
        ctx.identity.well_formed(),
{
    PluginContext {
        request_id: String::from_str("mcpg-plugin-test"),
        session_id: None,
        tool_name: String::from_str("test.tool"),
        surface: String::from_str("tool"),
        transport: String::from_str("http"),
        identity: PluginIdentity {
            kind: String::from_str("verified"),
            trust_level: String::from_str("verified"),
            subject_id: Some(String::from_str("tester@example.com")),
            auth_provider: Some(String::from_str("mcpg-plugin-test")),
            issuer: None,
            roles: Vec::new(),
            groups: Vec::new(),
            scopes: Vec::new(),
            attributes: Vec::new(),
        },
    }
}

/// The headers an identity resolver is shown: the subject and the auth
/// provider when known, then one `X-Mcpg-Attr-<name>` per attribute, in
/// attribute order.
pub open spec fn headers_of(
    subject_id: Option<Seq<char>>,
    auth_provider: Option<Seq<char>>,
    attributes: Seq<(Seq<char>, Seq<char>)>,
) -> Seq<(Seq<char>, Seq<char>)> {
    (match subject_id {
        Some(s) => seq![("X-Mcpg-Test-Subject"@, s)],
        None => Seq::empty(),
    }) + (match auth_provider {
        Some(a) => seq![("X-Mcpg-Test-AuthProvider"@, a)],
        None => Seq::empty(),
    }) + attributes.map_values(|p: (Seq<char>, Seq<char>)| ("X-Mcpg-Attr-"@ + p.0, p.1))
}

/// The headers carry the identity's own values: the subject id under
/// `X-Mcpg-Test-Subject`, the auth provider under
/// `X-Mcpg-Test-AuthProvider`, and each attribute `(k, v)` as
/// `X-Mcpg-Attr-<k>` with value `v`; there is one header per value given.
pub proof fn lemma_headers_carry_identity(
    subject_id: Option<Seq<char>>,
    auth_provider: Option<Seq<char>>,
    attributes: Seq<(Seq<char>, Seq<char>)>,
)
    ensures
        subject_id matches Some(s) ==> headers_of(subject_id, auth_provider, attributes).contains(
            ("X-Mcpg-Test-Subject"@, s),
        ),
        auth_provider matches Some(a) ==> headers_of(subject_id, auth_provider, attributes).contains(
            ("X-Mcpg-Test-AuthProvider"@, a),
        ),
        forall|k: int|
            0 <= k < attributes.len() ==> headers_of(subject_id, auth_provider, attributes).contains(
                ("X-Mcpg-Attr-"@ + #[trigger] attributes[k].0, attributes[k].1),
            ),
        headers_of(subject_id, auth_provider, attributes).len() == (if subject_id is Some {
            1int
        } else {
            0
        }) + (if auth_provider is Some {
            1int
        } else {
            0
        }) + attributes.len(),
{
    let h = headers_of(subject_id, auth_provider, attributes);
    let a = match subject_id {
        Some(s) => seq![("X-Mcpg-Test-Subject"@, s)],
        None => Seq::<(Seq<char>, Seq<char>)>::empty(),
    };
    let b = match auth_provider {
        Some(x) => seq![("X-Mcpg-Test-AuthProvider"@, x)],
        None => Seq::<(Seq<char>, Seq<char>)>::empty(),
    };
    let m = attributes.map_values(|p: (Seq<char>, Seq<char>)| ("X-Mcpg-Attr-"@ + p.0, p.1));
    assert(h == a + b + m);
    if subject_id is Some {
        assert(h[0] == a[0]);
    }
    if auth_provider is Some {
        assert(h[a.len() as int] == b[0]);
    }
    assert forall|k: int| 0 <= k < attributes.len() implies h.contains(
        ("X-Mcpg-Attr-"@ + #[trigger] attributes[k].0, attributes[k].1),
    ) by {
        assert(h[a.len() + b.len() + k] == m[k]);
    }
}

/// Synthesises the request headers of the mock gateway from the context.
pub fn synthesise_headers(ctx: &PluginContext) -> (r: Vec<(String, String)>)
    ensures
        pairs_view(r@) == headers_of(
            opt_text(ctx.identity.subject_id),
            opt_text(ctx.identity.auth_provider),
            pairs_view(ctx.identity.attributes@),
        ),
{
    let mut h: Vec<(String, String)> = Vec::new();
    match &ctx.identity.subject_id {
        Some(sub) => {
            h.push((String::from_str("X-Mcpg-Test-Subject"), sub.clone()));
        },
        None => {},
    }
    match &ctx.identity.auth_provider {
        Some(ap) => {
            h.push((String::from_str("X-Mcpg-Test-AuthProvider"), ap.clone()));
        },
        None => {},
    }
    let ghost head = pairs_view(h@);
    let ghost attrs = pairs_view(ctx.identity.attributes@);
    let ghost mapped = attrs.map_values(|p: (Seq<char>, Seq<char>)| ("X-Mcpg-Attr-"@ + p.0, p.1));
    let mut i: usize = 0;
    while i < ctx.identity.attributes.len()
        invariant
            attrs == pairs_view(ctx.identity.attributes@),
            mapped == attrs.map_values(|p: (Seq<char>, Seq<char>)| ("X-Mcpg-Attr-"@ + p.0, p.1)),
            i <= ctx.identity.attributes.len(),
            pairs_view(h@) == head + mapped.take(i as int),
        decreases ctx.identity.attributes.len() - i,
    {
        let ghost before = pairs_view(h@);
        let mut k = String::from_str("X-Mcpg-Attr-");
        k.append(ctx.identity.attributes[i].0.as_str());
        let v = ctx.identity.attributes[i].1.clone();
        assert(attrs[i as int] == (ctx.identity.attributes@[i as int].0@, ctx.identity.attributes@[i as int].1@));
        assert(mapped[i as int] == (k@, v@));
        h.push((k, v));
        assert(pairs_view(h@) =~= before.push(mapped[i as int]));
        assert(mapped.take(i + 1) =~= mapped.take(i as int).push(mapped[i as int]));
        assert(pairs_view(h@) =~= head + mapped.take(i + 1));
        i = i + 1;
    }
    assert(mapped.take(attrs.len() as int) =~= mapped);
    h
}

// ---------------------------------------------------------------------------
// JSON inputs
// ---------------------------------------------------------------------------

#[verifier::external_type_specification]
#[verifier::external_body]
pub struct ExJsonValue(serde_json::Value);

/// Why `serde_json::from_slice` refuses `bytes` as a JSON value (the text
/// of its error), or `None` when it accepts them.
pub uninterp spec fn json_parse_error(bytes: Seq<u8>) -> Option<Seq<char>>;

/// Trusted: `serde_json::from_slice::<serde_json::Value>` either parses the
/// bytes or fails with an error whose text depends on the bytes alone;
/// which bytes it accepts is not stated beyond that name.
#[verifier::external_body]
fn parse_json(bytes: &[u8]) -> (r: Result<serde_json::Value, String>)
    ensures
        r is Ok <==> json_parse_error(bytes@) is None,
        r matches Err(e) ==> json_parse_error(bytes@) == Some(e@),
{
    serde_json::from_slice(bytes).map_err(|e| e.to_string())
}

/// The JSON value of the `--arguments` / `--config` file at `path`, whose
/// bytes are `body`; a parse failure names the file.
pub fn json_argument(path: &str, body: &[u8]) -> (r: Result<serde_json::Value, CliError>)
    ensures
        r is Ok <==> json_parse_error(body@) is None,
        r matches Err(e) ==> json_parse_error(body@) matches Some(why) && e.message@ == "parse "@ + path@
            + ": "@ + why,
{
    match parse_json(body) {
        Ok(v) => Ok(v),
        Err(why) => {
            let mut m = String::from_str("parse ");
            m.append(path);
            m.append(": ");
            m.append(why.as_str());
            Err(fail(m))
        },
    }
}

} // verus!
