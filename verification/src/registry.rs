//! `push` / `pull`: credential flags, the order in which credentials are
//! chosen, and the names derived from an OCI reference.
use vstd::prelude::*;

use crate::cli::{arg_is, fail, fail_with, opt_text, texts, CliError};
use crate::pack::outcome_opt;
use crate::text::{chars_of, has_prefix, range_is, starts_with_text, string_of_range};

verus! {

// ---------------------------------------------------------------------------
// References
// ---------------------------------------------------------------------------

/// `reference` without its `https://` or `http://` scheme.
pub open spec fn without_scheme(reference: Seq<char>) -> Seq<char> {
    if has_prefix(reference, "https://"@) {
        reference.skip(8)
    } else if has_prefix(reference, "http://"@) {
        reference.skip(7)
    } else {
        reference
    }
}

/// Everything before the first `/` of `s` (all of `s` when it has none).
pub open spec fn before_first_slash(s: Seq<char>) -> Seq<char> {
    if exists|p: int| 0 <= p < s.len() && s[p] == '/' {
        let p = choose|p: int|
            0 <= p < s.len() && s[p] == '/' && forall|q: int| 0 <= q < p ==> s[q] != '/';
        s.take(p)
    } else {
        s
    }
}

/// The registry host of an OCI reference.
pub open spec fn registry_host_of(reference: Seq<char>) -> Seq<char> {
    before_first_slash(without_scheme(reference))
}

proof fn lemma_first_slash(s: Seq<char>, w: int)
    requires
        0 <= w < s.len(),
        s[w] == '/',
    ensures
        exists|p: int| 0 <= p < s.len() && s[p] == '/' && forall|q: int| 0 <= q < p ==> s[q] != '/',
    decreases w,
{
    if exists|v: int| 0 <= v < w && s[v] == '/' {
        let v = choose|v: int| 0 <= v < w && s[v] == '/';
        lemma_first_slash(s, v);
    } else {
        assert(forall|q: int| 0 <= q < w ==> s[q] != '/');
    }
}

/// The host is the reference without its `https://` or `http://` scheme,
/// up to (not including) its first `/`: a prefix of it with no `/`, that
/// is either all of it or followed by a `/`.
pub proof fn lemma_registry_host(reference: Seq<char>)
    ensures
        ({
            let r = without_scheme(reference);
            let h = registry_host_of(reference);
            &&& h.len() <= r.len()
            &&& h == r.take(h.len() as int)
            &&& forall|i: int| 0 <= i < h.len() ==> h[i] != '/'
            &&& h.len() == r.len() || r[h.len() as int] == '/'
        }),
{
    let r = without_scheme(reference);
    if exists|p: int| 0 <= p < r.len() && r[p] == '/' {
        let w = choose|p: int| 0 <= p < r.len() && r[p] == '/';
        lemma_first_slash(r, w);
        let p = choose|p: int| 0 <= p < r.len() && r[p] == '/' && forall|q: int| 0 <= q < p ==> r[q] != '/';
        assert(registry_host_of(reference) == r.take(p));
    } else {
        assert(registry_host_of(reference) == r);
        assert(r.take(r.len() as int) =~= r);
    }
}

/// Extract the registry host from an OCI reference: the scheme is
/// dropped, then everything up to the first `/` is the host.
pub fn registry_host_from_reference(reference: &str) -> (r: String)
    ensures
        r@ == registry_host_of(reference@),
{
    let cs = chars_of(reference);
    proof {
        reveal_strlit("https://");
        reveal_strlit("http://");
    }
    let start: usize = if starts_with_text(&cs, "https://") {
        8
    } else if starts_with_text(&cs, "http://") {
        7
    } else {
        0
    };
    let ghost s = without_scheme(reference@);
    assert(s =~= cs@.subrange(start as int, cs@.len() as int));
    let mut p: usize = start;
    while p < cs.len() && cs[p] != '/'
        invariant
            start <= p <= cs.len(),
            s == cs@.subrange(start as int, cs@.len() as int),
            forall|q: int| start <= q < p ==> cs@[q] != '/',
        decreases cs.len() - p,
    {
        p = p + 1;
    }
    if p < cs.len() {
        let ghost w = p - start;
        assert(s[w] == '/');
        let ghost c = choose|x: int|
            0 <= x < s.len() && s[x] == '/' && forall|q: int| 0 <= q < x ==> s[q] != '/';
        assert(c == w) by {
            if c < w {
                assert(s[c] == cs@[start + c]);
            } else if c > w {
            }
        }
        assert(s.take(w) =~= cs@.subrange(start as int, p as int));
    } else {
        assert forall|x: int| 0 <= x < s.len() implies s[x] != '/' by {
            assert(s[x] == cs@[start + x]);
        }
    }
    string_of_range(&cs, start, p)
}

/// The position of the last `c` in `s`, if any.
pub open spec fn last_index_of(s: Seq<char>, c: char) -> Option<int> {
    if exists|p: int| 0 <= p < s.len() && s[p] == c {
        Some(choose|p: int| 0 <= p < s.len() && s[p] == c && forall|q: int| p < q < s.len() ==> s[q] != c)
    } else {
        None
    }
}

/// Where the tag of a reference starts: its last `:`, when no `/` comes
/// after it (a `:` before a `/` separates a registry's port).
pub open spec fn tag_colon_of(reference: Seq<char>) -> Option<int> {
    match last_index_of(reference, ':') {
        Some(p) => match last_index_of(reference, '/') {
            Some(q) => if p > q {
                Some(p)
            } else {
                None
            },
            None => Some(p),
        },
        None => None,
    }
}

/// The repository part of a reference: everything before its tag.
pub open spec fn repo_part_of(reference: Seq<char>) -> Seq<char> {
    match tag_colon_of(reference) {
        Some(p) => reference.take(p),
        None => reference,
    }
}

/// The tag part of a reference, `latest` when it has none.
pub open spec fn tag_part_of(reference: Seq<char>) -> Seq<char> {
    match tag_colon_of(reference) {
        Some(p) => reference.skip(p + 1),
        None => "latest"@,
    }
}

/// The last `/`-separated segment of a repository.
pub open spec fn last_segment_of(repo: Seq<char>) -> Seq<char> {
    match last_index_of(repo, '/') {
        Some(p) => repo.skip(p + 1),
        None => repo,
    }
}

/// `ghcr.io/org/plugin:1.0.0` → `plugin_1.0.0.zip`: the repository's last
/// path segment and the tag (`latest` without one), a file name in the
/// current directory; `localhost:5000/org/plugin` → `plugin_latest.zip`.
pub open spec fn pull_output_of(reference: Seq<char>) -> Seq<char> {
    last_segment_of(repo_part_of(reference)) + "_"@ + tag_part_of(reference) + ".zip"@
}

/// The last position of `c` in `cs[0..end]`.
fn last_index(cs: &Vec<char>, end: usize, c: char) -> (r: Option<usize>)
    requires
        end <= cs.len(),
    ensures
        match r {
            Some(p) => p < end && cs@[p as int] == c && last_index_of(cs@.take(end as int), c) == Some(
                p as int,
            ),
            None => last_index_of(cs@.take(end as int), c) is None,
        },
{
    let ghost s = cs@.take(end as int);
    let mut p: usize = end;
    while p > 0 && cs[p - 1] != c
        invariant
            p <= end <= cs.len(),
            s == cs@.take(end as int),
            forall|q: int| p <= q < end ==> cs@[q] != c,
        decreases p,
    {
        p = p - 1;
    }
    if p > 0 {
        let ghost w = (p - 1) as int;
        assert(s[w] == c);
        let ghost k = choose|x: int|
            0 <= x < s.len() && s[x] == c && forall|q: int| x < q < s.len() ==> s[q] != c;
        assert(k == w) by {
            if k < w {
            } else if k > w {
                assert(s[k] == cs@[k]);
            }
        }
        Some(p - 1)
    } else {
        assert forall|x: int| 0 <= x < s.len() implies s[x] != c by {
            assert(s[x] == cs@[x]);
        }
        None
    }
}

fn split_tag(cs: &Vec<char>) -> (r: (usize, String))
    ensures
        r.0 <= cs.len(),
        cs@.take(r.0 as int) == repo_part_of(cs@),
        r.1@ == tag_part_of(cs@),
{
    let ghost s = cs@;
    assert(s.take(s.len() as int) =~= s);
    let colon = last_index(cs, cs.len(), ':');
    let slash = last_index(cs, cs.len(), '/');
    let tag_at = match colon {
        Some(p) => match slash {
            Some(q) => if p > q {
                Some(p)
            } else {
                None
            },
            None => Some(p),
        },
        None => None,
    };
    assert(tag_colon_of(s) == match tag_at {
        Some(p) => Some(p as int),
        None => None::<int>,
    });
    match tag_at {
        Some(p) => {
            assert(s.skip(p + 1) =~= s.subrange(p + 1, s.len() as int));
            (p, string_of_range(cs, p + 1, cs.len()))
        },
        None => (cs.len(), String::from_str("latest")),
    }
}

fn last_segment(cs: &Vec<char>, end: usize) -> (r: String)
    requires
        end <= cs.len(),
    ensures
        r@ == last_segment_of(cs@.take(end as int)),
{
    match last_index(cs, end, '/') {
        Some(p) => {
            assert(cs@.take(end as int).skip(p + 1) =~= cs@.subrange(p + 1, end as int));
            string_of_range(cs, p + 1, end)
        },
        None => {
            assert(cs@.take(end as int) =~= cs@.subrange(0, end as int));
            string_of_range(cs, 0, end)
        },
    }
}

/// A sensible default output path for `pull`, in the current directory.
pub fn default_pull_output_path(reference: &str) -> (r: String)
    ensures
        r@ == pull_output_of(reference@),
{
    let cs = chars_of(reference);
    let (repo_end, tag) = split_tag(&cs);
    let mut s = last_segment(&cs, repo_end);
    s.append("_");
    s.append(tag.as_str());
    s.append(".zip");
    s
}

/// `@sha256:` occurs in `s` at `p`.
pub open spec fn pin_at(s: Seq<char>, p: int) -> bool {
    0 <= p && p + 8 <= s.len() && s.subrange(p, p + 8) == "@sha256:"@
}

/// The position of the last `@sha256:` in `s` (meaningful when there is one).
pub open spec fn last_pin(s: Seq<char>) -> int {
    choose|p: int| #[trigger] pin_at(s, p) && forall|q: int| p < q ==> !#[trigger] pin_at(s, q)
}

/// The hex digest a reference pins with `@sha256:<hex>` (the text after
/// the last `@sha256:`).
pub open spec fn pinned_digest_of(reference: Seq<char>) -> Option<Seq<char>> {
    if exists|p: int| #[trigger] pin_at(reference, p) {
        Some(reference.skip(last_pin(reference) + 8))
    } else {
        None
    }
}

proof fn lemma_last_pin(s: Seq<char>, w: int)
    requires
        pin_at(s, w),
        forall|q: int| w < q ==> !#[trigger] pin_at(s, q),
    ensures
        last_pin(s) == w,
        pinned_digest_of(s) == Some(s.skip(w + 8)),
{
    let k = last_pin(s);
    assert(pin_at(s, k) && forall|q: int| k < q ==> !#[trigger] pin_at(s, q));
    if k < w {
        assert(!pin_at(s, w));
    } else if k > w {
        assert(!pin_at(s, k));
    }
}

/// The digest a `…@sha256:<hex>` reference pins, re-asserted on pull.
pub fn pinned_digest(reference: &str) -> (r: Option<String>)
    ensures
        opt_text(r) == pinned_digest_of(reference@),
{
    let cs = chars_of(reference);
    let ghost s = reference@;
    if cs.len() < 8 {
        assert forall|q: int| !#[trigger] pin_at(s, q) by {}
        return None;
    }
    let mut p: usize = cs.len() - 8;
    loop
        invariant
            s == cs@,
            s == reference@,
            p + 8 <= cs.len(),
            forall|q: int| p < q ==> !#[trigger] pin_at(s, q),
        decreases p,
    {
        if range_is(&cs, p, p + 8, "@sha256:") {
            proof {
                lemma_last_pin(s, p as int);
            }
            assert(s.skip(p + 8) =~= cs@.subrange(p + 8, cs@.len() as int));
            return Some(string_of_range(&cs, p + 8, cs.len()));
        }
        assert(!pin_at(s, p as int));
        if p == 0 {
            assert forall|q: int| !#[trigger] pin_at(s, q) by {
                if q == 0 {
                }
            }
            return None;
        }
        p = p - 1;
    }
}

// ---------------------------------------------------------------------------
// Credential flags
// ---------------------------------------------------------------------------

/// The credential and transport flags of `push` / `pull`.
#[derive(Debug)]
pub struct PushPullOptions {
    pub username: Option<String>,
    pub password: Option<String>,
    /// An alternate docker `config.json`.
    pub docker_config: Option<String>,
    /// Never consult `~/.docker/config.json`.
    pub no_docker_config: bool,
    /// Registries reached over plain HTTP.
    pub insecure: Vec<String>,
}

pub struct PushPullOptionsView {
    pub username: Option<Seq<char>>,
    pub password: Option<Seq<char>>,
    pub docker_config: Option<Seq<char>>,
    pub no_docker_config: bool,
    pub insecure: Seq<Seq<char>>,
}

impl View for PushPullOptions {
    type V = PushPullOptionsView;

    open spec fn view(&self) -> PushPullOptionsView {
        PushPullOptionsView {
            username: opt_text(self.username),
            password: opt_text(self.password),
            docker_config: opt_text(self.docker_config),
            no_docker_config: self.no_docker_config,
            insecure: texts(self.insecure@),
        }
    }
}

/// The environment as `(name, value)` pairs.
pub open spec fn env_view(env: Seq<(String, String)>) -> Seq<(Seq<char>, Seq<char>)> {
    env.map_values(|p: (String, String)| (p.0@, p.1@))
}

/// The value of the first variable named `name`.
pub open spec fn env_lookup(env: Seq<(Seq<char>, Seq<char>)>, name: Seq<char>) -> Option<Seq<char>>
    decreases env.len(),
{
    if env.len() == 0 {
        None
    } else if env[0].0 == name {
        Some(env[0].1)
    } else {
        env_lookup(env.drop_first(), name)
    }
}

/// Reads `args[i..]`: `--username`/`-u`, `--password`/`-p` (`env:VAR`
/// reads the variable `VAR`), `--docker-config` and the repeatable
/// `--insecure-registry` take a value; `--no-docker-config` takes none.
pub open spec fn scan_registry_opts(
    args: Seq<Seq<char>>,
    i: int,
    o: PushPullOptionsView,
    env: Seq<(Seq<char>, Seq<char>)>,
) -> Result<PushPullOptionsView, Seq<char>>
    decreases args.len() - i,
{
    if i >= args.len() || i < 0 {
        Ok(o)
    } else if args[i] == "--username"@ || args[i] == "-u"@ {
        if i + 1 < args.len() {
            scan_registry_opts(args, i + 2, PushPullOptionsView { username: Some(args[i + 1]), ..o }, env)
        } else {
            Err("--username requires a value"@)
        }
    } else if args[i] == "--password"@ || args[i] == "-p"@ {
        if i + 1 < args.len() {
            if has_prefix(args[i + 1], "env:"@) {
                match env_lookup(env, args[i + 1].skip(4)) {
                    Some(v) => scan_registry_opts(
                        args,
                        i + 2,
                        PushPullOptionsView { password: Some(v), ..o },
                        env,
                    ),
                    None => Err("env var "@ + args[i + 1].skip(4) + " not set"@),
                }
            } else {
                scan_registry_opts(args, i + 2, PushPullOptionsView { password: Some(args[i + 1]), ..o }, env)
            }
        } else {
            Err("--password requires a value"@)
        }
    } else if args[i] == "--docker-config"@ {
        if i + 1 < args.len() {
            scan_registry_opts(args, i + 2, PushPullOptionsView { docker_config: Some(args[i + 1]), ..o }, env)
        } else {
            Err("--docker-config requires a path"@)
        }
    } else if args[i] == "--no-docker-config"@ {
        scan_registry_opts(args, i + 1, PushPullOptionsView { no_docker_config: true, ..o }, env)
    } else if args[i] == "--insecure-registry"@ {
        if i + 1 < args.len() {
            scan_registry_opts(
                args,
                i + 2,
                PushPullOptionsView { insecure: o.insecure.push(args[i + 1]), ..o },
                env,
            )
        } else {
            Err("--insecure-registry requires a host[:port]"@)
        }
    } else {
        Err("unknown option: "@ + args[i])
    }
}

/// No credential flags.
pub open spec fn no_options() -> PushPullOptionsView {
    PushPullOptionsView {
        username: None,
        password: None,
        docker_config: None,
        no_docker_config: false,
        insecure: Seq::empty(),
    }
}

fn lookup_env(env: &[(String, String)], name: &str) -> (r: Option<String>)
    ensures
        opt_text(r) == env_lookup(env_view(env@), name@),
{
    let ghost e = env_view(env@);
    let mut i: usize = 0;
    assert(e.skip(0) =~= e);
    while i < env.len()
        invariant
            e == env_view(env@),
            i <= env@.len(),
            env_lookup(e, name@) == env_lookup(e.skip(i as int), name@),
        decreases env.len() - i,
    {
        assert(e.skip(i as int)[0] == (env@[i as int].0@, env@[i as int].1@));
        if crate::text::same_text(env[i].0.as_str(), name) {
            return Some(env[i].1.clone());
        }
        assert(e.skip(i as int).drop_first() =~= e.skip(i + 1));
        i = i + 1;
    }
    None
}

/// Parses the credential flags `args[start..]`, reading `env:VAR`
/// passwords from `env`.
pub fn parse_push_pull_options_from(args: &[String], start: usize, env: &[(String, String)]) -> (r:
    Result<PushPullOptions, CliError>)
    ensures
        crate::cli::outcome(r) == scan_registry_opts(texts(args@), start as int, no_options(), env_view(env@)),
{
    let ghost a = texts(args@);
    let ghost e = env_view(env@);
    let mut out = PushPullOptions {
        username: None,
        password: None,
        docker_config: None,
        no_docker_config: false,
        insecure: Vec::new(),
    };
    assert(out.insecure@ =~= Seq::<String>::empty());
    assert(texts(out.insecure@) =~= Seq::<Seq<char>>::empty());
    assert(out@ =~= no_options());
    if start >= args.len() {
        return Ok(out);
    }
    let mut i: usize = start;
    while i < args.len()
        invariant
            a == texts(args@),
            e == env_view(env@),
            start <= i,
            i <= args@.len(),
            scan_registry_opts(a, start as int, no_options(), e) == scan_registry_opts(
                a,
                i as int,
                out@,
                e,
            ),
        decreases args.len() - i,
    {
        if arg_is(args, i, "--username") || arg_is(args, i, "-u") {
            if i + 1 >= args.len() {
                return Err(fail_with("--username requires a value"));
            }
            out.username = Some(args[i + 1].clone());
            i = i + 2;
        } else if arg_is(args, i, "--password") || arg_is(args, i, "-p") {
            if i + 1 >= args.len() {
                return Err(fail_with("--password requires a value"));
            }
            let raw = chars_of(args[i + 1].as_str());
            proof {
                reveal_strlit("env:");
            }
            if starts_with_text(&raw, "env:") {
                let var = string_of_range(&raw, 4, raw.len());
                match lookup_env(env, var.as_str()) {
                    Some(v) => {
                        out.password = Some(v);
                    },
                    None => {
                        let mut m = String::from_str("env var ");
                        m.append(var.as_str());
                        m.append(" not set");
                        return Err(fail(m));
                    },
                }
            } else {
                out.password = Some(args[i + 1].clone());
            }
            i = i + 2;
        } else if arg_is(args, i, "--docker-config") {
            if i + 1 >= args.len() {
                return Err(fail_with("--docker-config requires a path"));
            }
            out.docker_config = Some(args[i + 1].clone());
            i = i + 2;
        } else if arg_is(args, i, "--no-docker-config") {
            out.no_docker_config = true;
            i = i + 1;
        } else if arg_is(args, i, "--insecure-registry") {
            if i + 1 >= args.len() {
                return Err(fail_with("--insecure-registry requires a host[:port]"));
            }
            let ghost before = out@;
            out.insecure.push(args[i + 1].clone());
            assert(out@.insecure =~= before.insecure.push(a[i + 1]));
            i = i + 2;
        } else {
            let mut m = String::from_str("unknown option: ");
            m.append(args[i].as_str());
            return Err(fail(m));
        }
    }
    Ok(out)
}

/// Parse `--username`, `--password`, `--docker-config`,
/// `--no-docker-config`, and repeatable `--insecure-registry`; a password
/// of the form `env:VAR` is read from `env`.
pub fn parse_push_pull_options(args: &[String], env: &[(String, String)]) -> (r: Result<
    PushPullOptions,
    CliError,
>)
    ensures
        crate::cli::outcome(r) == scan_registry_opts(texts(args@), 0, no_options(), env_view(env@)),
{
    parse_push_pull_options_from(args, 0, env)
}

// ---------------------------------------------------------------------------
// Credential resolution
// ---------------------------------------------------------------------------

/// Where the credentials for a transfer come from.
#[derive(Debug)]
pub enum AuthPlan {
    /// `--username` with `--password`.
    Basic { username: String, password: String },
    /// No credentials.
    Anonymous,
    /// Look `host` up in a docker `config.json`: the one at `path`, or
    /// `~/.docker/config.json`; anonymous when it has nothing, or when it
    /// cannot be read.
    DockerConfig { host: String, path: Option<String> },
}

pub enum AuthPlanView {
    Basic { username: Seq<char>, password: Seq<char> },
    Anonymous,
    DockerConfig { host: Seq<char>, path: Option<Seq<char>> },
}

impl View for AuthPlan {
    type V = AuthPlanView;

    open spec fn view(&self) -> AuthPlanView {
        match self {
            AuthPlan::Basic { username, password } => AuthPlanView::Basic {
                username: username@,
                password: password@,
            },
            AuthPlan::Anonymous => AuthPlanView::Anonymous,
            AuthPlan::DockerConfig { host, path } => AuthPlanView::DockerConfig {
                host: host@,
                path: opt_text(*path),
            },
        }
    }
}

/// The credential source, in decreasing priority: both flags; the docker
/// config (unless `--no-docker-config`); anonymous.
pub open spec fn auth_plan_of(reference: Seq<char>, o: PushPullOptionsView) -> Result<AuthPlanView, Seq<char>> {
    match (o.username, o.password) {
        (Some(u), Some(p)) => Ok(AuthPlanView::Basic { username: u, password: p }),
        (None, None) => if o.no_docker_config {
            Ok(AuthPlanView::Anonymous)
        } else {
            Ok(AuthPlanView::DockerConfig { host: registry_host_of(reference), path: o.docker_config })
        },
        _ => Err("--username and --password must be supplied together"@),
    }
}

/// Resolve where the registry credentials for `reference` come from.
pub fn resolve_push_pull_auth(reference: &str, opts: &PushPullOptions) -> (r: Result<AuthPlan, CliError>)
    ensures
        crate::cli::outcome(r) == auth_plan_of(reference@, opts@),
{
    match (&opts.username, &opts.password) {
        (Some(u), Some(p)) => Ok(AuthPlan::Basic { username: u.clone(), password: p.clone() }),
        (None, None) => {
            if opts.no_docker_config {
                Ok(AuthPlan::Anonymous)
            } else {
                Ok(
                    AuthPlan::DockerConfig {
                        host: registry_host_from_reference(reference),
                        path: opts.docker_config.clone(),
                    },
                )
            }
        },
        _ => Err(fail_with("--username and --password must be supplied together")),
    }
}

// ---------------------------------------------------------------------------
// push / pull command lines
// ---------------------------------------------------------------------------

/// A parsed `push`.
#[derive(Debug)]
pub struct PushPlan {
    pub archive: String,
    pub reference: String,
    pub options: PushPullOptions,
    pub auth: AuthPlan,
}

pub struct PushPlanView {
    pub archive: Seq<char>,
    pub reference: Seq<char>,
    pub options: PushPullOptionsView,
    pub auth: AuthPlanView,
}

impl View for PushPlan {
    type V = PushPlanView;

    open spec fn view(&self) -> PushPlanView {
        PushPlanView {
            archive: self.archive@,
            reference: self.reference@,
            options: self.options@,
            auth: self.auth@,
        }
    }
}

/// What `plan_push` gives: `None` (print the usage) for no arguments; the
/// archive and the reference come first, the credential flags after.
pub open spec fn push_plan_of(args: Seq<Seq<char>>, env: Seq<(Seq<char>, Seq<char>)>) -> Result<
    Option<PushPlanView>,
    Seq<char>,
> {
    if args.len() == 0 {
        Ok(None)
    } else if args.len() < 2 {
        Err("push requires <archive> <registry/repo:tag>"@)
    } else {
        match scan_registry_opts(args, 2, no_options(), env) {
            Err(m) => Err(m),
            Ok(o) => match auth_plan_of(args[1], o) {
                Err(m) => Err(m),
                Ok(auth) => Ok(
                    Some(PushPlanView { archive: args[0], reference: args[1], options: o, auth }),
                ),
            },
        }
    }
}

/// Parses the `push` arguments and resolves the credential source.
pub fn plan_push(args: &[String], env: &[(String, String)]) -> (r: Result<Option<PushPlan>, CliError>)
    ensures
        outcome_opt(r) == push_plan_of(texts(args@), env_view(env@)),
{
    if args.len() == 0 {
        return Ok(None);
    }
    if args.len() < 2 {
        return Err(fail_with("push requires <archive> <registry/repo:tag>"));
    }
    let options = match parse_push_pull_options_from(args, 2, env) {
        Ok(o) => o,
        Err(e) => {
            return Err(e);
        },
    };
    let auth = match resolve_push_pull_auth(args[1].as_str(), &options) {
        Ok(a) => a,
        Err(e) => {
            return Err(e);
        },
    };
    Ok(Some(PushPlan { archive: args[0].clone(), reference: args[1].clone(), options, auth }))
}

/// A parsed `pull`.
#[derive(Debug)]
pub struct PullPlan {
    pub reference: String,
    /// `--output`, or the default derived from the reference.
    pub output: String,
    pub options: PushPullOptions,
    pub auth: AuthPlan,
    /// The digest a `…@sha256:<hex>` reference pins.
    pub pinned_digest: Option<String>,
}

pub struct PullPlanView {
    pub reference: Seq<char>,
    pub output: Seq<char>,
    pub options: PushPullOptionsView,
    pub auth: AuthPlanView,
    pub pinned_digest: Option<Seq<char>>,
}

impl View for PullPlan {
    type V = PullPlanView;

    open spec fn view(&self) -> PullPlanView {
        PullPlanView {
            reference: self.reference@,
            output: self.output@,
            options: self.options@,
            auth: self.auth@,
            pinned_digest: opt_text(self.pinned_digest),
        }
    }
}

/// Reads the leading `--output`/`-o` flags of `pull` from `args[i..]`;
/// gives the output (if any) and where the credential flags start.
pub open spec fn scan_pull_output(args: Seq<Seq<char>>, i: int, out: Option<Seq<char>>) -> Result<
    (Option<Seq<char>>, int),
    Seq<char>,
>
    decreases args.len() - i,
{
    if i >= args.len() || i < 0 {
        Ok((out, i))
    } else if args[i] == "--output"@ || args[i] == "-o"@ {
        if i + 1 < args.len() {
            scan_pull_output(args, i + 2, Some(args[i + 1]))
        } else {
            Err("--output requires a path argument"@)
        }
    } else {
        Ok((out, i))
    }
}

/// What `plan_pull` gives: `None` (print the usage) for no arguments; the
/// reference first, then `--output` flags, then the credential flags.
pub open spec fn pull_plan_of(args: Seq<Seq<char>>, env: Seq<(Seq<char>, Seq<char>)>) -> Result<
    Option<PullPlanView>,
    Seq<char>,
> {
    if args.len() == 0 {
        Ok(None)
    } else {
        match scan_pull_output(args, 1, None) {
            Err(m) => Err(m),
            Ok((out, i)) => match scan_registry_opts(args, i, no_options(), env) {
                Err(m) => Err(m),
                Ok(o) => match auth_plan_of(args[0], o) {
                    Err(m) => Err(m),
                    Ok(auth) => Ok(
                        Some(
                            PullPlanView {
                                reference: args[0],
                                output: match out {
                                    Some(p) => p,
                                    None => pull_output_of(args[0]),
                                },
                                options: o,
                                auth,
                                pinned_digest: pinned_digest_of(args[0]),
                            },
                        ),
                    ),
                },
            },
        }
    }
}

/// Parses the `pull` arguments and resolves the credential source, the
/// output path and the pinned digest.
pub fn plan_pull(args: &[String], env: &[(String, String)]) -> (r: Result<Option<PullPlan>, CliError>)
    ensures
        outcome_opt(r) == pull_plan_of(texts(args@), env_view(env@)),
{
    let ghost a = texts(args@);
    if args.len() == 0 {
        return Ok(None);
    }
    let mut output: Option<String> = None;
    let mut i: usize = 1;
    while i < args.len() && (arg_is(args, i, "--output") || arg_is(args, i, "-o"))
        invariant
            a == texts(args@),
            1 <= i <= args@.len(),
            scan_pull_output(a, 1, None) == scan_pull_output(a, i as int, opt_text(output)),
        decreases args.len() - i,
    {
        if i + 1 >= args.len() {
            return Err(fail_with("--output requires a path argument"));
        }
        output = Some(args[i + 1].clone());
        i = i + 2;
    }
    let options = match parse_push_pull_options_from(args, i, env) {
        Ok(o) => o,
        Err(e) => {
            return Err(e);
        },
    };
    let reference = args[0].clone();
    let auth = match resolve_push_pull_auth(reference.as_str(), &options) {
        Ok(x) => x,
        Err(e) => {
            return Err(e);
        },
    };
    let output = match output {
        Some(p) => p,
        None => default_pull_output_path(reference.as_str()),
    };
    let pinned = pinned_digest(reference.as_str());
    Ok(Some(PullPlan { reference, output, options, auth, pinned_digest: pinned }))
}

} // verus!
