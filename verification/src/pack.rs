//! `pack`: argument parsing, the artifact kind, the default platform
//! labels, and the canonical package file name.
use vstd::prelude::*;

use crate::cli::{arg_is, fail, fail_with, opt_text, texts, CliError};
use crate::path::{extension, extension_of, file_name, file_name_of, parent, parent_of, path_join, path_join_of};
use crate::text::{chars_of, same_text, string_of_range};

verus! {

/// The artifact a package carries.
#[derive(Debug, Clone, Copy, PartialEq, Eq)]
pub enum ArtifactKind {
    /// A native cdylib (`.so`, `.dylib`, `.dll`), packed as `plugin.so`.
    Native,
    /// A wasm component (`.wasm`), packed as `plugin.wasm`.
    Wasm,
}

/// The `<OS>` label of canonical file names for Rust's `target_os`.
pub open spec fn os_label_of(target_os: Seq<char>) -> Seq<char> {
    if target_os == "linux"@ {
        "linux"@
    } else if target_os == "macos"@ {
        "darwin"@
    } else if target_os == "windows"@ {
        "windows"@
    } else {
        "unknown"@
    }
}

/// The `<ARCH>` label of canonical file names for Rust's `target_arch`.
pub open spec fn arch_label_of(target_arch: Seq<char>) -> Seq<char> {
    if target_arch == "x86_64"@ {
        "amd64"@
    } else if target_arch == "aarch64"@ {
        "arm64"@
    } else {
        "unknown"@
    }
}

/// Host OS label for the host whose `target_os` is given.
pub fn host_os_label(target_os: &str) -> (r: &'static str)
    ensures
        r@ == os_label_of(target_os@),
{
    if same_text(target_os, "linux") {
        "linux"
    } else if same_text(target_os, "macos") {
        "darwin"
    } else if same_text(target_os, "windows") {
        "windows"
    } else {
        "unknown"
    }
}

/// Host arch label for the host whose `target_arch` is given.
pub fn host_arch_label(target_arch: &str) -> (r: &'static str)
    ensures
        r@ == arch_label_of(target_arch@),
{
    if same_text(target_arch, "x86_64") {
        "amd64"
    } else if same_text(target_arch, "aarch64") {
        "arm64"
    } else {
        "unknown"
    }
}

/// The last `.`-separated segment of a plugin id.
pub open spec fn short_name_of(id: Seq<char>) -> Seq<char> {
    if exists|p: int| 0 <= p < id.len() && id[p] == '.' {
        let p = choose|p: int|
            0 <= p < id.len() && id[p] == '.' && forall|q: int| p < q < id.len() ==> id[q] != '.';
        id.skip(p + 1)
    } else {
        id
    }
}

/// The short name of a plugin: `circuit-breaker` for
/// `dev.mcpg.circuit-breaker`.
pub fn short_name_from_id(id: &str) -> (r: String)
    ensures
        r@ == short_name_of(id@),
{
    let cs = chars_of(id);
    let mut p: usize = cs.len();
    while p > 0 && cs[p - 1] != '.'
        invariant
            p <= cs.len(),
            forall|q: int| p <= q < cs.len() ==> cs@[q] != '.',
        decreases p,
    {
        p = p - 1;
    }
    if p > 0 {
        let ghost w = (p - 1) as int;
        assert(cs@[w] == '.');
        let ghost c = choose|x: int|
            0 <= x < cs@.len() && cs@[x] == '.' && forall|q: int| x < q < cs@.len() ==> cs@[q]
                != '.';
        assert(c == w) by {
            if c < w {
            } else if c > w {
            }
        }
        string_of_range(&cs, p, cs.len())
    } else {
        string_of_range(&cs, 0, cs.len())
    }
}

/// `mcpg-plugin-<NAME>_<VERSION>_<OS>_<ARCH>.zip`.
pub open spec fn canonical_name_of(
    short: Seq<char>,
    version: Seq<char>,
    os: Seq<char>,
    arch: Seq<char>,
) -> Seq<char> {
    "mcpg-plugin-"@ + short + "_"@ + version + "_"@ + os + "_"@ + arch + ".zip"@
}

/// The canonical package file name.
pub fn canonical_filename(short: &str, version: &str, os: &str, arch: &str) -> (r: String)
    ensures
        r@ == canonical_name_of(short@, version@, os@, arch@),
{
    let mut s = String::from_str("mcpg-plugin-");
    s.append(short);
    s.append("_");
    s.append(version);
    s.append("_");
    s.append(os);
    s.append("_");
    s.append(arch);
    s.append(".zip");
    s
}

/// The parsed `pack` command line, with the artifact kind and the
/// platform labels resolved.
#[derive(Debug)]
pub struct PackArgs {
    pub descriptor: String,
    pub artifact: String,
    pub artifact_kind: ArtifactKind,
    pub signature: Option<String>,
    pub license: Option<String>,
    pub output: Option<String>,
    pub version: String,
    pub os: String,
    pub arch: String,
}

pub struct PackArgsView {
    pub descriptor: Seq<char>,
    pub artifact: Seq<char>,
    pub artifact_kind: ArtifactKind,
    pub signature: Option<Seq<char>>,
    pub license: Option<Seq<char>>,
    pub output: Option<Seq<char>>,
    pub version: Seq<char>,
    pub os: Seq<char>,
    pub arch: Seq<char>,
}

impl View for PackArgs {
    type V = PackArgsView;

    open spec fn view(&self) -> PackArgsView {
        PackArgsView {
            descriptor: self.descriptor@,
            artifact: self.artifact@,
            artifact_kind: self.artifact_kind,
            signature: opt_text(self.signature),
            license: opt_text(self.license),
            output: opt_text(self.output),
            version: self.version@,
            os: self.os@,
            arch: self.arch@,
        }
    }
}

/// Which value a `pack` option sets: descriptor, artifact, signature,
/// license, output, version, os, arch (0 to 7); -1 for anything else.
pub open spec fn pack_slot(a: Seq<char>) -> int {
    if a == "--descriptor"@ || a == "-d"@ {
        0
    } else if a == "--artifact"@ || a == "-a"@ {
        1
    } else if a == "--signature"@ || a == "-s"@ {
        2
    } else if a == "--license"@ || a == "-l"@ {
        3
    } else if a == "--output"@ || a == "-o"@ {
        4
    } else if a == "--version"@ || a == "-v"@ {
        5
    } else if a == "--os"@ {
        6
    } else if a == "--arch"@ {
        7
    } else {
        -1
    }
}

/// The error when the option of `slot` has no value.
pub open spec fn pack_missing(slot: int) -> Seq<char> {
    if slot == 0 {
        "--descriptor requires a path argument"@
    } else if slot == 1 {
        "--artifact requires a path argument"@
    } else if slot == 2 {
        "--signature requires a path argument"@
    } else if slot == 3 {
        "--license requires a path argument"@
    } else if slot == 4 {
        "--output requires a path argument"@
    } else if slot == 5 {
        "--version requires a value"@
    } else if slot == 6 {
        "--os requires a value"@
    } else {
        "--arch requires a value"@
    }
}

/// Reads `args[i..]`: every argument is an option taking the next one as
/// its value; a later occurrence overrides an earlier one.
pub open spec fn scan_pack(args: Seq<Seq<char>>, i: int, vals: Seq<Option<Seq<char>>>) -> Result<
    Seq<Option<Seq<char>>>,
    Seq<char>,
>
    decreases args.len() - i,
{
    if i >= args.len() || i < 0 {
        Ok(vals)
    } else if pack_slot(args[i]) < 0 {
        Err("unknown option: "@ + args[i])
    } else if i + 1 >= args.len() {
        Err(pack_missing(pack_slot(args[i])))
    } else {
        scan_pack(args, i + 2, vals.update(pack_slot(args[i]), Some(args[i + 1])))
    }
}

proof fn lemma_scan_pack_shift(pre: Seq<Seq<char>>, rest: Seq<Seq<char>>, j: int, vals: Seq<Option<Seq<char>>>)
    requires
        0 <= j,
    ensures
        scan_pack(pre + rest, pre.len() + j, vals) == scan_pack(rest, j, vals),
    decreases rest.len() - j,
{
    let all = pre + rest;
    let i = pre.len() + j;
    if j < rest.len() {
        assert(all[i] == rest[j]);
        if j + 1 < rest.len() {
            assert(all[i + 1] == rest[j + 1]);
            lemma_scan_pack_shift(
                pre,
                rest,
                j + 2,
                vals.update(pack_slot(rest[j]), Some(rest[j + 1])),
            );
        }
    }
}

/// `--signature <path>` and `-s <path>` both set the signature to `<path>`
/// and the rest of the command line is read on from there: for every
/// command line, writing one for the other gives the same result.
pub proof fn lemma_signature_flag(
    v: Seq<char>,
    rest: Seq<Seq<char>>,
    vals: Seq<Option<Seq<char>>>,
    os: Seq<char>,
    arch: Seq<char>,
)
    requires
        vals.len() == 8,
    ensures
        scan_pack(seq!["--signature"@, v] + rest, 0, vals) == scan_pack(rest, 0, vals.update(2, Some(v))),
        scan_pack(seq!["-s"@, v] + rest, 0, vals) == scan_pack(rest, 0, vals.update(2, Some(v))),
        pack_args_of(seq!["--signature"@, v] + rest, os, arch) == pack_args_of(
            seq!["-s"@, v] + rest,
            os,
            arch,
        ),
{
    reveal_strlit("--descriptor");
    reveal_strlit("-d");
    reveal_strlit("--artifact");
    reveal_strlit("-a");
    reveal_strlit("--signature");
    reveal_strlit("-s");
    let long = seq!["--signature"@, v];
    let short = seq!["-s"@, v];
    assert("--signature"@.len() == 11 && "--descriptor"@.len() == 12 && "--artifact"@.len() == 10);
    assert("-s"@[1] != "-d"@[1] && "-s"@[1] != "-a"@[1]);
    assert("--signature"@ != "-d"@ && "--signature"@ != "-a"@);
    assert("-s"@ != "--descriptor"@ && "-s"@ != "--artifact"@);
    assert(pack_slot("--signature"@) == 2);
    assert(pack_slot("-s"@) == 2);
    assert((long + rest)[0] == "--signature"@ && (long + rest)[1] == v);
    assert((short + rest)[0] == "-s"@ && (short + rest)[1] == v);
    lemma_scan_pack_shift(long, rest, 0, vals.update(2, Some(v)));
    lemma_scan_pack_shift(short, rest, 0, vals.update(2, Some(v)));
    let none8 = Seq::new(8, |k: int| None::<Seq<char>>);
    lemma_scan_pack_shift(long, rest, 0, none8.update(2, Some(v)));
    lemma_scan_pack_shift(short, rest, 0, none8.update(2, Some(v)));
}

/// The artifact kind the extension of `artifact` names.
pub open spec fn kind_of_artifact(artifact: Seq<char>) -> Option<ArtifactKind> {
    match file_name_of(artifact) {
        Some(name) => match extension_of(name) {
            Some(x) => if x == "so"@ || x == "dylib"@ || x == "dll"@ {
                Some(ArtifactKind::Native)
            } else if x == "wasm"@ {
                Some(ArtifactKind::Wasm)
            } else {
                None
            },
            None => None,
        },
        None => None,
    }
}

/// What `parse_pack_args` gives: `None` (print the usage) for no
/// arguments; otherwise the descriptor, artifact and version are required,
/// the artifact's extension decides its kind, and the OS / arch default to
/// the host's labels for a native artifact and to `wasi` / `wasm` for a
/// component.
pub open spec fn pack_args_of(args: Seq<Seq<char>>, host_os: Seq<char>, host_arch: Seq<char>) -> Result<
    Option<PackArgsView>,
    Seq<char>,
> {
    if args.len() == 0 {
        Ok(None)
    } else {
        match scan_pack(args, 0, Seq::new(8, |k: int| None)) {
            Err(m) => Err(m),
            Ok(v) => if v[0] is None {
                Err("--descriptor is required"@)
            } else if v[1] is None {
                Err("--artifact is required"@)
            } else if v[5] is None {
                Err("--version is required"@)
            } else {
                match kind_of_artifact(v[1]->0) {
                    None => Err(
                        "cannot infer artifact kind from "@ + v[1]->0
                            + " — expected .so/.dylib/.dll or .wasm"@,
                    ),
                    Some(kind) => Ok(
                        Some(
                            PackArgsView {
                                descriptor: v[0]->0,
                                artifact: v[1]->0,
                                artifact_kind: kind,
                                signature: v[2],
                                license: v[3],
                                output: v[4],
                                version: v[5]->0,
                                os: match v[6] {
                                    Some(o) => o,
                                    None => if kind == ArtifactKind::Native {
                                        os_label_of(host_os)
                                    } else {
                                        "wasi"@
                                    },
                                },
                                arch: match v[7] {
                                    Some(a) => a,
                                    None => if kind == ArtifactKind::Native {
                                        arch_label_of(host_arch)
                                    } else {
                                        "wasm"@
                                    },
                                },
                            },
                        ),
                    ),
                }
            },
        }
    }
}

fn pack_slot_exec(args: &[String], i: usize) -> (r: i64)
    requires
        i < args@.len(),
    ensures
        r == pack_slot(texts(args@)[i as int]),
{
    if arg_is(args, i, "--descriptor") || arg_is(args, i, "-d") {
        0
    } else if arg_is(args, i, "--artifact") || arg_is(args, i, "-a") {
        1
    } else if arg_is(args, i, "--signature") || arg_is(args, i, "-s") {
        2
    } else if arg_is(args, i, "--license") || arg_is(args, i, "-l") {
        3
    } else if arg_is(args, i, "--output") || arg_is(args, i, "-o") {
        4
    } else if arg_is(args, i, "--version") || arg_is(args, i, "-v") {
        5
    } else if arg_is(args, i, "--os") {
        6
    } else if arg_is(args, i, "--arch") {
        7
    } else {
        -1
    }
}

fn pack_missing_exec(slot: i64) -> (r: CliError)
    requires
        0 <= slot < 8,
    ensures
        r.message@ == pack_missing(slot as int),
{
    if slot == 0 {
        fail_with("--descriptor requires a path argument")
    } else if slot == 1 {
        fail_with("--artifact requires a path argument")
    } else if slot == 2 {
        fail_with("--signature requires a path argument")
    } else if slot == 3 {
        fail_with("--license requires a path argument")
    } else if slot == 4 {
        fail_with("--output requires a path argument")
    } else if slot == 5 {
        fail_with("--version requires a value")
    } else if slot == 6 {
        fail_with("--os requires a value")
    } else {
        fail_with("--arch requires a value")
    }
}

pub open spec fn opt_texts(v: Seq<Option<String>>) -> Seq<Option<Seq<char>>> {
    v.map_values(|o: Option<String>| opt_text(o))
}

fn kind_of_artifact_exec(artifact: &str) -> (r: Option<ArtifactKind>)
    ensures
        r == kind_of_artifact(artifact@),
{
    match file_name(artifact) {
        Some(name) => match extension(name.as_str()) {
            Some(x) => {
                if same_text(x.as_str(), "so") || same_text(x.as_str(), "dylib") || same_text(
                    x.as_str(),
                    "dll",
                ) {
                    Some(ArtifactKind::Native)
                } else if same_text(x.as_str(), "wasm") {
                    Some(ArtifactKind::Wasm)
                } else {
                    None
                }
            },
            None => None,
        },
        None => None,
    }
}

/// Parses the `pack` arguments; `target_os` and `target_arch` describe the
/// host build (Rust's `target_os` / `target_arch`).
pub fn parse_pack_args(args: &[String], target_os: &str, target_arch: &str) -> (r: Result<
    Option<PackArgs>,
    CliError,
>)
    ensures
        outcome_opt(r) == pack_args_of(texts(args@), target_os@, target_arch@),
{
    let ghost a = texts(args@);
    if args.len() == 0 {
        return Ok(None);
    }
    let mut vals: Vec<Option<String>> = Vec::new();
    let mut k: usize = 0;
    while k < 8
        invariant
            k <= 8,
            vals.len() == k,
            forall|q: int| 0 <= q < k ==> vals@[q] is None,
        decreases 8 - k,
    {
        vals.push(None);
        k = k + 1;
    }
    assert(opt_texts(vals@) =~= Seq::new(8, |k: int| None::<Seq<char>>));
    let mut i: usize = 0;
    while i < args.len()
        invariant
            a == texts(args@),
            i <= args@.len(),
            vals.len() == 8,
            scan_pack(a, 0, Seq::new(8, |k: int| None::<Seq<char>>)) == scan_pack(
                a,
                i as int,
                opt_texts(vals@),
            ),
        decreases args.len() - i,
    {
        let slot = pack_slot_exec(args, i);
        if slot < 0 {
            let mut m = String::from_str("unknown option: ");
            m.append(args[i].as_str());
            return Err(fail(m));
        }
        if i + 1 >= args.len() {
            return Err(pack_missing_exec(slot));
        }
        let ghost before = opt_texts(vals@);
        vals.set(slot as usize, Some(args[i + 1].clone()));
        assert(opt_texts(vals@) =~= before.update(slot as int, Some(a[i + 1])));
        i = i + 2;
    }
    let ghost v = opt_texts(vals@);
    assert(v[0] == opt_text(vals@[0]));
    let descriptor = match &vals[0] {
        Some(d) => d.clone(),
        None => {
            return Err(fail_with("--descriptor is required"));
        },
    };
    let artifact = match &vals[1] {
        Some(d) => d.clone(),
        None => {
            return Err(fail_with("--artifact is required"));
        },
    };
    let version = match &vals[5] {
        Some(d) => d.clone(),
        None => {
            return Err(fail_with("--version is required"));
        },
    };
    let kind = match kind_of_artifact_exec(artifact.as_str()) {
        Some(k) => k,
        None => {
            let mut m = String::from_str("cannot infer artifact kind from ");
            m.append(artifact.as_str());
            m.append(" — expected .so/.dylib/.dll or .wasm");
            return Err(fail(m));
        },
    };
    let os = match &vals[6] {
        Some(o) => o.clone(),
        None => match kind {
            ArtifactKind::Native => String::from_str(host_os_label(target_os)),
            ArtifactKind::Wasm => String::from_str("wasi"),
        },
    };
    let arch = match &vals[7] {
        Some(o) => o.clone(),
        None => match kind {
            ArtifactKind::Native => String::from_str(host_arch_label(target_arch)),
            ArtifactKind::Wasm => String::from_str("wasm"),
        },
    };
    Ok(
        Some(
            PackArgs {
                descriptor,
                artifact,
                artifact_kind: kind,
                signature: vals[2].clone(),
                license: vals[3].clone(),
                output: vals[4].clone(),
                version,
                os,
                arch,
            },
        ),
    )
}

/// A result whose optional value and error are seen as plain values.
pub open spec fn outcome_opt<T: View>(r: Result<Option<T>, CliError>) -> Result<Option<T::V>, Seq<char>> {
    match r {
        Ok(Some(v)) => Ok(Some(v@)),
        Ok(None) => Ok(None),
        Err(e) => Err(e.message@),
    }
}

/// Where `pack` writes the package: `--output`, or the canonical file name
/// built from the descriptor id's short name.
pub open spec fn pack_output_of(p: PackArgsView, descriptor_id: Seq<char>) -> Seq<char> {
    match p.output {
        Some(o) => o,
        None => canonical_name_of(short_name_of(descriptor_id), p.version, p.os, p.arch),
    }
}

/// The package path for parsed `pack` arguments and the descriptor's id.
pub fn pack_output_path(p: &PackArgs, descriptor_id: &str) -> (r: String)
    ensures
        r@ == pack_output_of(p@, descriptor_id@),
{
    match &p.output {
        Some(o) => o.clone(),
        None => {
            let short = short_name_from_id(descriptor_id);
            canonical_filename(short.as_str(), p.version.as_str(), p.os.as_str(), p.arch.as_str())
        },
    }
}

/// Where `pack` looks for a licence when `--license` is omitted: a file
/// named `LICENSE` in the descriptor's directory (none when the descriptor
/// path has no parent).
pub open spec fn license_candidate_of(descriptor: Seq<char>) -> Option<Seq<char>> {
    match parent_of(descriptor) {
        Some(dir) => Some(path_join_of(dir, "LICENSE"@)),
        None => None,
    }
}

/// The `LICENSE` beside the descriptor, which `pack` bundles when it is a
/// file and `--license` was not given.
pub fn license_candidate(descriptor: &str) -> (r: Option<String>)
    ensures
        opt_text(r) == license_candidate_of(descriptor@),
{
    match parent(descriptor) {
        Some(dir) => Some(path_join(dir.as_str(), "LICENSE")),
        None => None,
    }
}

} // verus!
