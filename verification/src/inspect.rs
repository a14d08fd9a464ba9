//! `hash`, `verify`, `list`, `unpack` and the receipt of `sign`: their
//! command lines and the reports they print about an artifact.
use vstd::prelude::*;

use crate::cli::{arg_is, fail, fail_with, opt_text, texts, CliError};
use crate::crypto::{hex_lower, sha256_digest, sha256_hex};
use crate::text::{chars_of, decimal, has_suffix, push_decimal, same_text, string_of_range, ends_with_text};

verus! {

// ---------------------------------------------------------------------------
// hash
// ---------------------------------------------------------------------------

/// The hex SHA-256 of an artifact's bytes.
pub open spec fn artifact_hash(data: Seq<u8>) -> Seq<char> {
    hex_lower(sha256_digest(data))
}

/// What `hash` prints: the digest, then the config snippet that pins it.
pub open spec fn hash_report_of(data: Seq<u8>) -> Seq<Seq<char>> {
    let h = artifact_hash(data);
    seq![
        "sha256:"@ + h,
        ""@,
        "# Add to plugin config:"@,
        "#   integrity:"@,
        "#     sha256: \""@ + h + "\""@,
    ]
}

/// The lines `hash` prints for an artifact with these bytes.
pub fn hash_report(data: &[u8]) -> (r: Vec<String>)
    ensures
        texts(r@) == hash_report_of(data@),
{
    let h = sha256_hex(data);
    let mut first = String::from_str("sha256:");
    first.append(h.as_str());
    let mut last = String::from_str("#     sha256: \"");
    last.append(h.as_str());
    last.append("\"");
    let v = vec![
        first,
        String::from_str(""),
        String::from_str("# Add to plugin config:"),
        String::from_str("#   integrity:"),
        last,
    ];
    assert(texts(v@) =~= hash_report_of(data@));
    v
}

// ---------------------------------------------------------------------------
// verify
// ---------------------------------------------------------------------------

/// A parsed `verify` command line.
#[derive(Debug)]
pub struct VerifyArgs {
    /// The 32-byte raw public key file to check the signature against.
    pub key: Option<String>,
    /// The expected hex SHA-256.
    pub hash: Option<String>,
    pub artifact: String,
}

pub struct VerifyArgsView {
    pub key: Option<Seq<char>>,
    pub hash: Option<Seq<char>>,
    pub artifact: Seq<char>,
}

impl View for VerifyArgs {
    type V = VerifyArgsView;

    open spec fn view(&self) -> VerifyArgsView {
        VerifyArgsView { key: opt_text(self.key), hash: opt_text(self.hash), artifact: self.artifact@ }
    }
}

/// Reads `args[i..]`: `--key` and `--hash` take a value; any other
/// argument is the artifact (the last one counts).
pub open spec fn scan_verify(
    args: Seq<Seq<char>>,
    i: int,
    key: Option<Seq<char>>,
    hash: Option<Seq<char>>,
    artifact: Option<Seq<char>>,
) -> Result<(Option<Seq<char>>, Option<Seq<char>>, Option<Seq<char>>), Seq<char>>
    decreases args.len() - i,
{
    if i >= args.len() || i < 0 {
        Ok((key, hash, artifact))
    } else if args[i] == "--key"@ {
        if i + 1 < args.len() {
            scan_verify(args, i + 2, Some(args[i + 1]), hash, artifact)
        } else {
            Err("--key requires a value"@)
        }
    } else if args[i] == "--hash"@ {
        if i + 1 < args.len() {
            scan_verify(args, i + 2, key, Some(args[i + 1]), artifact)
        } else {
            Err("--hash requires a value"@)
        }
    } else {
        scan_verify(args, i + 1, key, hash, Some(args[i]))
    }
}

/// What `parse_verify_args` gives: `None` (print the usage) for no
/// arguments; an artifact is required.
pub open spec fn verify_args_of(args: Seq<Seq<char>>) -> Result<Option<VerifyArgsView>, Seq<char>> {
    if args.len() == 0 {
        Ok(None)
    } else {
        match scan_verify(args, 0, None, None, None) {
            Err(m) => Err(m),
            Ok((_, _, None)) => Err("no artifact path specified"@),
            Ok((key, hash, Some(artifact))) => Ok(Some(VerifyArgsView { key, hash, artifact })),
        }
    }
}

/// Parses the `verify` command line.
pub fn parse_verify_args(args: &[String]) -> (r: Result<Option<VerifyArgs>, CliError>)
    ensures
        crate::pack::outcome_opt(r) == verify_args_of(texts(args@)),
{
    let ghost a = texts(args@);
    if args.len() == 0 {
        return Ok(None);
    }
    let mut key: Option<String> = None;
    let mut hash: Option<String> = None;
    let mut artifact: Option<String> = None;
    let mut i: usize = 0;
    while i < args.len()
        invariant
            a == texts(args@),
            a.len() > 0,
            i <= args@.len(),
            scan_verify(a, 0, None, None, None) == scan_verify(
                a,
                i as int,
                opt_text(key),
                opt_text(hash),
                opt_text(artifact),
            ),
        decreases args.len() - i,
    {
        if arg_is(args, i, "--key") {
            if i + 1 >= args.len() {
                return Err(fail_with("--key requires a value"));
            }
            key = Some(args[i + 1].clone());
            i = i + 2;
        } else if arg_is(args, i, "--hash") {
            if i + 1 >= args.len() {
                return Err(fail_with("--hash requires a value"));
            }
            hash = Some(args[i + 1].clone());
            i = i + 2;
        } else {
            artifact = Some(args[i].clone());
            i = i + 1;
        }
    }
    match artifact {
        None => Err(fail_with("no artifact path specified")),
        Some(artifact) => Ok(Some(VerifyArgs { key, hash, artifact })),
    }
}

/// The public key read from `--key` must be 32 raw bytes.
pub open spec fn key_length_error(len: nat) -> Option<Seq<char>> {
    if len == 32 {
        None
    } else {
        Some("public key must be exactly 32 bytes, got "@ + decimal(len))
    }
}

/// Checks the length of the public key read from `--key`.
pub fn check_public_key(bytes: &[u8]) -> (r: Result<(), CliError>)
    ensures
        match r {
            Ok(_) => key_length_error(bytes@.len()) is None,
            Err(e) => key_length_error(bytes@.len()) == Some(e.message@),
        },
{
    if bytes.len() == 32 {
        Ok(())
    } else {
        let mut m = String::from_str("public key must be exactly 32 bytes, got ");
        push_decimal(&mut m, bytes.len() as u64);
        Err(fail(m))
    }
}

/// How the detached signature of the artifact checked out.
#[derive(Debug)]
pub enum SignatureCheck {
    Verified,
    Mismatch,
    /// The check itself failed, with this message.
    Error(String),
}

pub enum SignatureCheckView {
    Verified,
    Mismatch,
    Error(Seq<char>),
}

impl View for SignatureCheck {
    type V = SignatureCheckView;

    open spec fn view(&self) -> SignatureCheckView {
        match self {
            SignatureCheck::Verified => SignatureCheckView::Verified,
            SignatureCheck::Mismatch => SignatureCheckView::Mismatch,
            SignatureCheck::Error(m) => SignatureCheckView::Error(m@),
        }
    }
}

/// The result of `verify`: the lines it prints and whether it passed.
#[derive(Debug)]
pub struct VerifyReport {
    pub lines: Vec<String>,
    pub passed: bool,
}

/// The hash line, and whether the hash check passed (no expected hash
/// always passes).
pub open spec fn hash_line_of(actual: Seq<char>, expected: Option<Seq<char>>) -> (Seq<char>, bool) {
    match expected {
        Some(e) => if actual == e {
            ("  [OK] SHA-256: "@ + actual, true)
        } else {
            ("  [FAIL] SHA-256: expected "@ + e + ", got "@ + actual, false)
        },
        None => ("  SHA-256: "@ + actual, true),
    }
}

/// The signature line, and whether the signature check passed.
pub open spec fn signature_line_of(check: SignatureCheckView) -> (Seq<char>, bool) {
    match check {
        SignatureCheckView::Verified => ("  [OK] Ed25519 signature verified"@, true),
        SignatureCheckView::Mismatch => ("  [FAIL] Ed25519 signature does not match"@, false),
        SignatureCheckView::Error(m) => ("  [FAIL] Signature check error: "@ + m, false),
    }
}

/// The report of `verify`: each requested check on a line of its own,
/// then a blank line and the verdict; it passes iff every check passed.
pub open spec fn verify_report_of(data: Seq<u8>, expected: Option<Seq<char>>, signature: Option<SignatureCheckView>) -> (
    Seq<Seq<char>>,
    bool,
) {
    let (hl, hok) = hash_line_of(artifact_hash(data), expected);
    let (sl, sok): (Seq<Seq<char>>, bool) = match signature {
        Some(c) => (seq![signature_line_of(c).0], signature_line_of(c).1),
        None => (Seq::empty(), true),
    };
    let ok = hok && sok;
    (
        seq![hl] + sl + seq![""@, if ok { "Verification: PASSED"@ } else { "Verification: FAILED"@ }],
        ok,
    )
}

/// `verify` passes exactly when every requested check passes: an expected
/// hash equal to the artifact's SHA-256 hex (or none asked for) and a
/// verified signature (or none asked for); its last line says which.
pub proof fn lemma_verify_passes_iff_all_checks_pass(
    data: Seq<u8>,
    expected: Option<Seq<char>>,
    signature: Option<SignatureCheckView>,
)
    ensures
        verify_report_of(data, expected, signature).1 <==> (match expected {
            Some(e) => e == artifact_hash(data),
            None => true,
        }) && (match signature {
            Some(c) => c is Verified,
            None => true,
        }),
        verify_report_of(data, expected, signature).0.last() == if verify_report_of(
            data,
            expected,
            signature,
        ).1 {
            "Verification: PASSED"@
        } else {
            "Verification: FAILED"@
        },
        expected matches Some(e) && e != artifact_hash(data) ==> !verify_report_of(
            data,
            expected,
            signature,
        ).1,
{
}

/// Checks the artifact's hash against `expected` and folds in the outcome
/// of the signature check, if one was asked for.
pub fn verify_report(data: &[u8], expected: Option<&str>, signature: Option<&SignatureCheck>) -> (r:
    VerifyReport)
    ensures
        (texts(r.lines@), r.passed) == verify_report_of(
            data@,
            match expected {
                Some(e) => Some(e@),
                None => None,
            },
            match signature {
                Some(c) => Some(c@),
                None => None,
            },
        ),
{
    let actual = sha256_hex(data);
    let mut lines: Vec<String> = Vec::new();
    let mut ok = true;
    match expected {
        Some(e) => {
            if same_text(actual.as_str(), e) {
                let mut l = String::from_str("  [OK] SHA-256: ");
                l.append(actual.as_str());
                lines.push(l);
            } else {
                let mut l = String::from_str("  [FAIL] SHA-256: expected ");
                l.append(e);
                l.append(", got ");
                l.append(actual.as_str());
                lines.push(l);
                ok = false;
            }
        },
        None => {
            let mut l = String::from_str("  SHA-256: ");
            l.append(actual.as_str());
            lines.push(l);
        },
    }
    match signature {
        Some(SignatureCheck::Verified) => {
            lines.push(String::from_str("  [OK] Ed25519 signature verified"));
        },
        Some(SignatureCheck::Mismatch) => {
            lines.push(String::from_str("  [FAIL] Ed25519 signature does not match"));
            ok = false;
        },
        Some(SignatureCheck::Error(m)) => {
            let mut l = String::from_str("  [FAIL] Signature check error: ");
            l.append(m.as_str());
            lines.push(l);
            ok = false;
        },
        None => {},
    }
    lines.push(String::from_str(""));
    if ok {
        lines.push(String::from_str("Verification: PASSED"));
    } else {
        lines.push(String::from_str("Verification: FAILED"));
    }
    let ghost want = verify_report_of(
        data@,
        match expected {
            Some(e) => Some(e@),
            None => None,
        },
        match signature {
            Some(c) => Some(c@),
            None => None,
        },
    );
    assert(texts(lines@) =~= want.0);
    VerifyReport { lines, passed: ok }
}

// ---------------------------------------------------------------------------
// list
// ---------------------------------------------------------------------------

/// The directory `list` scans: its argument, else `MCPG_PLUGIN_DIR`, else
/// the current directory.
pub open spec fn list_dir_of(args: Seq<Seq<char>>, plugin_dir_var: Option<Seq<char>>) -> Seq<char> {
    if args.len() > 0 {
        args[0]
    } else {
        match plugin_dir_var {
            Some(d) => d,
            None => "."@,
        }
    }
}

/// Chooses the directory `list` scans.
pub fn list_dir(args: &[String], plugin_dir_var: Option<&str>) -> (r: String)
    ensures
        r@ == list_dir_of(
            texts(args@),
            match plugin_dir_var {
                Some(d) => Some(d@),
                None => None,
            },
        ),
{
    if args.len() > 0 {
        args[0].clone()
    } else {
        match plugin_dir_var {
            Some(d) => String::from_str(d),
            None => String::from_str("."),
        }
    }
}

/// A file name `list` reports: a native library or a wasm component.
pub open spec fn is_plugin_name(name: Seq<char>) -> bool {
    has_suffix(name, ".so"@) || has_suffix(name, ".dylib"@) || has_suffix(name, ".dll"@) || has_suffix(
        name,
        ".wasm"@,
    )
}

/// Whether `list` reports a file of this name.
pub fn is_plugin_artifact(name: &str) -> (r: bool)
    ensures
        r == is_plugin_name(name@),
{
    let cs = chars_of(name);
    ends_with_text(&cs, ".so") || ends_with_text(&cs, ".dylib") || ends_with_text(&cs, ".dll")
        || ends_with_text(&cs, ".wasm")
}

/// The line `list` prints for a plugin artifact: its name, its kind, the
/// first 16 hex digits of its SHA-256, and whether a signature sits beside
/// it.
pub open spec fn list_line_of(name: Seq<char>, data: Seq<u8>, signed: bool) -> Seq<char> {
    "  "@ + name + " ("@ + (if has_suffix(name, ".wasm"@) {
        "wasm"@
    } else {
        "native"@
    }) + ") sha256:"@ + artifact_hash(data).take(16) + if signed {
        " [signed]"@
    } else {
        ""@
    }
}

/// The line `list` prints for the artifact `name` with these bytes.
pub fn list_line(name: &str, data: &[u8], signed: bool) -> (r: String)
    ensures
        r@ == list_line_of(name@, data@, signed),
{
    let h = sha256_hex(data);
    let hc = chars_of(h.as_str());
    proof {
        crate::crypto::lemma_hex_lower_len(sha256_digest(data@));
    }
    let short = string_of_range(&hc, 0, 16);
    let nc = chars_of(name);
    let mut s = String::from_str("  ");
    s.append(name);
    s.append(" (");
    if ends_with_text(&nc, ".wasm") {
        s.append("wasm");
    } else {
        s.append("native");
    }
    s.append(") sha256:");
    s.append(short.as_str());
    if signed {
        s.append(" [signed]");
    } else {
        s.append("");
    }
    assert(short@ =~= artifact_hash(data@).take(16));
    s
}

// ---------------------------------------------------------------------------
// unpack
// ---------------------------------------------------------------------------

/// What `parse_unpack_args` gives: `None` (print the usage) for no
/// arguments, else the archive and the target directory.
pub open spec fn unpack_args_of(args: Seq<Seq<char>>) -> Result<Option<(Seq<char>, Seq<char>)>, Seq<char>> {
    if args.len() == 0 {
        Ok(None)
    } else if args.len() < 2 {
        Err("unpack requires <archive> <target-dir>"@)
    } else {
        Ok(Some((args[0], args[1])))
    }
}

/// Parses the `unpack` command line: `(archive, target directory)`.
pub fn parse_unpack_args(args: &[String]) -> (r: Result<Option<(String, String)>, CliError>)
    ensures
        match r {
            Ok(Some((a, t))) => unpack_args_of(texts(args@)) == Ok::<_, Seq<char>>(Some((a@, t@))),
            Ok(None) => unpack_args_of(texts(args@)) == Ok::<Option<(Seq<char>, Seq<char>)>, Seq<char>>(None),
            Err(e) => unpack_args_of(texts(args@)) == Err::<Option<(Seq<char>, Seq<char>)>, Seq<char>>(
                e.message@,
            ),
        },
{
    if args.len() == 0 {
        Ok(None)
    } else if args.len() < 2 {
        Err(fail_with("unpack requires <archive> <target-dir>"))
    } else {
        Ok(Some((args[0].clone(), args[1].clone())))
    }
}

// ---------------------------------------------------------------------------
// sign
// ---------------------------------------------------------------------------

/// The receipt `sign` prints once the signature is written.
pub open spec fn sign_receipt_of(artifact: Seq<char>, signature_path: Seq<char>, data: Seq<u8>, public_key_hex: Seq<char>) -> Seq<
    Seq<char>,
> {
    seq![
        "Signed: "@ + artifact,
        "  Signature: "@ + signature_path,
        "  SHA-256:   "@ + artifact_hash(data),
        "  Public key: "@ + public_key_hex,
    ]
}

/// The receipt of `sign`: the artifact, where its signature went, its
/// SHA-256 and the public key the signature verifies under.
pub fn sign_receipt(artifact: &str, signature_path: &str, data: &[u8], public_key_hex: &str) -> (r: Vec<
    String,
>)
    ensures
        texts(r@) == sign_receipt_of(artifact@, signature_path@, data@, public_key_hex@),
{
    let h = sha256_hex(data);
    let mut a = String::from_str("Signed: ");
    a.append(artifact);
    let mut b = String::from_str("  Signature: ");
    b.append(signature_path);
    let mut c = String::from_str("  SHA-256:   ");
    c.append(h.as_str());
    let mut d = String::from_str("  Public key: ");
    d.append(public_key_hex);
    let v = vec![a, b, c, d];
    assert(texts(v@) =~= sign_receipt_of(artifact@, signature_path@, data@, public_key_hex@));
    v
}

} // verus!
