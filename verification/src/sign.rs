//! `sign`: argument parsing, public-key resolution and the two signers
//! (a local 32-byte seed, or an external command whose output is checked
//! against a declared public key).
use vstd::prelude::*;

use crate::cli::{arg_is, fail, fail_with, opt_text, outcome, texts, CliError};
use crate::crypto::{
    decode_public_key, ed25519_accepts, ed25519_point_decodes, ed25519_public_key,
    ed25519_signature, hex_bytes, hex_decode, hex_decodes, hex_encode, hex_lower, is_hex_digit,
    lemma_hex_lower_chars, lemma_hex_lower_len, lemma_hex_round_trip, public_key_of_seed, sign_with_seed, verify_signature,
};
use crate::text::{
    chars_of, decimal, has_prefix, lead_ws, push_char, push_decimal, starts_with_text,
    string_of_range, trail_ws, trim, trim_bounds,
};

verus! {

// ---------------------------------------------------------------------------
// Arguments
// ---------------------------------------------------------------------------

/// Which signer produces the signature.
#[derive(Debug)]
pub enum SignerKind {
    /// Sign locally with the 32-byte seed read from `key_path`.
    Local { key_path: String },
    /// Run `command`; its output is checked against `public_key`.
    Subprocess { command: String, public_key: Option<String> },
}

/// The parsed `sign` command line.
#[derive(Debug)]
pub struct SignArgs {
    pub signer: SignerKind,
    pub artifact: String,
}

pub enum SignerKindView {
    Local { key_path: Seq<char> },
    Subprocess { command: Seq<char>, public_key: Option<Seq<char>> },
}

pub struct SignArgsView {
    pub signer: SignerKindView,
    pub artifact: Seq<char>,
}

impl View for SignArgs {
    type V = SignArgsView;

    open spec fn view(&self) -> SignArgsView {
        SignArgsView {
            signer: match self.signer {
                SignerKind::Local { key_path } => SignerKindView::Local { key_path: key_path@ },
                SignerKind::Subprocess { command, public_key } => SignerKindView::Subprocess {
                    command: command@,
                    public_key: opt_text(public_key),
                },
            },
            artifact: self.artifact@,
        }
    }
}

/// The flags seen so far while reading the `sign` arguments.
pub struct SignFlags {
    pub key: Option<Seq<char>>,
    pub subprocess: Option<Seq<char>>,
    pub public_key: Option<Seq<char>>,
    pub artifact: Option<Seq<char>>,
}

/// Reads `args[i..]`: `--key`, `--subprocess` and `--public-key` take the
/// next argument as their value; any other argument names the artifact.
/// A later occurrence overrides an earlier one.
pub open spec fn scan_sign_flags(args: Seq<Seq<char>>, i: int, f: SignFlags) -> Result<
    SignFlags,
    Seq<char>,
>
    decreases args.len() - i,
{
    if i >= args.len() || i < 0 {
        Ok(f)
    } else if args[i] == "--key"@ {
        if i + 1 < args.len() {
            scan_sign_flags(
                args,
                i + 2,
                SignFlags { key: Some(args[i + 1]), subprocess: f.subprocess, public_key: f.public_key, artifact: f.artifact },
            )
        } else {
            Err("--key requires a value"@)
        }
    } else if args[i] == "--subprocess"@ {
        if i + 1 < args.len() {
            scan_sign_flags(
                args,
                i + 2,
                SignFlags { key: f.key, subprocess: Some(args[i + 1]), public_key: f.public_key, artifact: f.artifact },
            )
        } else {
            Err("--subprocess requires a command string"@)
        }
    } else if args[i] == "--public-key"@ {
        if i + 1 < args.len() {
            scan_sign_flags(
                args,
                i + 2,
                SignFlags { key: f.key, subprocess: f.subprocess, public_key: Some(args[i + 1]), artifact: f.artifact },
            )
        } else {
            Err("--public-key requires a value"@)
        }
    } else {
        scan_sign_flags(
            args,
            i + 1,
            SignFlags { key: f.key, subprocess: f.subprocess, public_key: f.public_key, artifact: Some(args[i]) },
        )
    }
}

/// What `parse_sign_args` gives for `args`: the artifact is required, and
/// exactly one of the two signers must be chosen; `--public-key` belongs
/// to the subprocess signer only.
pub open spec fn sign_args_of(args: Seq<Seq<char>>) -> Result<SignArgsView, Seq<char>> {
    match scan_sign_flags(
        args,
        0,
        SignFlags { key: None, subprocess: None, public_key: None, artifact: None },
    ) {
        Err(m) => Err(m),
        Ok(f) => match f.artifact {
            None => Err("artifact path is required"@),
            Some(artifact) => match (f.key, f.subprocess) {
                (Some(_), Some(_)) => Err(
                    "--key and --subprocess are mutually exclusive — pick one signer"@,
                ),
                (Some(key_path), None) => if f.public_key is Some {
                    Err(
                        "--public-key only applies to --subprocess (the local signer derives the public key from the seed automatically)"@,
                    )
                } else {
                    Ok(SignArgsView { signer: SignerKindView::Local { key_path }, artifact })
                },
                (None, Some(command)) => Ok(
                    SignArgsView {
                        signer: SignerKindView::Subprocess { command, public_key: f.public_key },
                        artifact,
                    },
                ),
                (None, None) => Err(
                    "either --key <file> (local signer) or --subprocess <cmd> (KMS / HSM signer) is required"@,
                ),
            },
        },
    }
}

/// Parses the `sign` arguments.
pub fn parse_sign_args(args: &[String]) -> (r: Result<SignArgs, CliError>)
    ensures
        outcome(r) == sign_args_of(texts(args@)),
{
    let ghost a = texts(args@);
    let mut key: Option<String> = None;
    let mut subprocess: Option<String> = None;
    let mut public_key: Option<String> = None;
    let mut artifact: Option<String> = None;
    let mut i: usize = 0;
    while i < args.len()
        invariant
            a == texts(args@),
            i <= args@.len(),
            scan_sign_flags(a, 0, SignFlags { key: None, subprocess: None, public_key: None, artifact: None })
                == scan_sign_flags(
                a,
                i as int,
                SignFlags { key: opt_text(key), subprocess: opt_text(subprocess), public_key: opt_text(public_key), artifact: opt_text(artifact) },
            ),
        decreases args.len() - i,
    {
        if arg_is(args, i, "--key") {
            if i + 1 >= args.len() {
                return Err(fail_with("--key requires a value"));
            }
            key = Some(args[i + 1].clone());
            i = i + 2;
        } else if arg_is(args, i, "--subprocess") {
            if i + 1 >= args.len() {
                return Err(fail_with("--subprocess requires a command string"));
            }
            subprocess = Some(args[i + 1].clone());
            i = i + 2;
        } else if arg_is(args, i, "--public-key") {
            if i + 1 >= args.len() {
                return Err(fail_with("--public-key requires a value"));
            }
            public_key = Some(args[i + 1].clone());
            i = i + 2;
        } else {
            artifact = Some(args[i].clone());
            i = i + 1;
        }
    }
    let artifact = match artifact {
        Some(a) => a,
        None => {
            return Err(fail_with("artifact path is required"));
        },
    };
    let signer = match (key, subprocess) {
        (Some(_), Some(_)) => {
            return Err(fail_with("--key and --subprocess are mutually exclusive — pick one signer"));
        },
        (Some(key_path), None) => {
            if public_key.is_some() {
                return Err(
                    fail_with(
                        "--public-key only applies to --subprocess (the local signer derives the public key from the seed automatically)",
                    ),
                );
            }
            SignerKind::Local { key_path }
        },
        (None, Some(command)) => SignerKind::Subprocess { command, public_key },
        (None, None) => {
            return Err(
                fail_with(
                    "either --key <file> (local signer) or --subprocess <cmd> (KMS / HSM signer) is required",
                ),
            );
        },
    };
    Ok(SignArgs { signer, artifact })
}

// ---------------------------------------------------------------------------
// Public keys
// ---------------------------------------------------------------------------

/// `trim_start_matches("0x")`: every leading `0x` removed.
pub open spec fn strip_0x(s: Seq<char>) -> Seq<char>
    decreases s.len(),
{
    if s.len() >= 2 && s[0] == '0' && s[1] == 'x' {
        strip_0x(s.skip(2))
    } else {
        s
    }
}

/// `char::to_ascii_lowercase`.
pub open spec fn ascii_lower(c: char) -> char {
    if 'A' <= c && c <= 'Z' {
        ((c as int) + 32) as char
    } else {
        c
    }
}

/// `str::to_ascii_lowercase`.
pub open spec fn lower_text(s: Seq<char>) -> Seq<char> {
    s.map_values(|c: char| ascii_lower(c))
}

/// Exactly 64 hex digits.
pub open spec fn is_key_hex(s: Seq<char>) -> bool {
    s.len() == 64 && forall|i: int| 0 <= i < s.len() ==> is_hex_digit(#[trigger] s[i])
}

/// The file a `file:<path>` key value names.
pub open spec fn key_file_of(value: Seq<char>) -> Option<Seq<char>> {
    if has_prefix(value, "file:"@) {
        Some(value.skip(5))
    } else {
        None
    }
}

/// The contents of a key file: its bytes, or the text of the read error.
pub open spec fn file_view(f: Option<&Result<Vec<u8>, String>>) -> Option<Result<Seq<u8>, Seq<char>>> {
    match f {
        Some(r) => Some(
            match r {
                Ok(b) => Ok(b@),
                Err(e) => Err(e@),
            },
        ),
        None => None,
    }
}

/// What a `--public-key` value resolves to: 64 lower-case hex digits, or
/// an error message. A bare value is trimmed, loses its leading `0x`s and
/// is lower-cased; a `file:<path>` value takes the file's text when that
/// is UTF-8 and, so cleaned, 64 hex digits, else the hex of the file when
/// it is 32 raw bytes.
pub open spec fn public_key_of(value: Seq<char>, file: Option<Result<Seq<u8>, Seq<char>>>) -> Result<
    Seq<char>,
    Seq<char>,
> {
    match key_file_of(value) {
        Some(path) => match file {
            Some(Err(e)) => Err("failed to read --public-key file '"@ + path + "': "@ + e),
            Some(Ok(bytes)) => if vstd::utf8::valid_utf8(bytes) && is_key_hex(
                strip_0x(trim(vstd::utf8::decode_utf8(bytes))),
            ) {
                Ok(lower_text(strip_0x(trim(vstd::utf8::decode_utf8(bytes)))))
            } else if bytes.len() == 32 {
                Ok(hex_lower(bytes))
            } else {
                Err(
                    "--public-key file '"@ + path
                        + "' must be either 32 raw bytes or a 64-char hex string (with optional `0x` prefix and trailing newline)"@,
                )
            },
            None => Err(Seq::empty()),
        },
        None => if is_key_hex(lower_text(strip_0x(trim(value)))) {
            Ok(lower_text(strip_0x(trim(value))))
        } else {
            Err("--public-key must be 64 hex chars (or `file:<path>`)"@)
        },
    }
}

/// Trusted: `std::str::from_utf8` accepts exactly the valid UTF-8 byte
/// sequences and yields the characters they encode.
#[verifier::external_body]
pub(crate) fn utf8_text(bytes: &[u8]) -> (r: Option<String>)
    ensures
        r is Some <==> vstd::utf8::valid_utf8(bytes@),
        r matches Some(s) ==> s@ == vstd::utf8::decode_utf8(bytes@),
{
    match std::str::from_utf8(bytes) {
        Ok(s) => Some(s.to_string()),
        Err(_) => None,
    }
}

/// The path of the key file a `--public-key` value names (`file:<path>`),
/// if it names one.
pub fn public_key_file(value: &str) -> (r: Option<String>)
    ensures
        opt_text(r) == key_file_of(value@),
{
    let cs = chars_of(value);
    proof {
        reveal_strlit("file:");
    }
    if starts_with_text(&cs, "file:") {
        Some(string_of_range(&cs, 5, cs.len()))
    } else {
        None
    }
}

/// The start of `cs[from..to]` once every leading `0x` is removed.
fn skip_0x(cs: &Vec<char>, from: usize, to: usize) -> (r: usize)
    requires
        from <= to <= cs.len(),
    ensures
        from <= r <= to,
        cs@.subrange(r as int, to as int) == strip_0x(cs@.subrange(from as int, to as int)),
{
    let mut a = from;
    while to - a >= 2 && cs[a] == '0' && cs[a + 1] == 'x'
        invariant
            from <= a <= to <= cs.len(),
            strip_0x(cs@.subrange(from as int, to as int)) == strip_0x(
                cs@.subrange(a as int, to as int),
            ),
        decreases to - a,
    {
        assert(cs@.subrange(a as int, to as int).skip(2) =~= cs@.subrange(a + 2, to as int));
        a = a + 2;
    }
    a
}

fn lower_char(c: char) -> (r: char)
    ensures
        r == ascii_lower(c),
{
    if 'A' <= c && c <= 'Z' {
        ((c as u8) + 32) as char
    } else {
        c
    }
}

proof fn lemma_key_hex_lower(s: Seq<char>)
    ensures
        is_key_hex(lower_text(s)) == is_key_hex(s),
{
    let l = lower_text(s);
    assert forall|i: int| 0 <= i < s.len() implies is_hex_digit(#[trigger] l[i]) == is_hex_digit(
        s[i],
    ) by {}
    if is_key_hex(s) {
        assert forall|i: int| 0 <= i < l.len() implies is_hex_digit(#[trigger] l[i]) by {
            assert(is_hex_digit(s[i]));
        }
    }
    if is_key_hex(l) {
        assert forall|i: int| 0 <= i < s.len() implies is_hex_digit(#[trigger] s[i]) by {
            assert(is_hex_digit(l[i]));
        }
    }
}

/// `cs[from..to]` lower-cased, when lower-cased it is 64 hex digits.
fn key_hex_of(cs: &Vec<char>, from: usize, to: usize) -> (r: Option<String>)
    requires
        from <= to <= cs.len(),
    ensures
        r is Some == is_key_hex(lower_text(cs@.subrange(from as int, to as int))),
        r matches Some(s) ==> s@ == lower_text(cs@.subrange(from as int, to as int)),
{
    let ghost t = cs@.subrange(from as int, to as int);
    let ghost l = lower_text(t);
    if to - from != 64 {
        return None;
    }
    let mut s = String::new();
    let mut i: usize = from;
    while i < to
        invariant
            from <= i <= to <= cs.len(),
            t == cs@.subrange(from as int, to as int),
            l == lower_text(t),
            s@ == l.take(i - from),
            forall|k: int| 0 <= k < i - from ==> is_hex_digit(#[trigger] l[k]),
        decreases to - i,
    {
        let c = lower_char(cs[i]);
        assert(c == l[i - from]);
        if !(('0' <= c && c <= '9') || ('a' <= c && c <= 'f') || ('A' <= c && c <= 'F')) {
            return None;
        }
        push_char(&mut s, c);
        assert(s@ =~= l.take(i + 1 - from));
        i = i + 1;
    }
    assert(l.take(to - from) =~= l);
    Some(s)
}

/// Resolves a `--public-key` value to 64 lower-case hex digits. For a
/// `file:<path>` value, `key_file` holds what reading that file gave.
pub fn resolve_public_key(value: &str, key_file: Option<&Result<Vec<u8>, String>>) -> (r: Result<
    String,
    CliError,
>)
    requires
        key_file is Some == key_file_of(value@) is Some,
    ensures
        outcome(r) == public_key_of(value@, file_view(key_file)),
{
    match public_key_file(value) {
        Some(path) => {
            match key_file {
                Some(Err(e)) => {
                    let mut m = String::from_str("failed to read --public-key file '");
                    m.append(path.as_str());
                    m.append("': ");
                    m.append(e.as_str());
                    Err(fail(m))
                },
                Some(Ok(bytes)) => {
                    match utf8_text(bytes.as_slice()) {
                        Some(text) => {
                            let cs = chars_of(text.as_str());
                            let (a, b) = trim_bounds(&cs);
                            let a2 = skip_0x(&cs, a, b);
                            assert(cs@.subrange(a as int, b as int).skip(0) =~= cs@.subrange(
                                a as int,
                                b as int,
                            ));
                            proof {
                                lemma_key_hex_lower(cs@.subrange(a2 as int, b as int));
                            }
                            if let Some(h) = key_hex_of(&cs, a2, b) {
                                return Ok(h);
                            }
                        },
                        None => {},
                    }
                    if bytes.len() == 32 {
                        Ok(hex_encode(bytes.as_slice()))
                    } else {
                        let mut m = String::from_str("--public-key file '");
                        m.append(path.as_str());
                        m.append(
                            "' must be either 32 raw bytes or a 64-char hex string (with optional `0x` prefix and trailing newline)",
                        );
                        Err(fail(m))
                    }
                },
                None => Err(fail(String::new())),
            }
        },
        None => {
            let cs = chars_of(value);
            let (a, b) = trim_bounds(&cs);
            let a2 = skip_0x(&cs, a, b);
            match key_hex_of(&cs, a2, b) {
                Some(h) => Ok(h),
                None => Err(fail_with("--public-key must be 64 hex chars (or `file:<path>`)")),
            }
        },
    }
}

} // verus!

verus! {

// ---------------------------------------------------------------------------
// Signers
// ---------------------------------------------------------------------------

/// A `--public-key` value that is the hex encoding of 32 bytes resolves
/// to itself.
proof fn lemma_public_key_of_hex(b: Seq<u8>)
    requires
        b.len() == 32,
    ensures
        public_key_of(hex_lower(b), None) == Ok::<Seq<char>, Seq<char>>(hex_lower(b)),
{
    let s = hex_lower(b);
    lemma_hex_lower_len(b);
    lemma_hex_lower_chars(b);
    lemma_hex_round_trip(b);
    reveal_strlit("file:");
    assert(!has_prefix(s, "file:"@)) by {
        assert("file:"@[1] == 'i');
        if has_prefix(s, "file:"@) {
            assert(s.subrange(0, 5)[1] == s[1]);
        }
    }
    assert(s[0] == s[0]);
    assert(lead_ws(s) == 0);
    assert(s.last() == s[s.len() - 1]);
    assert(trail_ws(s) == 0);
    assert(trim(s) =~= s);
    assert(strip_0x(s) == s);
    assert(lower_text(s) =~= s);
}

/// A signature made by the local signer passes the check an external
/// signer's output must pass, under the public key the local signer
/// reports.
pub proof fn lemma_local_signature_passes_check(
    seed: Seq<u8>,
    data: Seq<u8>,
    public_key: Seq<u8>,
    signature: Seq<u8>,
    command: Seq<char>,
    status: Seq<char>,
)
    requires
        public_key.len() == 32,
        signature.len() == 64,
        ed25519_point_decodes(public_key),
        ed25519_accepts(public_key, data, signature),
    ensures
        subprocess_signature_of(command, true, status, signature, data, Some(hex_lower(public_key)), None)
            == Ok::<(Seq<u8>, Seq<char>), SignFailure>((signature, hex_lower(public_key))),
{
    lemma_public_key_of_hex(public_key);
    lemma_hex_round_trip(public_key);
}

/// What the local signer gives for a key file holding `seed`: the
/// signature of `data` and the hex of the derived public key; the seed
/// must be exactly 32 bytes.
pub open spec fn local_signature_of(seed: Seq<u8>, data: Seq<u8>) -> Result<(Seq<u8>, Seq<char>), Seq<char>> {
    if seed.len() != 32 {
        Err(
            "key file must be exactly 32 bytes (raw Ed25519 seed), got "@ + decimal(seed.len())
                + " bytes"@,
        )
    } else {
        Ok((ed25519_signature(seed, data), hex_lower(ed25519_public_key(seed))))
    }
}

/// Signs `artifact_data` with the seed read from the key file.
pub fn sign_local(key_bytes: &[u8], artifact_data: &[u8]) -> (r: Result<(Vec<u8>, String), CliError>)
    ensures
        outcome(r) == local_signature_of(key_bytes@, artifact_data@),
        r matches Ok((sig, pk)) ==> forall|command: Seq<char>, status: Seq<char>|
            #[trigger] subprocess_signature_of(command, true, status, sig@, artifact_data@, Some(pk@), None)
                == Ok::<(Seq<u8>, Seq<char>), SignFailure>((sig@, pk@)),
{
    if key_bytes.len() != 32 {
        let mut m = String::from_str("key file must be exactly 32 bytes (raw Ed25519 seed), got ");
        push_decimal(&mut m, key_bytes.len() as u64);
        m.append(" bytes");
        return Err(fail(m));
    }
    let signature = sign_with_seed(key_bytes, artifact_data);
    let public_key = public_key_of_seed(key_bytes);
    let pk = hex_encode(public_key.as_slice());
    assert forall|command: Seq<char>, status: Seq<char>|
        #[trigger] subprocess_signature_of(command, true, status, signature@, artifact_data@, Some(pk@), None)
            == Ok::<(Seq<u8>, Seq<char>), SignFailure>((signature@, pk@)) by {
        lemma_local_signature_passes_check(key_bytes@, artifact_data@, public_key@, signature@, command, status);
    }
    Ok((signature, pk))
}

/// How an external signer's run ended.
pub struct SignerOutput {
    /// The command exited successfully.
    pub success: bool,
    /// The exit status as displayed (`exit status: 17`).
    pub status: String,
    /// Everything the command wrote to its standard output.
    pub stdout: Vec<u8>,
}

/// Why a subprocess signature is refused: a message, or a failure of the
/// outside crates whose text they choose.
pub enum SignFailure {
    Text(Seq<char>),
    BadHex,
    BadKey,
    Rejected,
}

pub open spec fn opt_str(o: Option<&str>) -> Option<Seq<char>> {
    match o {
        Some(s) => Some(s@),
        None => None,
    }
}

/// The message when the declared key does not accept the signature,
/// before the verifier's own text.
pub open spec fn rejected_prefix() -> Seq<char> {
    "subprocess signer produced a signature that does NOT verify against the declared --public-key. Either the KMS / signer is misconfigured or --public-key is wrong. (verifier error: "@
}

/// What the subprocess signer gives: the command must succeed and print
/// exactly 64 bytes; the declared public key is required, resolved, and
/// must accept those bytes as a signature of `data`.
pub open spec fn subprocess_signature_of(
    command: Seq<char>,
    success: bool,
    status: Seq<char>,
    stdout: Seq<u8>,
    data: Seq<u8>,
    declared: Option<Seq<char>>,
    file: Option<Result<Seq<u8>, Seq<char>>>,
) -> Result<(Seq<u8>, Seq<char>), SignFailure> {
    if !success {
        Err(SignFailure::Text("subprocess signer '"@ + command + "' exited with status "@ + status))
    } else if stdout.len() != 64 {
        Err(
            SignFailure::Text(
                "subprocess signer must emit exactly 64 bytes of raw Ed25519 signature on stdout, got "@
                    + decimal(stdout.len())
                    + " bytes — check that the signer doesn't print trailing newlines / hex / base64"@,
            ),
        )
    } else {
        match declared {
            None => Err(
                SignFailure::Text(
                    "--public-key <hex|file:path> is required when using --subprocess (the CLI verifies the produced signature against this key before writing the .sig file, catching KMS misconfig at sign time)"@,
                ),
            ),
            Some(d) => match public_key_of(d, file) {
                Err(m) => Err(SignFailure::Text(m)),
                Ok(key_hex) => if !hex_decodes(key_hex) {
                    Err(SignFailure::BadHex)
                } else if hex_bytes(key_hex).len() != 32 {
                    Err(
                        SignFailure::Text(
                            "--public-key must be 32 raw bytes (hex-encoded), got "@ + decimal(
                                hex_bytes(key_hex).len(),
                            ) + " bytes"@,
                        ),
                    )
                } else if !ed25519_point_decodes(hex_bytes(key_hex)) {
                    Err(SignFailure::BadKey)
                } else if !ed25519_accepts(hex_bytes(key_hex), data, stdout) {
                    Err(SignFailure::Rejected)
                } else {
                    Ok((stdout, key_hex))
                },
            },
        }
    }
}

/// Whether `r` is what `expected` describes; for failures of the outside
/// crates, the message starts as the command words it.
pub open spec fn signed_as(r: Result<(Vec<u8>, String), CliError>, expected: Result<(Seq<u8>, Seq<char>), SignFailure>) -> bool {
    match expected {
        Ok(v) => r matches Ok(x) && x@ == v,
        Err(SignFailure::Text(m)) => r matches Err(e) && e.message@ == m,
        Err(SignFailure::BadHex) => r matches Err(e) && has_prefix(e.message@, "--public-key hex decode: "@),
        Err(SignFailure::BadKey) => r matches Err(e) && has_prefix(
            e.message@,
            "--public-key isn't a valid Ed25519 verifying key: "@,
        ),
        Err(SignFailure::Rejected) => r matches Err(e) && has_prefix(e.message@, rejected_prefix()),
    }
}

fn prefixed(prefix: &str, rest: &str) -> (r: CliError)
    ensures
        r.message@ == prefix@ + rest@,
        has_prefix(r.message@, prefix@),
{
    let mut m = String::from_str(prefix);
    m.append(rest);
    assert(m@.subrange(0, prefix@.len() as int) =~= prefix@);
    fail(m)
}

/// Checks what an external signer produced for `artifact_data` against
/// the declared public key. For a `file:<path>` key, `key_file` holds what
/// reading that file gave.
pub fn sign_subprocess(
    command: &str,
    output: &SignerOutput,
    artifact_data: &[u8],
    declared_public_key: Option<&str>,
    key_file: Option<&Result<Vec<u8>, String>>,
) -> (r: Result<(Vec<u8>, String), CliError>)
    requires
        key_file is Some == (declared_public_key matches Some(d) && key_file_of(d@) is Some),
    ensures
        signed_as(
            r,
            subprocess_signature_of(
                command@,
                output.success,
                output.status@,
                output.stdout@,
                artifact_data@,
                opt_str(declared_public_key),
                file_view(key_file),
            ),
        ),
{
    if !output.success {
        let mut m = String::from_str("subprocess signer '");
        m.append(command);
        m.append("' exited with status ");
        m.append(output.status.as_str());
        return Err(fail(m));
    }
    if output.stdout.len() != 64 {
        let mut m = String::from_str(
            "subprocess signer must emit exactly 64 bytes of raw Ed25519 signature on stdout, got ",
        );
        push_decimal(&mut m, output.stdout.len() as u64);
        m.append(" bytes — check that the signer doesn't print trailing newlines / hex / base64");
        return Err(fail(m));
    }
    let declared = match declared_public_key {
        Some(d) => d,
        None => {
            return Err(
                fail_with(
                    "--public-key <hex|file:path> is required when using --subprocess (the CLI verifies the produced signature against this key before writing the .sig file, catching KMS misconfig at sign time)",
                ),
            );
        },
    };
    let key_hex = match resolve_public_key(declared, key_file) {
        Ok(h) => h,
        Err(e) => {
            return Err(e);
        },
    };
    let key_bytes = match hex_decode(key_hex.as_str()) {
        Ok(b) => b,
        Err(e) => {
            return Err(prefixed("--public-key hex decode: ", e.as_str()));
        },
    };
    if key_bytes.len() != 32 {
        let mut m = String::from_str("--public-key must be 32 raw bytes (hex-encoded), got ");
        push_decimal(&mut m, key_bytes.len() as u64);
        m.append(" bytes");
        return Err(fail(m));
    }
    let key = match decode_public_key(key_bytes.as_slice()) {
        Ok(k) => k,
        Err(e) => {
            return Err(prefixed("--public-key isn't a valid Ed25519 verifying key: ", e.as_str()));
        },
    };
    match verify_signature(&key, artifact_data, output.stdout.as_slice()) {
        Ok(()) => {},
        Err(e) => {
            let mut m = String::from_str(
                "subprocess signer produced a signature that does NOT verify against the declared --public-key. Either the KMS / signer is misconfigured or --public-key is wrong. (verifier error: ",
            );
            m.append(e.as_str());
            m.append(")");
            assert(m@.subrange(0, rejected_prefix().len() as int) =~= rejected_prefix());
            return Err(fail(m));
        },
    }
    Ok((output.stdout.clone(), key_hex))
}

} // verus!
