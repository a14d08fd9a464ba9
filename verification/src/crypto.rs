//! Hashing, hex and Ed25519: the calls into `sha2`, `hex` and
//! `ed25519-dalek`, and the verified helpers around them.
use vstd::prelude::*;

use crate::text::push_char;

verus! {

// ---------------------------------------------------------------------------
// Hex
// ---------------------------------------------------------------------------

/// The lower-case hex digit for `d` (`0 <= d < 16`).
pub open spec fn hex_digit(d: nat) -> char {
    if d < 10 {
        (('0' as nat) + d) as char
    } else {
        (('a' as nat) + (d - 10)) as char
    }
}

/// Lower-case hex of `bytes`, two digits per byte, high nibble first.
pub open spec fn hex_lower(bytes: Seq<u8>) -> Seq<char>
    decreases bytes.len(),
{
    if bytes.len() == 0 {
        Seq::empty()
    } else {
        hex_lower(bytes.drop_last()) + seq![
            hex_digit((bytes.last() / 16) as nat),
            hex_digit((bytes.last() % 16) as nat),
        ]
    }
}

/// Two hex digits per byte.
pub proof fn lemma_hex_lower_len(bytes: Seq<u8>)
    ensures
        hex_lower(bytes).len() == 2 * bytes.len(),
    decreases bytes.len(),
{
    if bytes.len() > 0 {
        lemma_hex_lower_len(bytes.drop_last());
    }
}

/// `char::is_ascii_hexdigit`.
pub open spec fn is_hex_digit(c: char) -> bool {
    ('0' <= c && c <= '9') || ('a' <= c && c <= 'f') || ('A' <= c && c <= 'F')
}

/// The value of the hex digit `c`.
pub open spec fn hex_value(c: char) -> nat {
    if '0' <= c && c <= '9' {
        ((c as int) - ('0' as int)) as nat
    } else if 'a' <= c && c <= 'f' {
        ((c as int) - ('a' as int) + 10) as nat
    } else {
        ((c as int) - ('A' as int) + 10) as nat
    }
}

/// The bytes a string of hex digits (of even length) denotes.
pub open spec fn hex_bytes(s: Seq<char>) -> Seq<u8>
    decreases s.len(),
{
    if s.len() < 2 {
        Seq::empty()
    } else {
        hex_bytes(s.drop_last().drop_last()) + seq![
            (hex_value(s[s.len() - 2]) * 16 + hex_value(s.last())) as u8,
        ]
    }
}

/// Whether `hex::decode` accepts `s`: an even number of hex digits.
pub open spec fn hex_decodes(s: Seq<char>) -> bool {
    s.len() % 2 == 0 && forall|i: int| 0 <= i < s.len() ==> is_hex_digit(#[trigger] s[i])
}

proof fn lemma_hex_digit_value(d: nat)
    requires
        d < 16,
    ensures
        is_hex_digit(hex_digit(d)),
        hex_value(hex_digit(d)) == d,
{
}

/// Hex encoding writes only `0-9` and `a-f`.
pub proof fn lemma_hex_lower_chars(bytes: Seq<u8>)
    ensures
        forall|i: int|
            0 <= i < hex_lower(bytes).len() ==> ('0' <= #[trigger] hex_lower(bytes)[i] <= '9') || (
            'a' <= hex_lower(bytes)[i] <= 'f'),
    decreases bytes.len(),
{
    lemma_hex_lower_len(bytes);
    if bytes.len() > 0 {
        let rest = bytes.drop_last();
        lemma_hex_lower_chars(rest);
        lemma_hex_lower_len(rest);
        let s = hex_lower(bytes);
        let t = hex_lower(rest);
        assert forall|i: int| 0 <= i < s.len() implies ('0' <= #[trigger] s[i] <= '9') || ('a' <= s[i]
            <= 'f') by {
            if i < t.len() {
                assert(s[i] == t[i]);
            }
        }
    }
}

/// Decoding what `hex_encode` produced gives the bytes back: the encoding
/// is always accepted by `hex::decode`, and denotes exactly those bytes.
pub proof fn lemma_hex_round_trip(bytes: Seq<u8>)
    ensures
        hex_decodes(hex_lower(bytes)),
        hex_bytes(hex_lower(bytes)) == bytes,
    decreases bytes.len(),
{
    lemma_hex_lower_len(bytes);
    if bytes.len() > 0 {
        let rest = bytes.drop_last();
        let b = bytes.last();
        lemma_hex_round_trip(rest);
        lemma_hex_digit_value((b / 16) as nat);
        lemma_hex_digit_value((b % 16) as nat);
        let s = hex_lower(bytes);
        let t = hex_lower(rest);
        assert(s == t + seq![hex_digit((b / 16) as nat), hex_digit((b % 16) as nat)]);
        assert(s.drop_last().drop_last() =~= t);
        assert(s[s.len() - 2] == hex_digit((b / 16) as nat));
        assert(s.last() == hex_digit((b % 16) as nat));
        assert(((b / 16) as nat * 16 + (b % 16) as nat) as u8 == b);
        assert(hex_bytes(s) =~= hex_bytes(t) + seq![b]);
        assert(bytes =~= rest + seq![b]);
        assert forall|i: int| 0 <= i < s.len() implies is_hex_digit(#[trigger] s[i]) by {
            if i < t.len() {
                assert(s[i] == t[i]);
            }
        }
    }
}

fn hex_digit_exec(d: u8) -> (c: char)
    requires
        d < 16,
    ensures
        c == hex_digit(d as nat),
{
    if d < 10 {
        (48u8 + d) as char
    } else {
        (97u8 + (d - 10)) as char
    }
}

/// `hex::encode`: lower-case hex of `bytes`.
pub fn hex_encode(bytes: &[u8]) -> (r: String)
    ensures
        r@ == hex_lower(bytes@),
{
    let mut s = String::new();
    let mut i: usize = 0;
    assert(bytes@.take(0) =~= Seq::<u8>::empty());
    while i < bytes.len()
        invariant
            i <= bytes@.len(),
            s@ == hex_lower(bytes@.take(i as int)),
        decreases bytes.len() - i,
    {
        let b = bytes[i];
        push_char(&mut s, hex_digit_exec(b / 16));
        push_char(&mut s, hex_digit_exec(b % 16));
        assert(bytes@.take(i + 1).drop_last() =~= bytes@.take(i as int));
        i = i + 1;
    }
    assert(bytes@.take(i as int) =~= bytes@);
    s
}

/// `hex::decode`: on success the bytes the digits denote; on failure the
/// text of the `hex::FromHexError`.
///
/// Trusted: `hex::decode` (hex 0.4) rejects an odd number of digits and any
/// character outside `0-9a-fA-F`, and otherwise returns one byte per pair of
/// digits, high nibble first. The text of the error is not stated.
#[verifier::external_body]
pub(crate) fn hex_decode(s: &str) -> (r: Result<Vec<u8>, String>)
    ensures
        r is Ok <==> hex_decodes(s@),
        r matches Ok(v) ==> v@ == hex_bytes(s@),
{
    hex::decode(s).map_err(|e| e.to_string())
}

// ---------------------------------------------------------------------------
// SHA-256
// ---------------------------------------------------------------------------

/// The SHA-256 digest of `data`.
pub uninterp spec fn sha256_digest(data: Seq<u8>) -> Seq<u8>;

/// Trusted: `<sha2::Sha256 as Digest>::digest` returns the 32-byte SHA-256
/// digest of its input, which depends on the input alone.
#[verifier::external_body]
pub(crate) fn sha256(data: &[u8]) -> (r: Vec<u8>)
    ensures
        r@ == sha256_digest(data@),
        r@.len() == 32,
{
    <sha2::Sha256 as sha2::Digest>::digest(data).to_vec()
}

/// The SHA-256 of `data` as 64 lower-case hex digits.
pub fn sha256_hex(data: &[u8]) -> (r: String)
    ensures
        r@ == hex_lower(sha256_digest(data@)),
        sha256_digest(data@).len() == 32,
        r@.len() == 64,
{
    let d = sha256(data);
    proof {
        lemma_hex_lower_len(d@);
    }
    hex_encode(d.as_slice())
}

// ---------------------------------------------------------------------------
// Ed25519
// ---------------------------------------------------------------------------

#[verifier::external_type_specification]
#[verifier::external_body]
pub struct ExVerifyingKey(ed25519_dalek::VerifyingKey);

/// The 32-byte public key derived from a 32-byte Ed25519 seed.
pub uninterp spec fn ed25519_public_key(seed: Seq<u8>) -> Seq<u8>;

/// The 64-byte Ed25519 signature of `message` under the key derived from `seed`.
pub uninterp spec fn ed25519_signature(seed: Seq<u8>, message: Seq<u8>) -> Seq<u8>;

/// Whether 32 bytes are the compressed encoding of a curve point.
pub uninterp spec fn ed25519_point_decodes(public_key: Seq<u8>) -> bool;

/// Whether `signature` is a valid signature of `message` under `public_key`.
pub uninterp spec fn ed25519_accepts(public_key: Seq<u8>, message: Seq<u8>, signature: Seq<u8>) -> bool;

/// Trusted: `SigningKey::from_bytes(seed).verifying_key()` (ed25519-dalek 2)
/// derives the public key from the seed alone; `to_bytes` gives its 32 bytes,
/// the compressed encoding of a curve point, so they decode again.
#[verifier::external_body]
pub(crate) fn public_key_of_seed(seed: &[u8]) -> (r: Vec<u8>)
    requires
        seed@.len() == 32,
    ensures
        r@ == ed25519_public_key(seed@),
        r@.len() == 32,
        ed25519_point_decodes(r@),
{
    let seed: [u8; 32] = seed.try_into().unwrap();
    ed25519_dalek::SigningKey::from_bytes(&seed).verifying_key().to_bytes().to_vec()
}

/// Trusted: `<SigningKey as Signer>::sign` (ed25519-dalek 2) produces the
/// deterministic 64-byte Ed25519 signature of the message under the key
/// built from the seed; it never fails, and `Verifier::verify` with the
/// seed's public key accepts it.
#[verifier::external_body]
pub(crate) fn sign_with_seed(seed: &[u8], message: &[u8]) -> (r: Vec<u8>)
    requires
        seed@.len() == 32,
    ensures
        r@ == ed25519_signature(seed@, message@),
        r@.len() == 64,
        ed25519_accepts(ed25519_public_key(seed@), message@, r@),
{
    let seed: [u8; 32] = seed.try_into().unwrap();
    let key = ed25519_dalek::SigningKey::from_bytes(&seed);
    ed25519_dalek::Signer::sign(&key, message).to_bytes().to_vec()
}

/// A decoded Ed25519 public key together with the 32 bytes it came from.
pub struct Ed25519Key {
    key: ed25519_dalek::VerifyingKey,
    bytes: Vec<u8>,
}

impl Ed25519Key {
    /// The 32 bytes the key was decoded from.
    pub closed spec fn encoded(&self) -> Seq<u8> {
        self.bytes@
    }
}

/// Trusted: `VerifyingKey::from_bytes` (ed25519-dalek 2) fails exactly when
/// the bytes do not decompress to a curve point. The error text is not
/// stated.
#[verifier::external_body]
pub(crate) fn decode_public_key(bytes: &[u8]) -> (r: Result<Ed25519Key, String>)
    requires
        bytes@.len() == 32,
    ensures
        r is Ok <==> ed25519_point_decodes(bytes@),
        r matches Ok(k) ==> k.encoded() == bytes@,
{
    let arr: [u8; 32] = bytes.try_into().unwrap();
    match ed25519_dalek::VerifyingKey::from_bytes(&arr) {
        Ok(key) => Ok(Ed25519Key { key, bytes: bytes.to_vec() }),
        Err(e) => Err(e.to_string()),
    }
}

/// Trusted: `<VerifyingKey as Verifier>::verify` (ed25519-dalek 2) with
/// `Signature::from_bytes` accepts exactly the valid signatures of the
/// message under the key; it depends on these three values alone. The
/// error text is not stated.
#[verifier::external_body]
pub(crate) fn verify_signature(key: &Ed25519Key, message: &[u8], signature: &[u8]) -> (r: Result<
    (),
    String,
>)
    requires
        signature@.len() == 64,
    ensures
        r is Ok <==> ed25519_accepts(key.encoded(), message@, signature@),
{
    let sig: [u8; 64] = signature.try_into().unwrap();
    let sig = ed25519_dalek::Signature::from_bytes(&sig);
    ed25519_dalek::Verifier::verify(&key.key, message, &sig).map_err(|e| e.to_string())
}

} // verus!
