//! Character-level helpers shared by the argument parsers and renderers.
use vstd::prelude::*;

verus! {

/// Trusted: `String::push` appends `c` at the end of `s` and leaves the
/// characters before it as they were.
#[verifier::external_body]
pub(crate) fn push_char(s: &mut String, c: char)
    ensures
        final(s)@ == old(s)@.push(c),
{
    s.push(c)
}

/// The characters of `s`, in order.
pub fn chars_of(s: &str) -> (r: Vec<char>)
    ensures
        r@ == s@,
{
    let mut r: Vec<char> = Vec::new();
    for c in it: s.chars()
        invariant
            r@ == it.seq().take(it.index() as int),
            it.seq() == s@,
    {
        r.push(c);
    }
    r
}

/// Whether two texts hold the same characters.
pub fn same_text(a: &str, b: &str) -> (r: bool)
    ensures
        r == (a@ == b@),
{
    let x = chars_of(a);
    let y = chars_of(b);
    same_chars(&x, &y)
}

/// Whether two character vectors are equal.
pub fn same_chars(x: &Vec<char>, y: &Vec<char>) -> (r: bool)
    ensures
        r == (x@ == y@),
{
    if x.len() != y.len() {
        return false;
    }
    let mut i: usize = 0;
    while i < x.len()
        invariant
            x.len() == y.len(),
            i <= x.len(),
            forall|k: int| 0 <= k < i ==> x@[k] == y@[k],
        decreases x.len() - i,
    {
        if x[i] != y[i] {
            return false;
        }
        i = i + 1;
    }
    assert(x@ =~= y@);
    true
}

/// A `String` holding the given characters.
pub fn string_of(cs: &Vec<char>) -> (r: String)
    ensures
        r@ == cs@,
{
    let mut s = String::new();
    let mut i: usize = 0;
    while i < cs.len()
        invariant
            i <= cs.len(),
            s@ == cs@.take(i as int),
        decreases cs.len() - i,
    {
        push_char(&mut s, cs[i]);
        i = i + 1;
        assert(s@ =~= cs@.take(i as int));
    }
    assert(cs@.take(i as int) =~= cs@);
    s
}

/// A `String` holding the characters `cs[from..to]`.
pub fn string_of_range(cs: &Vec<char>, from: usize, to: usize) -> (r: String)
    requires
        from <= to <= cs.len(),
    ensures
        r@ == cs@.subrange(from as int, to as int),
{
    let mut s = String::new();
    let mut i: usize = from;
    while i < to
        invariant
            from <= i <= to <= cs.len(),
            s@ == cs@.subrange(from as int, i as int),
        decreases to - i,
    {
        push_char(&mut s, cs[i]);
        i = i + 1;
        assert(s@ =~= cs@.subrange(from as int, i as int));
    }
    s
}

/// Whether `p` is a prefix of `s`.
pub open spec fn has_prefix(s: Seq<char>, p: Seq<char>) -> bool {
    p.len() <= s.len() && s.subrange(0, p.len() as int) == p
}

/// Whether `p` is a suffix of `s`.
pub open spec fn has_suffix(s: Seq<char>, p: Seq<char>) -> bool {
    p.len() <= s.len() && s.subrange(s.len() - p.len(), s.len() as int) == p
}

/// Whether `cs` starts with the characters of `p`.
pub fn starts_with_text(cs: &Vec<char>, p: &str) -> (r: bool)
    ensures
        r == has_prefix(cs@, p@),
{
    let pc = chars_of(p);
    if pc.len() > cs.len() {
        return false;
    }
    let mut i: usize = 0;
    while i < pc.len()
        invariant
            pc@ == p@,
            pc.len() <= cs.len(),
            i <= pc.len(),
            forall|k: int| 0 <= k < i ==> cs@[k] == pc@[k],
        decreases pc.len() - i,
    {
        if cs[i] != pc[i] {
            assert(cs@.subrange(0, pc@.len() as int)[i as int] != pc@[i as int]);
            return false;
        }
        i = i + 1;
    }
    assert(cs@.subrange(0, pc@.len() as int) =~= pc@);
    true
}

/// Whether `cs` ends with the characters of `p`.
pub fn ends_with_text(cs: &Vec<char>, p: &str) -> (r: bool)
    ensures
        r == has_suffix(cs@, p@),
{
    let pc = chars_of(p);
    if pc.len() > cs.len() {
        return false;
    }
    let off = cs.len() - pc.len();
    let mut i: usize = 0;
    while i < pc.len()
        invariant
            pc@ == p@,
            pc.len() <= cs.len(),
            off == cs.len() - pc.len(),
            i <= pc.len(),
            forall|k: int| 0 <= k < i ==> cs@[off + k] == pc@[k],
        decreases pc.len() - i,
    {
        if cs[off + i] != pc[i] {
            assert(cs@.subrange(off as int, cs@.len() as int)[i as int] != pc@[i as int]);
            return false;
        }
        i = i + 1;
    }
    assert(cs@.subrange(off as int, cs@.len() as int) =~= pc@);
    true
}

/// The character of the decimal digit `d` (`0 <= d < 10`).
pub open spec fn digit_char(d: nat) -> char {
    (('0' as nat) + d) as char
}

/// The decimal representation of `n`, most significant digit first,
/// without leading zeros (`"0"` for zero).
pub open spec fn decimal(n: nat) -> Seq<char>
    decreases n,
{
    if n < 10 {
        seq![digit_char(n)]
    } else {
        decimal(n / 10).push(digit_char(n % 10))
    }
}

fn digit(d: u64) -> (c: char)
    requires
        d < 10,
    ensures
        c == digit_char(d as nat),
{
    let b: u8 = 48u8 + (d as u8);
    b as char
}

/// Appends the decimal representation of `n` to `s`.
pub fn push_decimal(s: &mut String, n: u64)
    ensures
        final(s)@ == old(s)@ + decimal(n as nat),
    decreases n,
{
    if n >= 10 {
        push_decimal(s, n / 10);
    }
    push_char(s, digit(n % 10));
    assert(final(s)@ =~= old(s)@ + decimal(n as nat));
}

} // verus!

verus! {

// ---------------------------------------------------------------------------
// Whitespace and trimming (`str::trim` semantics)
// ---------------------------------------------------------------------------

/// `char::is_whitespace`: the Unicode `White_Space` property.
pub open spec fn is_white_space(c: char) -> bool {
    ||| ('\u{9}' <= c && c <= '\u{d}')
    ||| c == ' '
    ||| c == '\u{85}'
    ||| c == '\u{a0}'
    ||| c == '\u{1680}'
    ||| ('\u{2000}' <= c && c <= '\u{200a}')
    ||| c == '\u{2028}'
    ||| c == '\u{2029}'
    ||| c == '\u{202f}'
    ||| c == '\u{205f}'
    ||| c == '\u{3000}'
}

pub fn white_space(c: char) -> (r: bool)
    ensures
        r == is_white_space(c),
{
    ('\u{9}' <= c && c <= '\u{d}') || c == ' ' || c == '\u{85}' || c == '\u{a0}' || c == '\u{1680}'
        || ('\u{2000}' <= c && c <= '\u{200a}') || c == '\u{2028}' || c == '\u{2029}' || c
        == '\u{202f}' || c == '\u{205f}' || c == '\u{3000}'
}

/// Number of leading white-space characters.
pub open spec fn lead_ws(s: Seq<char>) -> nat
    decreases s.len(),
{
    if s.len() > 0 && is_white_space(s[0]) {
        1 + lead_ws(s.drop_first())
    } else {
        0
    }
}

/// Number of trailing white-space characters.
pub open spec fn trail_ws(s: Seq<char>) -> nat
    decreases s.len(),
{
    if s.len() > 0 && is_white_space(s.last()) {
        1 + trail_ws(s.drop_last())
    } else {
        0
    }
}

/// `str::trim_start`.
pub open spec fn trim_start(s: Seq<char>) -> Seq<char> {
    s.skip(lead_ws(s) as int)
}

/// `str::trim_end`.
pub open spec fn trim_end(s: Seq<char>) -> Seq<char> {
    s.take(s.len() - trail_ws(s))
}

/// `str::trim`: white space removed at both ends.
pub open spec fn trim(s: Seq<char>) -> Seq<char> {
    trim_end(trim_start(s))
}

pub proof fn lemma_lead_ws_bound(s: Seq<char>)
    ensures
        lead_ws(s) <= s.len(),
    decreases s.len(),
{
    if s.len() > 0 && is_white_space(s[0]) {
        lemma_lead_ws_bound(s.drop_first());
    }
}

pub proof fn lemma_trail_ws_bound(s: Seq<char>)
    ensures
        trail_ws(s) <= s.len(),
    decreases s.len(),
{
    if s.len() > 0 && is_white_space(s.last()) {
        lemma_trail_ws_bound(s.drop_last());
    }
}

/// The bounds `[a, b)` of `cs` that `str::trim` keeps.
pub fn trim_bounds(cs: &Vec<char>) -> (r: (usize, usize))
    ensures
        r.0 <= r.1 <= cs.len(),
        cs@.subrange(r.0 as int, r.1 as int) == trim(cs@),
{
    let ghost s = cs@;
    let mut a: usize = 0;
    assert(s.skip(0) =~= s);
    while a < cs.len() && white_space(cs[a])
        invariant
            s == cs@,
            a <= cs.len(),
            lead_ws(s) == a + lead_ws(s.skip(a as int)),
        decreases cs.len() - a,
    {
        assert(s.skip(a as int).drop_first() =~= s.skip(a + 1));
        a = a + 1;
    }
    assert(lead_ws(s.skip(a as int)) == 0);
    let ghost t = trim_start(s);
    assert(t =~= s.skip(a as int));
    let mut b: usize = cs.len();
    assert(t.take(t.len() as int) =~= t);
    while b > a && white_space(cs[b - 1])
        invariant
            s == cs@,
            t == s.skip(a as int),
            a <= b <= cs.len(),
            trail_ws(t) == (cs.len() - b) + trail_ws(t.take(b - a)),
        decreases b - a,
    {
        assert(t.take(b - a).drop_last() =~= t.take(b - 1 - a));
        assert(t.take(b - a).last() == cs@[b - 1]);
        b = b - 1;
    }
    assert(trail_ws(t.take(b - a)) == 0);
    assert(s.subrange(a as int, b as int) =~= trim_end(t));
    (a, b)
}

} // verus!

verus! {

/// Whether `cs[from..to]` holds exactly the characters of `lit`.
pub fn range_is(cs: &Vec<char>, from: usize, to: usize, lit: &str) -> (r: bool)
    requires
        from <= to <= cs.len(),
    ensures
        r == (cs@.subrange(from as int, to as int) == lit@),
{
    let l = chars_of(lit);
    if to - from != l.len() {
        assert(cs@.subrange(from as int, to as int).len() != lit@.len());
        return false;
    }
    let mut i: usize = 0;
    while i < l.len()
        invariant
            from <= to <= cs.len(),
            to - from == l.len(),
            l@ == lit@,
            i <= l.len(),
            forall|k: int| 0 <= k < i ==> cs@[from + k] == l@[k],
        decreases l.len() - i,
    {
        if cs[from + i] != l[i] {
            assert(cs@.subrange(from as int, to as int)[i as int] != l@[i as int]);
            return false;
        }
        i = i + 1;
    }
    assert(cs@.subrange(from as int, to as int) =~= l@);
    true
}

/// A copy of `bytes`.
pub fn copy_bytes(bytes: &[u8]) -> (r: Vec<u8>)
    ensures
        r@ == bytes@,
{
    let mut v: Vec<u8> = Vec::new();
    let mut i: usize = 0;
    while i < bytes.len()
        invariant
            i <= bytes.len(),
            v@ == bytes@.take(i as int),
        decreases bytes.len() - i,
    {
        v.push(bytes[i]);
        assert(bytes@.take(i + 1) =~= bytes@.take(i as int).push(bytes@[i as int]));
        i = i + 1;
    }
    assert(bytes@.take(bytes.len() as int) =~= bytes@);
    v
}

} // verus!
