//! Decimal integers: `str::parse` for unsigned integers.
use vstd::prelude::*;

use crate::text::chars_of;

verus! {

/// `char::is_ascii_digit`.
pub open spec fn is_digit(c: char) -> bool {
    '0' <= c && c <= '9'
}

/// The value of the decimal digit `c`.
pub open spec fn digit_value(c: char) -> nat {
    ((c as int) - ('0' as int)) as nat
}

/// The value of a run of decimal digits.
pub open spec fn digits_value(ds: Seq<char>) -> nat
    decreases ds.len(),
{
    if ds.len() == 0 {
        0
    } else {
        digits_value(ds.drop_last()) * 10 + digit_value(ds.last())
    }
}

/// Why an unsigned integer failed to parse (`core::num::IntErrorKind`).
#[derive(Debug, Clone, Copy, PartialEq, Eq)]
pub enum IntError {
    Empty,
    InvalidDigit,
    PosOverflow,
}

impl IntError {
    pub open spec fn text(self) -> Seq<char> {
        match self {
            IntError::Empty => "cannot parse integer from empty string"@,
            IntError::InvalidDigit => "invalid digit found in string"@,
            IntError::PosOverflow => "number too large to fit in target type"@,
        }
    }

    /// The message `core::num::ParseIntError` displays for this kind.
    pub fn to_string(&self) -> (r: String)
        ensures
            r@ == self.text(),
    {
        match self {
            IntError::Empty => String::from_str("cannot parse integer from empty string"),
            IntError::InvalidDigit => String::from_str("invalid digit found in string"),
            IntError::PosOverflow => String::from_str("number too large to fit in target type"),
        }
    }
}

/// Digits read left to right, failing at the first non-digit or at the
/// first digit that takes the value past `max`.
pub open spec fn scan_digits(ds: Seq<char>, max: nat) -> Result<nat, IntError>
    decreases ds.len(),
{
    if ds.len() == 0 {
        Ok(0)
    } else {
        match scan_digits(ds.drop_last(), max) {
            Err(k) => Err(k),
            Ok(v) => if !is_digit(ds.last()) {
                Err(IntError::InvalidDigit)
            } else if v * 10 + digit_value(ds.last()) > max {
                Err(IntError::PosOverflow)
            } else {
                Ok(v * 10 + digit_value(ds.last()))
            },
        }
    }
}

/// `<uN as FromStr>::from_str` for an unsigned type whose largest value is
/// `max`: an optional leading `+`, then decimal digits.
pub open spec fn parse_unsigned(s: Seq<char>, max: nat) -> Result<nat, IntError> {
    if s.len() == 0 {
        Err(IntError::Empty)
    } else if (s[0] == '+' || s[0] == '-') && s.len() == 1 {
        Err(IntError::InvalidDigit)
    } else if s[0] == '+' {
        scan_digits(s.drop_first(), max)
    } else {
        scan_digits(s, max)
    }
}

pub proof fn lemma_digits_value_monotonic(ds: Seq<char>, k: int)
    requires
        0 <= k <= ds.len(),
    ensures
        digits_value(ds.take(k)) <= digits_value(ds),
    decreases ds.len(),
{
    if k < ds.len() {
        assert(ds.drop_last().take(k) =~= ds.take(k));
        lemma_digits_value_monotonic(ds.drop_last(), k);
    } else {
        assert(ds.take(k) =~= ds);
    }
}

/// On a run of digits, reading fails exactly when the value is too large.
pub proof fn lemma_scan_all_digits(ds: Seq<char>, max: nat)
    requires
        forall|i: int| 0 <= i < ds.len() ==> is_digit(#[trigger] ds[i]),
    ensures
        scan_digits(ds, max) == if digits_value(ds) <= max {
            Ok::<nat, IntError>(digits_value(ds))
        } else {
            Err(IntError::PosOverflow)
        },
    decreases ds.len(),
{
    if ds.len() > 0 {
        let p = ds.drop_last();
        assert forall|i: int| 0 <= i < p.len() implies is_digit(#[trigger] p[i]) by {
            assert(p[i] == ds[i]);
        }
        lemma_scan_all_digits(p, max);
        assert(ds.last() == ds[ds.len() - 1]);
    }
}

fn digit_at(c: char) -> (r: Option<u64>)
    ensures
        r is Some == is_digit(c),
        r matches Some(d) ==> d == digit_value(c) && d < 10,
{
    if '0' <= c && c <= '9' {
        Some((c as u64) - 48)
    } else {
        None
    }
}

/// Reads the digits `cs[from..to]` left to right, at most `max`.
pub fn scan_digits_exec(cs: &Vec<char>, from: usize, to: usize, max: u64) -> (r: Result<u64, IntError>)
    requires
        from <= to <= cs.len(),
    ensures
        r matches Ok(v) ==> scan_digits(cs@.subrange(from as int, to as int), max as nat) == Ok::<
            nat,
            IntError,
        >(v as nat),
        r matches Err(k) ==> scan_digits(cs@.subrange(from as int, to as int), max as nat) == Err::<
            nat,
            IntError,
        >(k),
{
    let mut acc: u64 = 0;
    let mut i: usize = from;
    assert(cs@.subrange(from as int, from as int) =~= Seq::<char>::empty());
    while i < to
        invariant
            from <= i <= to <= cs.len(),
            acc <= max,
            scan_digits(cs@.subrange(from as int, i as int), max as nat) == Ok::<nat, IntError>(
                acc as nat,
            ),
        decreases to - i,
    {
        let ghost prev = cs@.subrange(from as int, i as int);
        let ghost next = cs@.subrange(from as int, i + 1);
        assert(next.drop_last() =~= prev);
        assert(next.last() == cs@[i as int]);
        match digit_at(cs[i]) {
            None => {
                assert(scan_digits(next, max as nat) == Err::<nat, IntError>(IntError::InvalidDigit));
                let ghost rest = cs@.subrange(from as int, to as int);
                assert(rest.take((i + 1 - from) as int) =~= next);
                proof { lemma_scan_error_persists(rest, (i + 1 - from) as int, max as nat); }
                return Err(IntError::InvalidDigit);
            },
            Some(d) => {
                if d > max || acc > (max - d) / 10 {
                    assert(acc * 10 + d > max) by (nonlinear_arith)
                        requires
                            d > max || acc > (max - d) / 10,
                            d <= 9,
                    ;
                    assert(scan_digits(next, max as nat) == Err::<nat, IntError>(IntError::PosOverflow));
                    let ghost rest = cs@.subrange(from as int, to as int);
                    assert(rest.take((i + 1 - from) as int) =~= next);
                    proof { lemma_scan_error_persists(rest, (i + 1 - from) as int, max as nat); }
                    return Err(IntError::PosOverflow);
                }
                assert(acc * 10 + d <= max) by (nonlinear_arith)
                    requires
                        acc <= (max - d) / 10,
                        d <= max,
                ;
                acc = acc * 10 + d;
            },
        }
        i = i + 1;
    }
    Ok(acc)
}

/// Once reading a prefix has failed, reading the whole text fails the same way.
pub proof fn lemma_scan_error_persists(ds: Seq<char>, k: int, max: nat)
    requires
        0 <= k <= ds.len(),
        scan_digits(ds.take(k), max) is Err,
    ensures
        scan_digits(ds, max) == scan_digits(ds.take(k), max),
    decreases ds.len(),
{
    if k < ds.len() {
        assert(ds.drop_last().take(k) =~= ds.take(k));
        lemma_scan_error_persists(ds.drop_last(), k, max);
    } else {
        assert(ds.take(k) =~= ds);
    }
}

/// `<usize as FromStr>::from_str`.
pub fn parse_usize(s: &str) -> (r: Result<usize, IntError>)
    ensures
        r matches Ok(v) ==> parse_unsigned(s@, usize::MAX as nat) == Ok::<nat, IntError>(v as nat),
        r matches Err(k) ==> parse_unsigned(s@, usize::MAX as nat) == Err::<nat, IntError>(k),
{
    let cs = chars_of(s);
    if cs.len() == 0 {
        return Err(IntError::Empty);
    }
    if (cs[0] == '+' || cs[0] == '-') && cs.len() == 1 {
        return Err(IntError::InvalidDigit);
    }
    let from: usize = if cs[0] == '+' {
        1
    } else {
        0
    };
    assert(cs@.subrange(1, cs@.len() as int) =~= cs@.drop_first());
    assert(cs@.subrange(0, cs@.len() as int) =~= cs@);
    match scan_digits_exec(&cs, from, cs.len(), usize::MAX as u64) {
        Ok(v) => Ok(v as usize),
        Err(k) => Err(k),
    }
}

} // verus!
