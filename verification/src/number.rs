//! Decimal numbers as they appear on the wire.
//!
//! Numbers are written without padding: the digits of the magnitude, with a
//! minus sign in front of a negative one. Reading is a little more liberal: a
//! plus sign in front and leading zeros are accepted. A text reads as a number
//! of a given width only if the value fits that width.

use vstd::prelude::*;

verus! {

/// The byte `0`.
pub const ZERO: u8 = 48;

/// The byte `+`.
pub const PLUS: u8 = 43;

/// The byte `-`.
pub const MINUS: u8 = 45;

/// Whether `b` is one of the bytes `0` to `9`.
pub open spec fn is_digit(b: u8) -> bool {
    48 <= b && b <= 57
}

/// Every byte of `s` is a digit.
pub open spec fn all_digits(s: Seq<u8>) -> bool {
    forall|i: int| 0 <= i < s.len() ==> is_digit(#[trigger] s[i])
}

/// The number that a run of digits denotes, most significant digit first;
/// 0 for the empty run.
pub open spec fn digits_value(s: Seq<u8>) -> nat
    decreases s.len(),
{
    if s.len() == 0 {
        0
    } else {
        digits_value(s.drop_last()) * 10 + (s.last() - 48) as nat
    }
}

/// The value of a non-empty run of digits; `None` for anything else.
pub open spec fn digits_of(s: Seq<u8>) -> Option<nat> {
    if s.len() > 0 && all_digits(s) {
        Some(digits_value(s))
    } else {
        None
    }
}

/// The value of an unsigned number: digits, optionally after one `+`.
pub open spec fn unsigned_of(s: Seq<u8>) -> Option<nat> {
    if s.len() > 0 && s[0] == PLUS {
        digits_of(s.skip(1))
    } else {
        digits_of(s)
    }
}

/// The value of a signed number: digits, optionally after one `+` or `-`.
pub open spec fn signed_of(s: Seq<u8>) -> Option<int> {
    if s.len() > 0 && s[0] == MINUS {
        match digits_of(s.skip(1)) {
            Some(m) => Some(-(m as int)),
            None => None,
        }
    } else {
        match unsigned_of(s) {
            Some(m) => Some(m as int),
            None => None,
        }
    }
}

/// What `s` reads as in eight unsigned bits.
pub open spec fn u8_of(s: Seq<u8>) -> Option<u8> {
    match unsigned_of(s) {
        Some(v) if v <= u8::MAX => Some(v as u8),
        _ => None,
    }
}

/// What `s` reads as in sixteen unsigned bits.
pub open spec fn u16_of(s: Seq<u8>) -> Option<u16> {
    match unsigned_of(s) {
        Some(v) if v <= u16::MAX => Some(v as u16),
        _ => None,
    }
}

/// What `s` reads as in thirty-two unsigned bits.
pub open spec fn u32_of(s: Seq<u8>) -> Option<u32> {
    match unsigned_of(s) {
        Some(v) if v <= u32::MAX => Some(v as u32),
        _ => None,
    }
}

/// What `s` reads as in thirty-two signed bits.
pub open spec fn i32_of(s: Seq<u8>) -> Option<i32> {
    match signed_of(s) {
        Some(v) if i32::MIN <= v && v <= i32::MAX => Some(v as i32),
        _ => None,
    }
}

/// The digits of `n`, most significant first, without leading zeros.
pub open spec fn decimal(n: nat) -> Seq<u8>
    decreases n,
{
    if n < 10 {
        seq![(48 + n) as u8]
    } else {
        decimal(n / 10).push((48 + n % 10) as u8)
    }
}

/// The text of `v`: its digits, after a minus sign when it is negative.
pub open spec fn signed_decimal(v: int) -> Seq<u8> {
    if v < 0 {
        seq![MINUS] + decimal((-v) as nat)
    } else {
        decimal(v as nat)
    }
}

/// The written form of a number is a non-empty run of digits that denotes
/// the number.
pub proof fn lemma_decimal(n: nat)
    ensures
        decimal(n).len() >= 1,
        all_digits(decimal(n)),
        digits_value(decimal(n)) == n,
        digits_of(decimal(n)) == Some(n),
    decreases n,
{
    if n < 10 {
        let s = decimal(n);
        assert(s.drop_last() =~= Seq::<u8>::empty());
        assert(digits_value(s.drop_last()) == 0);
    } else {
        lemma_decimal(n / 10);
        let s = decimal(n);
        assert(s.drop_last() =~= decimal(n / 10));
        assert forall|i: int| 0 <= i < s.len() implies is_digit(#[trigger] s[i]) by {
            if i < s.len() - 1 {
                assert(s[i] == decimal(n / 10)[i]);
            }
        }
    }
}

/// Reading what was written gives the number back.
pub proof fn lemma_unsigned_round_trip(n: nat)
    ensures
        unsigned_of(decimal(n)) == Some(n),
        signed_of(decimal(n)) == Some(n as int),
{
    lemma_decimal(n);
    assert(is_digit(decimal(n)[0]));
}

/// Reading what was written gives the number back, whatever its sign.
pub proof fn lemma_signed_round_trip(v: int)
    ensures
        signed_of(signed_decimal(v)) == Some(v),
{
    if v < 0 {
        let m = (-v) as nat;
        lemma_decimal(m);
        let s = signed_decimal(v);
        assert(s.skip(1) =~= decimal(m));
    } else {
        lemma_unsigned_round_trip(v as nat);
    }
}

/// The value of a run of digits is at least the value of any of its prefixes.
pub proof fn lemma_digits_value_grows(s: Seq<u8>, k: int)
    requires
        0 <= k <= s.len(),
    ensures
        digits_value(s.take(k)) <= digits_value(s),
    decreases s.len() - k,
{
    if k == s.len() {
        assert(s.take(k) =~= s);
    } else {
        lemma_digits_value_grows(s.drop_last(), k);
        assert(s.drop_last().take(k) =~= s.take(k));
    }
}

/// Reads a run of digits whose value is at most `max`.
fn read_digits(s: &[u8], max: u64) -> (value: Option<u64>)
    requires
        max <= u32::MAX,
    ensures
        value == match digits_of(s@) {
            Some(v) if v <= max => Some(v as u64),
            _ => None::<u64>,
        },
{
    let n: usize = s.len();
    if n == 0 {
        return None;
    }
    let mut acc: u64 = 0;
    let mut i: usize = 0;
    assert(s@.take(0) =~= Seq::<u8>::empty());
    while i < n
        invariant
            n == s@.len(),
            n > 0,
            i <= n,
            max <= u32::MAX,
            acc <= max,
            all_digits(s@.take(i as int)),
            acc == digits_value(s@.take(i as int)),
        decreases n - i,
    {
        let b: u8 = s[i];
        proof {
            assert(s@.take(i + 1).drop_last() =~= s@.take(i as int));
            assert(s@.take(i + 1).last() == b);
        }
        if b < 48 || b > 57 {
            assert(!is_digit(s@[i as int]));
            return None;
        }
        let next: u64 = acc * 10 + (b - 48) as u64;
        if next > max {
            proof {
                lemma_digits_value_grows(s@, i + 1);
            }
            return None;
        }
        proof {
            assert forall|j: int| 0 <= j < i + 1 implies is_digit(#[trigger] s@.take(i + 1)[j]) by {
                if j < i {
                    assert(s@.take(i as int)[j] == s@.take(i + 1)[j]);
                }
            }
        }
        acc = next;
        i = i + 1;
    }
    assert(s@.take(n as int) =~= s@);
    Some(acc)
}

/// Reads an unsigned number whose value is at most `max`.
fn read_unsigned(s: &[u8], max: u64) -> (value: Option<u64>)
    requires
        max <= u32::MAX,
    ensures
        value == match unsigned_of(s@) {
            Some(v) if v <= max => Some(v as u64),
            _ => None::<u64>,
        },
{
    if s.len() > 0 && s[0] == PLUS {
        let body: &[u8] = vstd::slice::slice_subrange(s, 1, s.len());
        assert(body@ =~= s@.skip(1));
        read_digits(body, max)
    } else {
        read_digits(s, max)
    }
}

/// Reads an unsigned number of eight bits.
pub fn parse_u8(s: &[u8]) -> (value: Option<u8>)
    ensures
        value == u8_of(s@),
{
    match read_unsigned(s, 255) {
        Some(v) => Some(v as u8),
        None => None,
    }
}

/// Reads an unsigned number of sixteen bits.
pub fn parse_u16(s: &[u8]) -> (value: Option<u16>)
    ensures
        value == u16_of(s@),
{
    match read_unsigned(s, 65535) {
        Some(v) => Some(v as u16),
        None => None,
    }
}

/// Reads an unsigned number of thirty-two bits.
pub fn parse_u32(s: &[u8]) -> (value: Option<u32>)
    ensures
        value == u32_of(s@),
{
    match read_unsigned(s, 4294967295) {
        Some(v) => Some(v as u32),
        None => None,
    }
}

/// Reads a signed number of thirty-two bits.
pub fn parse_i32(s: &[u8]) -> (value: Option<i32>)
    ensures
        value == i32_of(s@),
{
    if s.len() > 0 && s[0] == MINUS {
        let body: &[u8] = vstd::slice::slice_subrange(s, 1, s.len());
        assert(body@ =~= s@.skip(1));
        match read_digits(body, 2147483648) {
            Some(m) => Some((0 - (m as i64)) as i32),
            None => None,
        }
    } else {
        match read_unsigned(s, 2147483647) {
            Some(v) => Some(v as i32),
            None => None,
        }
    }
}

/// Appends the digits of `n` to `out`.
pub fn push_decimal(out: &mut Vec<u8>, n: u64)
    ensures
        final(out)@ == old(out)@ + decimal(n as nat),
    decreases n,
{
    if n >= 10 {
        push_decimal(out, n / 10);
    }
    let digit: u8 = 48 + (n % 10) as u8;
    out.push(digit);
    proof {
        if n >= 10 {
            assert(final(out)@ =~= old(out)@ + decimal(n as nat));
        } else {
            assert(final(out)@ =~= old(out)@ + decimal(n as nat));
        }
    }
}

/// Appends the text of `v` to `out`.
pub fn push_signed_decimal(out: &mut Vec<u8>, v: i32)
    ensures
        final(out)@ == old(out)@ + signed_decimal(v as int),
{
    if v < 0 {
        out.push(MINUS);
        let magnitude: u64 = (0 - (v as i64)) as u64;
        push_decimal(out, magnitude);
        assert(final(out)@ =~= old(out)@ + signed_decimal(v as int));
    } else {
        push_decimal(out, v as u64);
    }
}

} // verus!
