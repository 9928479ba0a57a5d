//! The field values of a frame: switches, unsigned integers and decimal
//! numbers, each read from the ASCII text of one field.

use vstd::prelude::*;
use vstd::slice::slice_subrange;

verus! {

/// ASCII `+`.
pub const PLUS: u8 = 0x2b;

/// ASCII `-`.
pub const MINUS: u8 = 0x2d;

/// ASCII `.`.
pub const POINT: u8 = 0x2e;

/// ASCII `0`.
pub const ZERO: u8 = 0x30;

/// ASCII `1`.
pub const ONE: u8 = 0x31;

/// A decimal number: `digits` divided by ten to the power `scale`, negated
/// where `negative` is set.
///
/// Numbers read from a frame are kept exact, so that two readings are equal
/// precisely when the numbers written on the wire are.
#[derive(Clone, Copy, Debug, PartialEq, Eq, Structural)]
pub struct Decimal {
    pub negative: bool,
    pub digits: u64,
    pub scale: u64,
}

/// The position of the first `byte` in `s` at or after `from`, or the length
/// of `s` where there is none.
pub open spec fn first_at(s: Seq<u8>, byte: u8, from: int) -> int
    decreases s.len() - from,
{
    if from < 0 || from >= s.len() {
        s.len() as int
    } else if s[from] == byte {
        from
    } else {
        first_at(s, byte, from + 1)
    }
}

/// A decimal digit, `0` to `9`.
pub open spec fn is_digit(byte: u8) -> bool {
    ZERO <= byte <= 0x39
}

/// Every byte is a decimal digit.
pub open spec fn all_digits(s: Seq<u8>) -> bool {
    forall|i: int| 0 <= i < s.len() ==> is_digit(#[trigger] s[i])
}

/// The number written by the digits of `acc` followed by the decimal digits
/// `s`.
pub open spec fn extend(acc: nat, s: Seq<u8>) -> nat
    decreases s.len(),
{
    if s.len() == 0 {
        acc
    } else {
        extend(acc, s.drop_last()) * 10 + (s.last() - ZERO) as nat
    }
}

/// A number and its scale with the trailing zeros of the fraction removed.
pub open spec fn trimmed(digits: nat, scale: nat) -> (nat, nat)
    decreases scale,
{
    if scale > 0 && digits % 10 == 0 {
        trimmed(digits / 10, (scale - 1) as nat)
    } else {
        (digits, scale)
    }
}

/// The one representation of a number: no trailing zero in the fraction, and
/// no negative zero.
pub open spec fn normal(negative: bool, digits: nat, scale: nat) -> Decimal {
    let (d, s) = trimmed(digits, scale);
    Decimal { negative: negative && d != 0, digits: d as u64, scale: s as u64 }
}

/// What a switch field says: `1` is closed, `0` is open, anything else is no
/// switch state.
pub open spec fn switch_of(text: Seq<u8>) -> Option<bool> {
    if text == seq![ONE] {
        Some(true)
    } else if text == seq![ZERO] {
        Some(false)
    } else {
        None
    }
}

/// What an unsigned field says: decimal digits, at least one, after an
/// optional `+`, with a value that fits 32 bits.
pub open spec fn unsigned_of(text: Seq<u8>) -> Option<u32> {
    let digits = if text.len() > 0 && text[0] == PLUS {
        text.drop_first()
    } else {
        text
    };
    if digits.len() > 0 && all_digits(digits) && extend(0, digits) <= u32::MAX {
        Some(extend(0, digits) as u32)
    } else {
        None
    }
}

/// The digits before the point of an unsigned decimal literal.
pub open spec fn whole_part(body: Seq<u8>) -> Seq<u8> {
    body.subrange(0, first_at(body, POINT, 0))
}

/// The digits after the point of an unsigned decimal literal.
pub open spec fn fraction_part(body: Seq<u8>) -> Seq<u8> {
    let p = first_at(body, POINT, 0);
    if 0 <= p < body.len() {
        body.subrange(p + 1, body.len() as int)
    } else {
        Seq::empty()
    }
}

/// What a decimal field says: an optional sign, then digits with at most one
/// point among them, at least one digit in all, and no more digits than 64
/// bits hold.
pub open spec fn decimal_of(text: Seq<u8>) -> Option<Decimal> {
    let signed = text.len() > 0 && (text[0] == PLUS || text[0] == MINUS);
    let negative = text.len() > 0 && text[0] == MINUS;
    let body = if signed {
        text.drop_first()
    } else {
        text
    };
    let whole = whole_part(body);
    let fraction = fraction_part(body);
    let digits = extend(extend(0, whole), fraction);
    if whole.len() + fraction.len() > 0 && all_digits(whole) && all_digits(fraction) && digits
        <= u64::MAX {
        Some(normal(negative, digits, fraction.len()))
    } else {
        None
    }
}

impl Decimal {
    /// No trailing zero in the fraction, and no negative zero.
    pub open spec fn wf(self) -> bool {
        &&& self.scale > 0 ==> self.digits % 10 != 0
        &&& self.digits == 0 ==> !self.negative
    }

    /// The number zero.
    pub fn zero() -> (r: Decimal)
        ensures
            r == normal(false, 0, 0),
            r.wf(),
    {
        Decimal { negative: false, digits: 0, scale: 0 }
    }

    /// The number `digits` divided by ten to the power `scale`, negated where
    /// `negative` is set, in its one representation.
    pub fn new(negative: bool, digits: u64, scale: u64) -> (r: Decimal)
        ensures
            r == normal(negative, digits as nat, scale as nat),
            r.wf(),
    {
        let mut d: u64 = digits;
        let mut s: u64 = scale;
        while s > 0 && d % 10 == 0
            invariant
                trimmed(d as nat, s as nat) == trimmed(digits as nat, scale as nat),
            decreases s,
        {
            d = d / 10;
            s = s - 1;
        }
        Decimal { negative: negative && d != 0, digits: d, scale: s }
    }
}

/// Digits only ever make the number larger.
pub proof fn lemma_extend_at_least(acc: nat, s: Seq<u8>)
    requires
        all_digits(s),
    ensures
        extend(acc, s) >= acc,
    decreases s.len(),
{
    if s.len() > 0 {
        assert(is_digit(s[s.len() - 1]));
        lemma_extend_at_least(acc, s.drop_last());
    }
}

/// The number written by a prefix of the digits is no larger than the number
/// written by all of them.
pub proof fn lemma_extend_prefix(acc: nat, s: Seq<u8>, k: int)
    requires
        all_digits(s),
        0 <= k <= s.len(),
    ensures
        extend(acc, s.subrange(0, k)) <= extend(acc, s),
    decreases s.len(),
{
    if k == s.len() {
        assert(s.subrange(0, k) =~= s);
    } else {
        assert(is_digit(s[s.len() - 1]));
        assert(s.drop_last().subrange(0, k) =~= s.subrange(0, k));
        lemma_extend_prefix(acc, s.drop_last(), k);
    }
}

/// The position of the first `byte` in `s`, or the length of `s`.
pub fn find_first(s: &[u8], byte: u8) -> (at: usize)
    ensures
        at == first_at(s@, byte, 0),
        at <= s@.len(),
{
    let mut i: usize = 0;
    while i < s.len() && s[i] != byte
        invariant
            0 <= i <= s@.len(),
            first_at(s@, byte, 0) == first_at(s@, byte, i as int),
        decreases s@.len() - i,
    {
        i += 1;
    }
    i
}

/// Reads decimal digits onto the number `acc`.
pub fn read_digits(acc: u64, s: &[u8]) -> (r: Option<u64>)
    ensures
        r == if all_digits(s@) && extend(acc as nat, s@) <= u64::MAX {
            Some(extend(acc as nat, s@) as u64)
        } else {
            None
        },
{
    let mut value: u64 = acc;
    let mut i: usize = 0;
    assert(s@.subrange(0, 0) =~= Seq::<u8>::empty());
    while i < s.len()
        invariant
            0 <= i <= s@.len(),
            all_digits(s@.subrange(0, i as int)),
            value == extend(acc as nat, s@.subrange(0, i as int)),
        decreases s@.len() - i,
    {
        let b: u8 = s[i];
        if b < ZERO || b > 0x39 {
            assert(!is_digit(s@[i as int]));
            return None;
        }
        let d: u64 = (b - ZERO) as u64;
        proof {
            let next = s@.subrange(0, i + 1);
            assert(next.drop_last() =~= s@.subrange(0, i as int));
            assert(next.last() == b);
            assert forall|j: int| 0 <= j < next.len() implies is_digit(#[trigger] next[j]) by {
                if j < i {
                    assert(next[j] == s@.subrange(0, i as int)[j]);
                }
            }
        }
        if value > (u64::MAX - d) / 10 {
            proof {
                if all_digits(s@) {
                    lemma_extend_prefix(acc as nat, s@, i + 1);
                }
            }
            return None;
        }
        value = value * 10 + d;
        i += 1;
    }
    assert(s@.subrange(0, i as int) =~= s@);
    Some(value)
}

/// Reads a switch field.
pub fn read_switch(text: &[u8]) -> (r: Option<bool>)
    ensures
        r == switch_of(text@),
{
    if text.len() == 1 && text[0] == ONE {
        assert(text@ =~= seq![ONE]);
        Some(true)
    } else if text.len() == 1 && text[0] == ZERO {
        assert(text@ =~= seq![ZERO]);
        Some(false)
    } else {
        assert(seq![ONE].len() == 1 && seq![ONE][0] == ONE);
        assert(seq![ZERO].len() == 1 && seq![ZERO][0] == ZERO);
        None
    }
}

/// Reads an unsigned field.
pub fn read_unsigned(text: &[u8]) -> (r: Option<u32>)
    ensures
        r == unsigned_of(text@),
{
    let from: usize = if text.len() > 0 && text[0] == PLUS {
        1
    } else {
        0
    };
    let digits = slice_subrange(text, from, text.len());
    assert(from == 0 ==> digits@ =~= text@);
    if digits.len() == 0 {
        return None;
    }
    match read_digits(0, digits) {
        Some(v) => if v <= 0xffff_ffff {
            Some(v as u32)
        } else {
            None
        },
        None => None,
    }
}

/// Reads a decimal field.
pub fn read_decimal(text: &[u8]) -> (r: Option<Decimal>)
    ensures
        r == decimal_of(text@),
        r matches Some(d) ==> d.wf(),
{
    let signed = text.len() > 0 && (text[0] == PLUS || text[0] == MINUS);
    let negative = text.len() > 0 && text[0] == MINUS;
    let from: usize = if signed {
        1
    } else {
        0
    };
    let body = slice_subrange(text, from, text.len());
    assert(!signed ==> body@ =~= text@);
    let p = find_first(body, POINT);
    let whole = slice_subrange(body, 0, p);
    let fraction = if p < body.len() {
        slice_subrange(body, p + 1, body.len())
    } else {
        slice_subrange(body, p, p)
    };
    assert(whole@ == whole_part(body@));
    assert(fraction@ =~= fraction_part(body@));
    if whole.len() == 0 && fraction.len() == 0 {
        return None;
    }
    let w = match read_digits(0, whole) {
        Some(w) => w,
        None => {
            proof {
                if all_digits(whole@) && all_digits(fraction@) {
                    lemma_extend_at_least(extend(0, whole@), fraction@);
                }
            }
            return None;
        },
    };
    match read_digits(w, fraction) {
        Some(m) => Some(Decimal::new(negative, m, fraction.len() as u64)),
        None => None,
    }
}

} // verus!
