//! Fixed-point decimals read from ASCII tokens and packed into one 64-bit word.

use vstd::prelude::*;
use vstd::string::StringSliceAdditionalSpecFns;

verus! {

/// ASCII code of `.`.
pub const DOT: u8 = 46;

/// ASCII code of `-`.
pub const MINUS: u8 = 45;

/// Largest scale a decimal can carry; longer fractions saturate here.
pub const MAX_SCALE: u8 = 255;

/// Whether `b` is an ASCII decimal digit.
pub open spec fn is_digit(b: u8) -> bool {
    48 <= b <= 57
}

/// The digits of `bytes` read as one decimal number, all other bytes skipped.
pub open spec fn digits_value(bytes: Seq<u8>) -> nat
    decreases bytes.len(),
{
    if bytes.len() == 0 {
        0
    } else if is_digit(bytes.last()) {
        (digits_value(bytes.drop_last()) * 10 + (bytes.last() - 48)) as nat
    } else {
        digits_value(bytes.drop_last())
    }
}

/// The digits of `bytes` accumulated in 64-bit two's complement arithmetic.
pub open spec fn digits_wrapped(bytes: Seq<u8>) -> i64
    decreases bytes.len(),
{
    if bytes.len() == 0 {
        0
    } else if is_digit(bytes.last()) {
        digits_wrapped(bytes.drop_last()).wrapping_mul(10).wrapping_add((bytes.last() - 48) as i64)
    } else {
        digits_wrapped(bytes.drop_last())
    }
}

/// How many digits of `bytes` stand after its first `.`.
pub open spec fn fraction_digits(bytes: Seq<u8>) -> nat
    decreases bytes.len(),
{
    if bytes.len() == 0 {
        0
    } else if is_digit(bytes.last()) && bytes.drop_last().contains(DOT) {
        fraction_digits(bytes.drop_last()) + 1
    } else {
        fraction_digits(bytes.drop_last())
    }
}

/// The mantissa that `bytes` decodes to: the accumulated digits, negated when a `-`
/// occurs anywhere in the token.
pub open spec fn mantissa_of(bytes: Seq<u8>) -> i64 {
    if bytes.contains(MINUS) {
        0i64.wrapping_sub(digits_wrapped(bytes))
    } else {
        digits_wrapped(bytes)
    }
}

/// The scale that `bytes` decodes to: its fraction digits, at most `MAX_SCALE`.
pub open spec fn scale_of(bytes: Seq<u8>) -> u8 {
    if fraction_digits(bytes) >= MAX_SCALE {
        MAX_SCALE
    } else {
        fraction_digits(bytes) as u8
    }
}

/// The packed word of a mantissa and a scale: the mantissa shifted left by eight
/// bits, the scale in the low eight bits.
pub open spec fn pack_spec(mantissa: i64, scale: u8) -> i64 {
    (mantissa << 8) | (scale as i64)
}

/// The packed word that the token `bytes` decodes to.
pub open spec fn packed_of(bytes: Seq<u8>) -> i64 {
    pack_spec(mantissa_of(bytes), scale_of(bytes))
}

/// A fixed-point number: `mantissa` scaled down by ten to the power `scale`.
#[derive(Debug, Clone, Copy, PartialEq, Eq, Structural)]
pub struct Decimal {
    mantissa: i64,
    scale: u8,
}

impl Decimal {
    /// The mantissa as a mathematical value.
    pub closed spec fn mantissa_spec(&self) -> i64 {
        self.mantissa
    }

    /// The scale as a mathematical value.
    pub closed spec fn scale_spec(&self) -> u8 {
        self.scale
    }

    /// Decodes the bytes of a numeric token. Digits accumulate into the mantissa
    /// wherever they stand, a `-` anywhere negates it, the first `.` starts the count
    /// of fraction digits, and every other byte is skipped. The mantissa wraps in
    /// 64 bits and the scale saturates at `MAX_SCALE`.
    pub fn parse_bytes(data: &[u8]) -> (d: Decimal)
        ensures
            d.mantissa_spec() == mantissa_of(data@),
            d.scale_spec() == scale_of(data@),
    {
        let mut val: i64 = 0;
        let mut frac: u8 = 0;
        let mut seen_dot = false;
        let mut minus = false;
        let mut i: usize = 0;
        while i < data.len()
            invariant
                i <= data.len(),
                val == digits_wrapped(data@.take(i as int)),
                frac == scale_of(data@.take(i as int)),
                seen_dot == data@.take(i as int).contains(DOT),
                minus == data@.take(i as int).contains(MINUS),
            decreases data.len() - i,
        {
            let b = data[i];
            proof {
                let next = data@.take(i + 1);
                assert(next.drop_last() =~= data@.take(i as int));
                assert(next.last() == b);
                lemma_contains_push(next, DOT);
                lemma_contains_push(next, MINUS);
            }
            if b == DOT {
                seen_dot = true;
            } else if b == MINUS {
                minus = true;
            } else if 48 <= b && b <= 57 {
                val = val.wrapping_mul(10).wrapping_add((b - 48) as i64);
                if seen_dot && frac < MAX_SCALE {
                    frac = frac + 1;
                }
            }
            i = i + 1;
        }
        assert(data@.take(i as int) =~= data@);
        let mantissa = if minus { 0i64.wrapping_sub(val) } else { val };
        Decimal { mantissa, scale: frac }
    }

    /// Decodes a numeric token given as text; see `parse_bytes`.
    pub fn parse(data: &str) -> (d: Decimal)
        ensures
            d.mantissa_spec() == mantissa_of(data.spec_bytes()),
            d.scale_spec() == scale_of(data.spec_bytes()),
    {
        Decimal::parse_bytes(data.as_bytes())
    }

    /// The mantissa.
    pub fn mantissa(&self) -> (m: i64)
        ensures
            m == self.mantissa_spec(),
    {
        self.mantissa
    }

    /// The number of digits after the decimal point.
    pub fn scale(&self) -> (s: u8)
        ensures
            s == self.scale_spec(),
    {
        self.scale
    }

    /// Packs the decimal into one word. There is no inverse: a reader of packed
    /// words takes the scale from the low eight bits itself.
    pub fn to_i64(&self) -> (packed: i64)
        ensures
            packed == pack_spec(self.mantissa_spec(), self.scale_spec()),
    {
        (self.mantissa << 8) | (self.scale as i64)
    }
}

/// A sequence holds `b` exactly when its last element is `b` or the rest holds it.
pub proof fn lemma_contains_push(s: Seq<u8>, b: u8)
    requires
        s.len() > 0,
    ensures
        s.contains(b) == (s.last() == b || s.drop_last().contains(b)),
{
    if s.contains(b) {
        let j = choose|j: int| 0 <= j < s.len() && s[j] == b;
        if j < s.len() - 1 {
            assert(s.drop_last()[j] == b);
        }
    }
    if s.drop_last().contains(b) {
        let j = choose|j: int| 0 <= j < s.drop_last().len() && s.drop_last()[j] == b;
        assert(s[j] == b);
    }
    if s.last() == b {
        assert(s[s.len() - 1] == b);
    }
}

/// The low eight bits of a packed word are the scale. Where the mantissa fits in
/// 56 bits, the remaining bits are the mantissa, sign included, and the word equals
/// `mantissa * 256 + scale`.
pub proof fn lemma_pack_layout(mantissa: i64, scale: u8)
    ensures
        pack_spec(mantissa, scale) & 0xff == scale as i64,
        -0x80_0000_0000_0000 <= mantissa < 0x80_0000_0000_0000 ==> {
            &&& pack_spec(mantissa, scale) >> 8 == mantissa
            &&& pack_spec(mantissa, scale) == mantissa * 256 + scale
        },
{
    let s = scale as i64;
    assert(0 <= s < 256);
    assert(((mantissa << 8) | s) & 0xff == s) by (bit_vector)
        requires
            0 <= s < 256,
    ;
    if -0x80_0000_0000_0000 <= mantissa < 0x80_0000_0000_0000 {
        assert(((mantissa << 8) | s) >> 8 == mantissa) by (bit_vector)
            requires
                0 <= s < 256,
                -0x80_0000_0000_0000 <= mantissa < 0x80_0000_0000_0000,
        ;
        assert(((mantissa << 8) | s) == mantissa * 256 + s) by (bit_vector)
            requires
                0 <= s < 256,
                -0x80_0000_0000_0000 <= mantissa < 0x80_0000_0000_0000,
        ;
    }
}

/// Where the digits of a token, read as one number, fit in 64 bits, the
/// accumulated mantissa is that number: nothing wrapped on the way.
pub proof fn lemma_digits_exact(bytes: Seq<u8>)
    requires
        digits_value(bytes) <= i64::MAX,
    ensures
        digits_wrapped(bytes) == digits_value(bytes),
    decreases bytes.len(),
{
    if bytes.len() > 0 {
        lemma_digits_exact(bytes.drop_last());
    }
}

/// Where the digits of a token, read as one number, fit in 64 bits, its mantissa
/// is that number, negated where the token holds a `-`.
pub proof fn lemma_mantissa_exact(bytes: Seq<u8>)
    requires
        digits_value(bytes) <= i64::MAX,
    ensures
        mantissa_of(bytes) == if bytes.contains(MINUS) {
            -(digits_value(bytes) as int)
        } else {
            digits_value(bytes) as int
        },
{
    lemma_digits_exact(bytes);
}

/// The packed word of a token with at most `MAX_SCALE` fraction digits holds the
/// number of those digits in its low eight bits. Where the mantissa fits in 56
/// bits, the remaining bits are the mantissa with its sign.
pub proof fn lemma_packed_token(bytes: Seq<u8>)
    requires
        fraction_digits(bytes) <= MAX_SCALE,
    ensures
        packed_of(bytes) & 0xff == fraction_digits(bytes),
        -0x80_0000_0000_0000 <= mantissa_of(bytes) < 0x80_0000_0000_0000 ==> packed_of(bytes) >> 8
            == mantissa_of(bytes),
{
    lemma_pack_layout(mantissa_of(bytes), scale_of(bytes));
}

} // verus!
