use vstd::prelude::*;
use crate::number::{
    two_pow, round_half_even, lemma_round_half_even_nearest, lemma_two_pow_monotone,
    lemma_two_pow_positive,
};
use vstd::arithmetic::div_mod::lemma_fundamental_div_mod_converse;
use vstd::arithmetic::div_mod::lemma_fundamental_div_mod;
use crate::text::{decimal, push_decimal, push_char};

verus! {

/// The bit pattern of `100.0f32`.
pub const PERCENT_MAX_BITS: u32 = 0x42C8_0000;

/// The bit pattern of `-0.0f32`.
pub const NEGATIVE_ZERO_BITS: u32 = 0x8000_0000;

/// The biased exponent field of the `f32` with bit pattern `b`.
pub open spec fn f32_exponent(b: u32) -> nat {
    ((b as nat) / 0x80_0000) % 0x100
}

/// The fraction field of the `f32` with bit pattern `b`.
pub open spec fn f32_fraction(b: u32) -> nat {
    (b as nat) % 0x80_0000
}

/// Whether the sign bit is set.
pub open spec fn f32_sign(b: u32) -> bool {
    b >= 0x8000_0000
}

/// Whether `b` is the bit pattern of a NaN.
pub open spec fn f32_is_nan(b: u32) -> bool {
    f32_exponent(b) == 0xff && f32_fraction(b) != 0
}

/// The bit pattern of `x.clamp(0.0, 100.0)` for the `f32` `x` with bit pattern `b`:
/// NaN and `-0.0` stay as they are (neither compares below `0.0`), other negative
/// values become `0.0`, values above `100.0` (`+inf` among them) become `100.0`.
/// Non-negative floats are ordered as their bit patterns are.
pub open spec fn clamped_percent(b: u32) -> u32 {
    if f32_is_nan(b) {
        b
    } else if b == NEGATIVE_ZERO_BITS {
        b
    } else if f32_sign(b) {
        0
    } else if b > PERCENT_MAX_BITS {
        PERCENT_MAX_BITS
    } else {
        b
    }
}

/// The nearest integer to the non-negative finite `f32` with bit pattern `b` (exponent
/// at most 150), ties to even: the value is `m * 2^-k` with `m` the significand.
pub open spec fn f32_rounded(b: u32) -> nat {
    if f32_exponent(b) == 0 {
        round_half_even(f32_fraction(b), two_pow(149))
    } else {
        round_half_even(
            f32_fraction(b) + 0x80_0000,
            two_pow((150 - f32_exponent(b)) as nat),
        )
    }
}

/// What `format!("{:.0}", x.clamp(0.0, 100.0))` prints for the `f32` `x` with bit pattern `b`.
pub open spec fn percent_digits(b: u32) -> Seq<char> {
    let c = clamped_percent(b);
    if f32_is_nan(c) {
        seq!['N', 'a', 'N']
    } else if c == NEGATIVE_ZERO_BITS {
        seq!['-', '0']
    } else {
        decimal(f32_rounded(c))
    }
}

proof fn lemma_two_pow_small()
    ensures
        two_pow(17) == 0x2_0000,
        two_pow(18) == 0x4_0000,
        two_pow(24) == 0x100_0000,
        two_pow(25) == 0x200_0000,
{
    reveal_with_fuel(two_pow, 26);
}

/// `x.clamp(0.0, 100.0)` on the bit pattern of an `f32`.
pub fn clamp_percent(bits: u32) -> (res: u32)
    ensures
        res == clamped_percent(bits),
{
    let exponent = (bits / 0x80_0000) % 0x100;
    let fraction = bits % 0x80_0000;
    if exponent == 0xff && fraction != 0 {
        bits
    } else if bits == NEGATIVE_ZERO_BITS {
        bits
    } else if bits >= 0x8000_0000 {
        0
    } else if bits > PERCENT_MAX_BITS {
        PERCENT_MAX_BITS
    } else {
        bits
    }
}

/// The nearest integer to a non-negative `f32` of at most `100.0`, ties to even.
fn rounded_percent(c: u32) -> (res: u64)
    requires
        c <= PERCENT_MAX_BITS,
    ensures
        res == f32_rounded(c),
        res <= 100,
{
    let exponent: u32 = c / 0x80_0000;
    let fraction: u64 = (c % 0x80_0000) as u64;
    assert(f32_exponent(c) == exponent);
    assert(exponent <= 0x85);
    if exponent == 0 {
        proof {
            lemma_two_pow_monotone(25, 149);
            lemma_two_pow_small();
            lemma_fundamental_div_mod_converse(fraction as int, two_pow(149) as int, 0, fraction as int);
        }
        return 0;
    }
    let k: u32 = 150 - exponent;
    let m: u64 = fraction + 0x80_0000;
    if k >= 25 {
        proof {
            lemma_two_pow_monotone(25, k as nat);
            lemma_two_pow_small();
            lemma_fundamental_div_mod_converse(m as int, two_pow(k as nat) as int, 0, m as int);
        }
        return 0;
    }
    let mut d: u64 = 1;
    let mut i: u32 = 0;
    while i < k
        invariant
            i <= k,
            k < 25,
            d == two_pow(i as nat),
            d <= 0x100_0000,
        decreases k - i,
    {
        proof {
            lemma_two_pow_monotone((i + 1) as nat, 24);
            lemma_two_pow_small();
        }
        d = d * 2;
        i = i + 1;
    }
    proof { lemma_two_pow_positive(k as nat); }
    let q = m / d;
    let r = m % d;
    let res = if r > d - r || (r == d - r && q % 2 == 1) {
        q + 1
    } else {
        q
    };
    proof {
        lemma_two_pow_small();
        if exponent == 0x85 {
            assert(d == 0x2_0000);
            assert(m <= 0xC8_0000);
            lemma_fundamental_div_mod(m as int, d as int);
            assert(m == 0x2_0000 * q + r);
            assert(q <= 100);
            assert(q == 100 ==> r == 0);
        } else {
            lemma_two_pow_monotone(18, k as nat);
            assert(q < 64) by (nonlinear_arith)
                requires q == m / d, d >= 0x4_0000, m < 0x100_0000;
        }
    }
    res
}

/// Appends `format!("{:.0}", x.clamp(0.0, 100.0))` for the `f32` `x` with bit pattern `bits`.
pub fn push_percent_digits(s: &mut String, bits: u32)
    ensures
        final(s)@ == old(s)@ + percent_digits(bits),
{
    let c = clamp_percent(bits);
    let exponent = (c / 0x80_0000) % 0x100;
    let fraction = c % 0x80_0000;
    if exponent == 0xff && fraction != 0 {
        push_char(s, 'N');
        push_char(s, 'a');
        push_char(s, 'N');
    } else if c == NEGATIVE_ZERO_BITS {
        push_char(s, '-');
        push_char(s, '0');
    } else {
        let n = rounded_percent(c);
        push_decimal(s, n);
    }
}

/// `clamp(0.0, 100.0)` on bit patterns: NaN and `-0.0` stay; a negative number becomes
/// `+0.0`; a non-negative number up to `100.0` stays; a larger one (`+inf` too)
/// becomes `100.0`. The result is never a negative number other than `-0.0`, and never
/// above `100.0`.
pub proof fn lemma_clamp_percent(b: u32)
    ensures
        f32_is_nan(b) ==> clamped_percent(b) == b,
        b == 0x8000_0000 ==> clamped_percent(b) == b,
        !f32_is_nan(b) && b > 0x8000_0000 ==> clamped_percent(b) == 0,
        b <= 0x42C8_0000 ==> clamped_percent(b) == b,
        0x42C8_0000 < b < 0x8000_0000 && !f32_is_nan(b) ==> clamped_percent(b) == 0x42C8_0000,
        !f32_is_nan(clamped_percent(b)) && clamped_percent(b) != 0x8000_0000 ==> clamped_percent(b)
            <= 0x42C8_0000,
{
}

/// The printed percentage is a nearest whole number to the clamped value, ties to even:
/// for a normal value `m * 2^-k` (`m` the significand with its leading one), the printed
/// `r` has `|m - r * 2^k| <= 2^k / 2`, and is even on an exact tie.
pub proof fn lemma_percent_nearest(b: u32)
    requires
        !f32_is_nan(clamped_percent(b)),
        clamped_percent(b) != 0x8000_0000,
        f32_exponent(clamped_percent(b)) != 0,
    ensures
        ({
            let c = clamped_percent(b);
            let m = f32_fraction(c) + 0x80_0000;
            let k = (150 - f32_exponent(c)) as nat;
            let r = f32_rounded(c);
            &&& percent_digits(b) == decimal(r)
            &&& 2 * (m - r * two_pow(k)) <= two_pow(k)
            &&& 2 * (r * two_pow(k) - m) <= two_pow(k)
            &&& (2 * (m - r * two_pow(k)) == two_pow(k) || 2 * (r * two_pow(k) - m) == two_pow(k))
                ==> r % 2 == 0
        }),
{
    let c = clamped_percent(b);
    assert(c <= 0x42C8_0000);
    assert(f32_exponent(c) <= 0x85);
    let k = (150 - f32_exponent(c)) as nat;
    lemma_two_pow_positive(k);
    lemma_round_half_even_nearest(f32_fraction(c) + 0x80_0000, two_pow(k));
}

} // verus!
