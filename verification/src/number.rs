use vstd::prelude::*;
use vstd::arithmetic::div_mod::lemma_div_denominator;
use vstd::arithmetic::div_mod::lemma_fundamental_div_mod;

verus! {

/// `2` raised to `k`.
pub open spec fn two_pow(k: nat) -> nat
    decreases k,
{
    if k == 0 {
        1
    } else {
        2 * two_pow((k - 1) as nat)
    }
}

/// `n / d` rounded to the nearest integer, ties to the even neighbour.
pub open spec fn round_half_even(n: nat, d: nat) -> nat {
    let q = n / d;
    let r = n % d;
    if 2 * r > d || (2 * r == d && q % 2 == 1) {
        q + 1
    } else {
        q
    }
}

/// The spacing of `f64` values around `n`: `1` below `2^53`, doubling with each bit above.
pub open spec fn f64_spacing(n: nat) -> nat
    decreases n,
{
    if n < 0x20_0000_0000_0000 {
        1
    } else {
        2 * f64_spacing(n / 2)
    }
}

/// The integer that `n as f64` denotes: `n` rounded to 53 significant bits, ties to even.
pub open spec fn f64_of(n: nat) -> nat {
    round_half_even(n, f64_spacing(n)) * f64_spacing(n)
}

pub proof fn lemma_two_pow_positive(k: nat)
    ensures
        two_pow(k) >= 1,
    decreases k,
{
    if k > 0 {
        lemma_two_pow_positive((k - 1) as nat);
    }
}

pub proof fn lemma_two_pow_monotone(j: nat, k: nat)
    requires
        j <= k,
    ensures
        two_pow(j) <= two_pow(k),
    decreases k,
{
    if j < k {
        lemma_two_pow_monotone(j, (k - 1) as nat);
        lemma_two_pow_positive((k - 1) as nat);
    }
}

/// `round_half_even` on machine words.
pub fn round_half_even_u128(n: u128, d: u128) -> (res: u128)
    requires
        d > 0,
        n / d < u128::MAX,
    ensures
        res == round_half_even(n as nat, d as nat),
        res <= n / d + 1,
{
    let q = n / d;
    let r = n % d;
    assert(r < d);
    let half_up = if r > d - r {
        true
    } else if r == d - r {
        q % 2 == 1
    } else {
        false
    };
    if half_up {
        q + 1
    } else {
        q
    }
}

/// The integer value of `n as f64`.
pub fn f64_value(n: u64) -> (res: u128)
    ensures
        res == f64_of(n as nat),
        res <= 0x1_0000_0000_0000_1000,
{
    let mut m: u64 = n;
    let mut p: u64 = 1;
    while m >= 0x20_0000_0000_0000
        invariant
            1 <= p <= 0x1000,
            m as nat == (n as nat) / (p as nat),
            f64_spacing(n as nat) == (p as nat) * f64_spacing(m as nat),
            (p as nat) * (m as nat) <= n,
        decreases m,
    {
        proof {
            lemma_div_denominator(n as int, p as int, 2);
            assert(f64_spacing(m as nat) == 2 * f64_spacing((m / 2) as nat));
            assert((p as nat) * (2 * f64_spacing((m / 2) as nat)) == (p as nat * 2) * f64_spacing((m / 2) as nat)) by (nonlinear_arith);
            lemma_fundamental_div_mod(m as int, 2);
            assert((p as nat * 2) * ((m / 2) as nat) <= (p as nat) * (m as nat)) by (nonlinear_arith)
                requires (m / 2) * 2 <= m;
            assert(p as nat * (m as nat) >= p as nat * 0x20_0000_0000_0000) by (nonlinear_arith)
                requires m >= 0x20_0000_0000_0000;
            assert(p < 0x800) by (nonlinear_arith)
                requires p as nat * 0x20_0000_0000_0000 <= n, n < 0x1_0000_0000_0000_0000;
        }
        m = m / 2;
        p = p * 2;
    }
    assert(f64_spacing(m as nat) == 1);
    let ghost s = f64_spacing(n as nat);
    assert((p as nat) * 1 == p as nat);
    assert(s == p);
    let q = round_half_even_u128(n as u128, p as u128);
    proof {
        lemma_fundamental_div_mod(n as int, p as int);
        assert((p as int) * ((n as int) / (p as int)) == ((n as int) / (p as int)) * (p as int)) by (nonlinear_arith);
        assert(q <= (n as nat) / (p as nat) + 1);
        assert(((n as nat) / (p as nat) + 1) * (p as nat) <= n as nat + p as nat) by (nonlinear_arith)
            requires (n as nat) / (p as nat) * (p as nat) <= n as nat;
        assert((q as nat) * (p as nat) <= ((n as nat) / (p as nat) + 1) * (p as nat)) by (nonlinear_arith)
            requires q <= (n as nat) / (p as nat) + 1;
    }
    q * (p as u128)
}

/// `round_half_even(n, d)` is a nearest integer to `n / d`: it lies within half of `d`
/// of `n` once scaled by `d`, and on an exact tie it is even.
pub proof fn lemma_round_half_even_nearest(n: nat, d: nat)
    requires
        d > 0,
    ensures
        2 * (n - round_half_even(n, d) * d) <= d,
        2 * (round_half_even(n, d) * d - n) <= d,
        2 * (n - round_half_even(n, d) * d) == d || 2 * (round_half_even(n, d) * d - n) == d
            ==> round_half_even(n, d) % 2 == 0,
{
    let q = n / d;
    let r = n % d;
    lemma_fundamental_div_mod(n as int, d as int);
    assert(n == d * q + r);
    assert(0 <= r < d);
    let res = round_half_even(n, d);
    if 2 * r > d || (2 * r == d && q % 2 == 1) {
        assert(res == q + 1);
        assert(res * d == q * d + d) by (nonlinear_arith)
            requires res == q + 1;
        assert(d * q == q * d) by (nonlinear_arith);
    } else {
        assert(res == q);
        assert(d * q == q * d) by (nonlinear_arith);
    }
}

/// Integers below `2^53` are `f64` values exactly, and every `n` is within half of the
/// spacing of its `f64` value.
pub proof fn lemma_f64_of_near(n: nat)
    ensures
        n < 0x20_0000_0000_0000 ==> f64_of(n) == n,
        f64_spacing(n) >= 1,
        2 * (n - f64_of(n)) <= f64_spacing(n),
        2 * (f64_of(n) - n) <= f64_spacing(n),
{
    lemma_spacing_positive(n);
    lemma_round_half_even_nearest(n, f64_spacing(n));
    if n < 0x20_0000_0000_0000 {
        assert(f64_spacing(n) == 1);
        lemma_fundamental_div_mod(n as int, 1);
    }
}

proof fn lemma_spacing_positive(n: nat)
    ensures
        f64_spacing(n) >= 1,
    decreases n,
{
    if n >= 0x20_0000_0000_0000 {
        lemma_spacing_positive(n / 2);
    }
}

} // verus!
