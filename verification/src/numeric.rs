//! Fixed-point arithmetic for the tree-search selection rule.
//!
//! The selection key is computed in 16-bit fixed point over machine
//! integers, so that the arg-max choice is an exactly specified, pure
//! function of the node statistics.

use vstd::prelude::*;

verus! {

/// The fixed-point scale: values carry 16 fractional bits.
pub const FP_SCALE: u64 = 65536;

/// `ln 2` in fixed point: `round(ln 2 * 65536)`.
pub const LN2_FP: u64 = 45426;

/// The integer square root of `x`: the unique `r` with
/// `r * r <= x < (r + 1) * (r + 1)`.
pub open spec fn spec_isqrt(x: int) -> int {
    choose|r: int| 0 <= r && #[trigger] (r * r) <= x && x < (r + 1) * (r + 1)
}

/// Any two integer square roots of the same value agree.
pub proof fn lemma_isqrt_unique(x: int, a: int, b: int)
    requires
        0 <= a,
        a * a <= x,
        x < (a + 1) * (a + 1),
        0 <= b,
        b * b <= x,
        x < (b + 1) * (b + 1),
    ensures
        a == b,
{
    assert(a == b) by (nonlinear_arith)
        requires
            0 <= a,
            a * a <= x,
            x < (a + 1) * (a + 1),
            0 <= b,
            b * b <= x,
            x < (b + 1) * (b + 1),
    ;
}

/// The integer square root, by binary search.
pub fn isqrt(x: u64) -> (r: u64)
    requires
        x < 0x4000000000000000,
    ensures
        r * r <= x < (r + 1) * (r + 1),
        r == spec_isqrt(x as int),
        r < 0x80000000,
{
    let mut lo: u64 = 0;
    let mut hi: u64 = 0x80000000;
    proof {
        assert((0x80000000u64 as int) * (0x80000000u64 as int) == 0x4000000000000000);
    }
    while lo + 1 < hi
        invariant
            lo < hi <= 0x80000000,
            (lo as int) * (lo as int) <= x,
            (x as int) < (hi as int) * (hi as int),
        decreases hi - lo,
    {
        let mid = lo + (hi - lo) / 2;
        proof {
            assert((mid as int) * (mid as int) < 0x8000000000000000) by (nonlinear_arith)
                requires
                    mid <= 0x80000000u64,
            ;
        }
        if mid * mid <= x {
            lo = mid;
        } else {
            hi = mid;
        }
    }
    proof {
        assert(hi == lo + 1);
        let lov = lo as int;
        assert(0 <= lov && lov * lov <= x && x < (lov + 1) * (lov + 1));
        assert(spec_isqrt(x as int) == lov) by {
            assert(exists|r: int| 0 <= r && #[trigger] (r * r) <= x && x < (r + 1) * (r + 1)) by {
                assert(0 <= lov && (lov * lov) <= x && x < (lov + 1) * (lov + 1));
            }
            let c = spec_isqrt(x as int);
            assert(0 <= c && c * c <= x && x < (c + 1) * (c + 1));
            lemma_isqrt_unique(x as int, lov, c);
        }
    }
    lo
}

/// `floor(log2 n)` for `n >= 1`.
pub open spec fn spec_floor_log2(n: int) -> int
    recommends
        n >= 1,
    decreases n,
{
    if n < 2 {
        0
    } else {
        1 + spec_floor_log2(n / 2)
    }
}

pub open spec fn spec_pow2(k: nat) -> int
    decreases k,
{
    if k == 0 {
        1
    } else {
        2 * spec_pow2((k - 1) as nat)
    }
}

/// `2^floor(log2 n)` brackets `n`.
pub proof fn lemma_floor_log2(n: int)
    requires
        n >= 1,
    ensures
        spec_floor_log2(n) >= 0,
        spec_pow2(spec_floor_log2(n) as nat) <= n < 2 * spec_pow2(spec_floor_log2(n) as nat),
    decreases n,
{
    if n >= 2 {
        lemma_floor_log2(n / 2);
    }
}

/// One step of the fractional-bit recurrence: square the normalized value,
/// take the overflow bit, and keep the value normalized.
pub open spec fn spec_log2_frac(z: int, k: nat) -> int
    decreases k,
{
    if k == 0 {
        0
    } else {
        let z2 = (z * z) / 65536;
        if z2 >= 131072 {
            spec_pow2((k - 1) as nat) + spec_log2_frac(z2 / 2, (k - 1) as nat)
        } else {
            spec_log2_frac(z2, (k - 1) as nat)
        }
    }
}

/// The fractional bits stay below their weight.
pub proof fn lemma_log2_frac_bounds(z: int, k: nat)
    ensures
        0 <= spec_log2_frac(z, k) < spec_pow2(k),
    decreases k,
{
    if k > 0 {
        let z2 = (z * z) / 65536;
        if z2 >= 131072 {
            lemma_log2_frac_bounds(z2 / 2, (k - 1) as nat);
        } else {
            lemma_log2_frac_bounds(z2, (k - 1) as nat);
        }
    }
}

/// `log2 n` in fixed point: the integer part in the high bits, sixteen
/// computed fractional bits below.
pub open spec fn spec_fixed_log2(n: int) -> int {
    let e = spec_floor_log2(n);
    let z = n * 65536 / spec_pow2(e as nat);
    e * 65536 + spec_log2_frac(z, 16)
}

/// `ln n` in fixed point.
pub open spec fn spec_fixed_ln(n: int) -> int {
    spec_fixed_log2(n) * 45426 / 65536
}

/// Natural logarithm in 16-bit fixed point, exactly as specified by
/// `spec_fixed_ln`.
pub fn fixed_ln(n: u64) -> (r: u64)
    requires
        1 <= n <= 0x2_0000_0000,
    ensures
        r == spec_fixed_ln(n as int),
        r <= 3_000_000,
{
    let mut e: u64 = 0;
    let mut p: u64 = 1;
    let mut m: u64 = n;
    while m >= 2
        invariant
            1 <= m <= n <= 0x2_0000_0000,
            1 <= p,
            p == spec_pow2(e as nat),
            (m as int) * (p as int) <= n,
            spec_floor_log2(n as int) == e + spec_floor_log2(m as int),
            e <= 40,
        decreases m,
    {
        proof {
            assert(2 * (p as int) <= (m as int) * (p as int)) by (nonlinear_arith)
                requires
                    m >= 2u64,
                    p >= 1u64,
            ;
            assert((m as int / 2) * (2 * p as int) <= (m as int) * (p as int)) by (nonlinear_arith)
                requires
                    p >= 1u64,
                    m >= 2u64,
            ;
            assert((p as int) <= (m as int) * (p as int)) by (nonlinear_arith)
                requires
                    p >= 1u64,
                    m >= 1u64,
            ;
            assert(e <= 33) by {
                if e >= 34 {
                    lemma_pow2_monotone(34, e as nat);
                    reveal_with_fuel(spec_pow2, 36);
                    assert(spec_pow2(34) == 0x4_0000_0000);
                }
            }
        }
        m = m / 2;
        e = e + 1;
        p = p * 2;
    }
    proof {
        lemma_floor_log2(n as int);
        assert(spec_floor_log2(m as int) == 0);
        assert(spec_floor_log2(n as int) == e);
        assert(spec_pow2(e as nat) <= n < 2 * spec_pow2(e as nat));
        assert(e <= 33) by {
            if e >= 34 {
                lemma_pow2_monotone(34, e as nat);
                reveal_with_fuel(spec_pow2, 36);
                assert(spec_pow2(34) == 0x4_0000_0000);
            }
        }
        assert((n as int) * 65536 <= 0x2_0000_0000 * 65536) by (nonlinear_arith)
            requires
                n <= 0x2_0000_0000u64,
        ;
    }
    let z0 = (n * 65536) / p;
    proof {
        lemma_norm_range(n as int, p as int);
    }
    let mut z: u64 = z0;
    let mut acc: u64 = 0;
    let mut k: u64 = 16;
    proof {
        reveal_with_fuel(spec_pow2, 18);
        assert(spec_pow2(16) == 65536);
    }
    while k > 0
        invariant
            k <= 16,
            65536 <= z < 131072,
            acc < 65536,
            acc < spec_pow2((16 - k) as nat),
            acc * spec_pow2(k as nat) + spec_log2_frac(z as int, k as nat) == spec_log2_frac(
                z0 as int,
                16,
            ),
        decreases k,
    {
        proof {
            assert((z as int) * (z as int) < 0x400000000) by (nonlinear_arith)
                requires
                    z < 131072u64,
            ;
            assert((z as int) * (z as int) >= 65536 * 65536) by (nonlinear_arith)
                requires
                    z >= 65536u64,
            ;
        }
        let z2 = (z * z) / 65536;
        let ghost old_acc = acc;
        let ghost old_z = z;
        let ghost old_k = k;
        if z2 >= 131072 {
            acc = acc * 2 + 1;
            z = z2 / 2;
        } else {
            acc = acc * 2;
            z = z2;
        }
        k = k - 1;
        proof {
            assert(spec_pow2(old_k as nat) == 2 * spec_pow2(k as nat));
            lemma_log2_frac_bounds(old_z as int, old_k as nat);
            lemma_log2_frac_bounds(z as int, k as nat);
            assert(old_acc * spec_pow2(old_k as nat) == (old_acc * 2) * spec_pow2(k as nat))
                by (nonlinear_arith)
                requires
                    spec_pow2(old_k as nat) == 2 * spec_pow2(k as nat),
            ;
            assert((old_acc * 2 + 1) * spec_pow2(k as nat) == (old_acc * 2) * spec_pow2(k as nat)
                + spec_pow2(k as nat)) by (nonlinear_arith);
            assert(acc < spec_pow2((16 - k) as nat));
            if k > 0 {
                lemma_pow2_monotone((16 - k) as nat, 15);
                reveal_with_fuel(spec_pow2, 18);
                assert(spec_pow2(15) == 32768);
            } else {
                lemma_pow2_monotone((16 - k) as nat, 16);
                reveal_with_fuel(spec_pow2, 18);
                assert(spec_pow2(16) == 65536);
            }
        }
    }
    proof {
        assert(k == 0);
        assert(acc * spec_pow2(k as nat) + spec_log2_frac(z as int, k as nat) == spec_log2_frac(
            z0 as int,
            16,
        ));
        assert(spec_pow2(0nat) == 1);
        assert(spec_log2_frac(z as int, 0nat) == 0);
        assert(acc * 1 == acc);
        assert(acc == spec_log2_frac(z0 as int, 16));
        assert(e <= 33);
        assert(acc < 65536) by {
            reveal_with_fuel(spec_pow2, 18);
        assert(spec_pow2(16) == 65536);
        }
    }
    let log2_fp = e * FP_SCALE + acc;
    let r = (log2_fp * LN2_FP) / FP_SCALE;
    proof {
        assert(r <= 3_000_000);
    }
    r
}

/// `spec_pow2` is positive.
proof fn lemma_pow2_pos(a: nat)
    ensures
        spec_pow2(a) >= 1,
    decreases a,
{
    if a > 0 {
        lemma_pow2_pos((a - 1) as nat);
    }
}

/// `spec_pow2` is monotone in its exponent.
proof fn lemma_pow2_monotone(a: nat, b: nat)
    requires
        a <= b,
    ensures
        1 <= spec_pow2(a) <= spec_pow2(b),
    decreases b,
{
    lemma_pow2_pos(a);
    if a < b {
        lemma_pow2_monotone(a, (b - 1) as nat);
    }
}

/// The normalized mantissa lies in `[65536, 131072)`.
proof fn lemma_norm_range(n: int, p: int)
    requires
        1 <= p <= n < 2 * p,
    ensures
        65536 <= n * 65536 / p < 131072,
{
    assert(n * 65536 >= p * 65536) by (nonlinear_arith)
        requires
            n >= p,
            p >= 1,
    ;
    assert(n * 65536 / p >= 65536) by (nonlinear_arith)
        requires
            n * 65536 >= p * 65536,
            p >= 1,
    ;
    assert(n * 65536 < p * 131072) by (nonlinear_arith)
        requires
            n < 2 * p,
            p >= 1,
    ;
    assert(n * 65536 / p < 131072) by (nonlinear_arith)
        requires
            n * 65536 < p * 131072,
            p >= 1,
    ;
}

/// The selection key: a monotone fixed-point transform of the upper
/// confidence bound `score/visits + 2 * sqrt(ln(parent)/visits)`, shifted to
/// be non-negative. Higher is better; the arg-max is a pure function of the
/// statistics.
pub open spec fn spec_ucb1_key(score: int, visits: int, parent_visits: int) -> int {
    (score + visits) * 65536 / visits + 2 * spec_isqrt(
        spec_fixed_ln(parent_visits) * 65536 / visits,
    )
}

/// Compute the selection key exactly as specified.
pub fn ucb1_key(score: i64, visits: u64, parent_visits: u64) -> (r: u64)
    requires
        1 <= visits <= 0x2_0000_0000,
        1 <= parent_visits <= 0x2_0000_0000,
        -(visits as int) <= score <= visits as int,
    ensures
        r == spec_ucb1_key(score as int, visits as int, parent_visits as int),
{
    let shifted: u64 = (score + visits as i64) as u64;
    proof {
        assert(shifted <= 0x4_0000_0000);
    }
    let exploit = (shifted * 65536) / visits;
    let lnp = fixed_ln(parent_visits);
    let arg = (lnp * 65536) / visits;
    proof {
        assert(lnp * 65536 <= 3_000_000 * 65536) by (nonlinear_arith)
            requires
                lnp <= 3_000_000u64,
        ;
        vstd::arithmetic::div_mod::lemma_div_is_ordered(
            lnp as int * 65536,
            196_608_000_000int,
            visits as int,
        );
        vstd::arithmetic::div_mod::lemma_div_nonincreasing(196_608_000_000int, visits as int);
    }
    let bonus = isqrt(arg);
    exploit + 2 * bonus
}

} // verus!
