//! Exact integer arithmetic helpers: floor division, integer square root,
//! and predicates that decide comparisons between the real square root of an
//! integer and a rational bound without ever computing the root.

use vstd::prelude::*;

verus! {

/// The integer square root: the greatest `r` with `r * r <= n`.
pub open spec fn sqrt_floor(n: nat) -> nat
    decreases n,
{
    if n == 0 {
        0
    } else {
        let r = sqrt_floor((n - 1) as nat);
        if (r + 1) * (r + 1) <= n {
            r + 1
        } else {
            r
        }
    }
}

/// `sqrt_floor(n)` brackets `n` between consecutive squares.
pub proof fn lemma_sqrt_floor(n: nat)
    ensures
        sqrt_floor(n) * sqrt_floor(n) <= n,
        n < (sqrt_floor(n) + 1) * (sqrt_floor(n) + 1),
    decreases n,
{
    if n > 0 {
        lemma_sqrt_floor((n - 1) as nat);
        let r = sqrt_floor((n - 1) as nat);
        assert(r * r <= n - 1);
        assert(n - 1 < (r + 1) * (r + 1));
        if (r + 1) * (r + 1) <= n {
            assert(sqrt_floor(n) == r + 1);
            assert(n < (r + 1 + 1) * (r + 1 + 1)) by (nonlinear_arith)
                requires
                    n <= (r + 1) * (r + 1),
                    r >= 0,
            ;
            assert(n < (sqrt_floor(n) + 1) * (sqrt_floor(n) + 1));
        } else {
            assert(sqrt_floor(n) == r);
            let s = sqrt_floor(n);
            assert(n < (s + 1) * (s + 1)) by (nonlinear_arith)
                requires
                    s == r,
                    n < (r + 1) * (r + 1),
            ;
        }
    } else {
        let s = sqrt_floor(n);
        assert(s == 0);
        assert(n < (s + 1) * (s + 1)) by (nonlinear_arith)
            requires
                n == 0,
                s == 0,
        ;
    }
}

/// Any `r` bracketed between consecutive squares around `n` is `sqrt_floor(n)`.
pub proof fn lemma_sqrt_floor_unique(n: nat, r: nat)
    requires
        r * r <= n,
        n < (r + 1) * (r + 1),
    ensures
        r == sqrt_floor(n),
{
    let s = sqrt_floor(n);
    lemma_sqrt_floor(n);
    assert(r == s) by (nonlinear_arith)
        requires
            r * r <= n,
            n < (r + 1) * (r + 1),
            s * s <= n,
            n < (s + 1) * (s + 1),
            r >= 0,
            s >= 0,
    ;
}

/// Whether the real square root of `d` is at most `k`; meaningful for `d >= 0`.
pub open spec fn sq_le(d: int, k: int) -> bool {
    0 <= k && d <= k * k
}

/// Whether the real square root of `d` is strictly below `k`; for `d >= 0`.
pub open spec fn sq_lt(d: int, k: int) -> bool {
    0 < k && d < k * k
}

/// If the root of `d` is at least `k1` and at most `k2`, then `k1 <= k2`.
pub proof fn lemma_sq_order(d: int, k1: int, k2: int)
    requires
        0 <= d,
        !sq_lt(d, k1),
        sq_le(d, k2),
    ensures
        k1 <= k2,
{
    if k1 > 0 {
        assert(k1 <= k2) by (nonlinear_arith)
            requires
                k1 * k1 <= d,
                d <= k2 * k2,
                k1 > 0,
                k2 >= 0,
        ;
    }
}

/// If the root of `d` is strictly above `k1` and at most `k2`, then `k1 < k2`.
pub proof fn lemma_sq_order_strict(d: int, k1: int, k2: int)
    requires
        0 <= d,
        !sq_le(d, k1),
        sq_le(d, k2),
    ensures
        k1 < k2,
{
    if k1 >= 0 {
        assert(k1 < k2) by (nonlinear_arith)
            requires
                k1 * k1 < d,
                d <= k2 * k2,
                k1 >= 0,
                k2 >= 0,
        ;
    }
}

/// The root of `d` cannot be both strictly below and at least `k`.
pub proof fn lemma_sq_le_monotone(d: int, k1: int, k2: int)
    requires
        0 <= d,
        sq_le(d, k1),
        k1 <= k2,
    ensures
        sq_le(d, k2),
{
    assert(d <= k2 * k2) by (nonlinear_arith)
        requires
            d <= k1 * k1,
            0 <= k1 <= k2,
    ;
}

/// Exec decision of `sq_le`.
pub fn sq_le_exec(d: i128, k: i128) -> (r: bool)
    requires
        0 <= d,
        -0x8000_0000_0000_0000 < k < 0x8000_0000_0000_0000,
    ensures
        r == sq_le(d as int, k as int),
{
    if k < 0 {
        false
    } else {
        proof {
            assert(k * k < 0x8000_0000_0000_0000_0000_0000_0000_0000int) by (nonlinear_arith)
                requires
                    0 <= k < 0x8000_0000_0000_0000,
            ;
        }
        d <= k * k
    }
}

/// Exec decision of `sq_lt`.
pub fn sq_lt_exec(d: i128, k: i128) -> (r: bool)
    requires
        0 <= d,
        -0x8000_0000_0000_0000 < k < 0x8000_0000_0000_0000,
    ensures
        r == sq_lt(d as int, k as int),
{
    if k <= 0 {
        false
    } else {
        proof {
            assert(k * k < 0x8000_0000_0000_0000_0000_0000_0000_0000int) by (nonlinear_arith)
                requires
                    0 <= k < 0x8000_0000_0000_0000,
            ;
        }
        d < k * k
    }
}

/// Integer square root of `n`, exact: returns `sqrt_floor(n)`.
pub fn isqrt(n: u128) -> (r: u64)
    requires
        n < 85070591730234615865843651857942052864u128,
    ensures
        r * r <= n,
        n < (r + 1) * (r + 1),
        r == sqrt_floor(n as nat),
{
    let mut lo: u64 = 0;
    let mut hi: u64 = 9223372036854775808u64;
    proof {
        assert((9223372036854775808int) * (9223372036854775808int)
            == 85070591730234615865843651857942052864int);
    }
    while lo + 1 < hi
        invariant
            lo < hi,
            hi <= 9223372036854775808u64,
            (lo as int) * (lo as int) <= n,
            n < (hi as int) * (hi as int),
        decreases hi - lo,
    {
        let mid = lo + (hi - lo) / 2;
        proof {
            assert((mid as int) * (mid as int) < (hi as int) * (hi as int)) by (nonlinear_arith)
                requires
                    0 <= mid < hi,
            ;
            assert((hi as int) * (hi as int)
                <= 85070591730234615865843651857942052864int) by (nonlinear_arith)
                requires
                    0 <= hi <= 9223372036854775808,
            ;
        }
        let sq: u128 = (mid as u128) * (mid as u128);
        if sq <= n {
            lo = mid;
        } else {
            hi = mid;
        }
    }
    proof {
        lemma_sqrt_floor_unique(n as nat, lo as nat);
    }
    lo
}

/// Floor division by a positive divisor: returns the unique `q` with
/// `q * b <= a < (q + 1) * b`; agrees with mathematical integer division.
pub fn floor_div(a: i128, b: i128) -> (q: i128)
    requires
        0 < b,
        -0x4000_0000_0000_0000_0000_0000_0000_0000 < a
            < 0x4000_0000_0000_0000_0000_0000_0000_0000,
    ensures
        q == a as int / b as int,
        q * b <= a < (q + 1) * b,
{
    let ghost ai = a as int;
    let ghost di = b as int;
    let q: i128;
    if a >= 0 {
        q = ((a as u128) / (b as u128)) as i128;
        proof {
            vstd::arithmetic::div_mod::lemma_fundamental_div_mod(ai, di);
        }
    } else {
        let n: u128 = (-a) as u128;
        let d: u128 = b as u128;
        let q0: u128 = n / d;
        let r0: u128 = n % d;
        proof {
            vstd::arithmetic::div_mod::lemma_fundamental_div_mod(n as int, di);
            vstd::arithmetic::div_mod::lemma_mod_division_less_than_divisor(n as int, di);
            assert(q0 <= n) by (nonlinear_arith)
                requires
                    n as int == di * q0 + r0,
                    0 <= r0 < di,
                    0 < di,
                    0 <= q0,
            ;
        }
        if r0 == 0 {
            q = -(q0 as i128);
            proof {
                // a == (-q0) * di exactly.
                assert(ai == (-(q0 as int)) * di + 0) by (nonlinear_arith)
                    requires
                        -ai == di * q0 + r0,
                        r0 == 0,
                ;
                vstd::arithmetic::div_mod::lemma_fundamental_div_mod_converse_div(
                    ai, di, -(q0 as int), 0);
            }
        } else {
            q = -(q0 as i128) - 1;
            proof {
                // a == di * (-(q0 + 1)) + (di - r0), with 0 < di - r0 < di.
                assert(ai == (-(q0 as int) - 1) * di + (di - r0)) by (nonlinear_arith)
                    requires
                        -ai == di * q0 + r0,
                        0 < r0 < di,
                ;
                vstd::arithmetic::div_mod::lemma_fundamental_div_mod_converse_div(
                    ai, di, -(q0 as int) - 1, di - r0);
            }
        }
    }
    proof {
        vstd::arithmetic::div_mod::lemma_fundamental_div_mod(ai, di);
        vstd::arithmetic::div_mod::lemma_mod_division_less_than_divisor(ai, di);
        let qq = ai / di;
        assert(qq * di <= ai < (qq + 1) * di) by (nonlinear_arith)
            requires
                ai == di * qq + ai % di,
                0 <= ai % di < di,
                0 < di,
        ;
    }
    q
}

/// Floor division on `i64` values.
pub fn floor_div_i64(a: i64, b: i64) -> (q: i64)
    requires
        0 < b,
    ensures
        q == a as int / b as int,
        q * b <= a < (q + 1) * b,
{
    let q = floor_div(a as i128, b as i128);
    proof {
        let ai = a as int;
        let d = b as int;
        let qq = ai / d;
        vstd::arithmetic::div_mod::lemma_fundamental_div_mod(ai, d);
        vstd::arithmetic::div_mod::lemma_mod_division_less_than_divisor(ai, d);
        // |a / b| never exceeds |a| for a positive divisor.
        assert(-0x8000_0000_0000_0000 <= qq < 0x8000_0000_0000_0000) by (nonlinear_arith)
            requires
                ai == d * qq + ai % d,
                0 <= ai % d < d,
                0 < d,
                -0x8000_0000_0000_0000 <= ai < 0x8000_0000_0000_0000,
        ;
    }
    q as i64
}

} // verus!
