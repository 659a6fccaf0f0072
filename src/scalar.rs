//! Integer helpers: minimum, maximum, and division rounding toward zero as
//! Rust's `/` does.

use vstd::prelude::*;

verus! {

pub open spec fn abs(n: int) -> int {
    if n < 0 {
        -n
    } else {
        n
    }
}

pub open spec fn max_int(a: int, b: int) -> int {
    if a >= b {
        a
    } else {
        b
    }
}

pub open spec fn min_int(a: int, b: int) -> int {
    if a <= b {
        a
    } else {
        b
    }
}

/// The quotient `n / d` rounded toward zero.
pub open spec fn trunc_div(n: int, d: int) -> int {
    if (n >= 0) == (d > 0) {
        abs(n) / abs(d)
    } else {
        -(abs(n) / abs(d))
    }
}

/// Divides `n` by `d`, rounding toward zero.
pub fn div_toward_zero(n: i128, d: i128) -> (r: i128)
    requires
        d != 0,
        n > i128::MIN,
        d > i128::MIN,
    ensures
        r == trunc_div(n as int, d as int),
        abs(r as int) <= abs(n as int),
{
    let an: u128 = if n < 0 { (-n) as u128 } else { n as u128 };
    let ad: u128 = if d < 0 { (-d) as u128 } else { d as u128 };
    let q: u128 = an / ad;
    assert(q <= an) by (nonlinear_arith)
        requires q == an / ad, ad > 0;
    if (n >= 0) == (d > 0) {
        q as i128
    } else {
        -(q as i128)
    }
}

/// Rounding toward zero loses less than one whole divisor.
pub proof fn lemma_trunc_div_remainder(n: int, d: int)
    requires
        d != 0,
    ensures
        abs(n - trunc_div(n, d) * d) < abs(d),
{
    let q = abs(n) / abs(d);
    assert(abs(n) - q * abs(d) < abs(d) && abs(n) - q * abs(d) >= 0) by (nonlinear_arith)
        requires q == abs(n) / abs(d), abs(d) > 0, abs(n) >= 0;
    if d > 0 {
        if n >= 0 {
            assert(trunc_div(n, d) * d == q * abs(d));
        } else {
            assert(trunc_div(n, d) * d == -(q * abs(d))) by (nonlinear_arith)
                requires trunc_div(n, d) == -q, d == abs(d);
        }
    } else {
        if n >= 0 {
            assert(trunc_div(n, d) * d == q * abs(d)) by (nonlinear_arith)
                requires trunc_div(n, d) == -q, d == -abs(d);
        } else {
            assert(trunc_div(n, d) * d == -(q * abs(d))) by (nonlinear_arith)
                requires trunc_div(n, d) == q, d == -abs(d);
        }
    }
}

/// A quotient rounded toward zero of a value lying between `lo * d` and
/// `hi * d` lies between `lo` and `hi`.
pub proof fn lemma_trunc_div_between(n: int, d: int, lo: int, hi: int)
    requires
        d > 0,
        lo <= hi,
        lo * d <= n <= hi * d,
    ensures
        lo <= trunc_div(n, d) <= hi,
{
    if n >= 0 {
        assert(n / d <= hi) by (nonlinear_arith)
            requires d > 0, n <= hi * d, n >= 0;
        assert(lo <= n / d) by (nonlinear_arith)
            requires d > 0, lo * d <= n, n >= 0;
    } else {
        assert(-n / d <= -lo) by (nonlinear_arith)
            requires d > 0, lo * d <= n, n < 0;
        assert(-hi <= -n / d) by (nonlinear_arith)
            requires d > 0, n <= hi * d, n < 0;
    }
}

} // verus!
