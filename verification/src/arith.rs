//! Integer arithmetic as the contracts perform it.

use vstd::prelude::*;

verus! {

/// Integer division rounded toward zero, as Rust's `/` on signed integers.
pub open spec fn div_toward_zero(x: int, d: int) -> int {
    if x == 0 {
        0
    } else if x > 0 && d > 0 {
        x / d
    } else if x < 0 && d < 0 {
        (x * -1) / (d * -1)
    } else if x < 0 {
        ((x * -1) / d) * -1
    } else {
        (x / (d * -1)) * -1
    }
}


/// Integer division rounded down (toward negative infinity): the largest
/// integer not above `x / d`.
pub open spec fn floor_div(x: int, d: int) -> int {
    if d > 0 {
        x / d
    } else {
        (x * -1) / (d * -1)
    }
}

/// Scaling numerator and (positive) denominator by the same positive
/// factor does not change the quotient.
pub proof fn lemma_div_scale(x: int, e: int, k: int)
    requires
        e > 0,
        k > 0,
    ensures
        (k * x) / (k * e) == x / e,
{
    let q = x / e;
    let r = x % e;
    vstd::arithmetic::div_mod::lemma_fundamental_div_mod(x, e);
    vstd::arithmetic::div_mod::lemma_mod_bound(x, e);
    assert(k * x == (k * e) * q + k * r && 0 <= k * r < k * e) by (nonlinear_arith)
        requires
            x == e * q + r,
            0 <= r < e,
            k > 0,
    ;
    vstd::arithmetic::div_mod::lemma_div_multiples_vanish_fancy(q, k * r, k * e);
}

/// Rounding down is unchanged when both operands are scaled by the same
/// positive factor.
pub proof fn lemma_floor_div_scale(x: int, d: int, k: int)
    requires
        d != 0,
        k > 0,
    ensures
        floor_div(k * x, k * d) == floor_div(x, d),
{
    if d > 0 {
        assert(k * d > 0) by (nonlinear_arith)
            requires
                k > 0,
                d > 0,
        ;
        lemma_div_scale(x, d, k);
    } else {
        assert(k * d < 0 && (k * x) * -1 == k * (x * -1) && (k * d) * -1 == k * (d * -1))
            by (nonlinear_arith)
            requires
                k > 0,
                d < 0,
        ;
        lemma_div_scale(x * -1, d * -1, k);
    }
}

proof fn lemma_floor_div_negative(x: int, d: int)
    requires
        d < 0,
    ensures
        floor_div(x, d) == if x % d == 0 {
            x / d
        } else {
            x / d - 1
        },
{
    let e = d * -1;
    let q = x / d;
    let r = x % d;
    vstd::arithmetic::div_mod::lemma_fundamental_div_mod(x, d);
    assert(0 <= r < e) by (nonlinear_arith)
        requires
            r == x % d,
            d < 0,
            e == d * -1,
    ;
    if r == 0 {
        assert(x * -1 == e * q) by (nonlinear_arith)
            requires
                x == d * q + r,
                r == 0,
                e == d * -1,
        ;
        vstd::arithmetic::div_mod::lemma_div_multiples_vanish(q, e);
    } else {
        assert(x * -1 == e * (q - 1) + (e - r)) by (nonlinear_arith)
            requires
                x == d * q + r,
                e == d * -1,
        ;
        vstd::arithmetic::div_mod::lemma_div_multiples_vanish_fancy(q - 1, e - r, e);
    }
}

/// `x` divided by `d`, rounded down, or `None` when the quotient leaves
/// `i128`.
pub fn checked_floor_div(x: i128, d: i128) -> (r: Option<i128>)
    requires
        d != 0,
    ensures
        r matches Some(q) ==> q == floor_div(x as int, d as int),
        r is None ==> !(i128::MIN <= floor_div(x as int, d as int) <= i128::MAX),
{
    if d > 0 {
        proof {
            vstd::arithmetic::div_mod::lemma_fundamental_div_mod(x as int, d as int);
            vstd::arithmetic::div_mod::lemma_mod_bound(x as int, d as int);
            let q = (x as int) / (d as int);
            assert(i128::MIN <= q <= i128::MAX) by (nonlinear_arith)
                requires
                    x == d * q + (x as int) % (d as int),
                    0 <= (x as int) % (d as int) < d,
                    d > 0,
                    i128::MIN <= x <= i128::MAX,
            ;
        }
        return x.checked_div_euclid(d);
    }
    proof {
        lemma_floor_div_negative(x as int, d as int);
    }
    let q = match x.checked_div_euclid(d) {
        None => {
            proof {
                assert(x == i128::MIN && d == -1) by (nonlinear_arith)
                    requires
                        !(i128::MIN <= (x as int) / (d as int) <= i128::MAX),
                        d < 0,
                        i128::MIN <= x <= i128::MAX,
                        i128::MIN <= d,
                ;
            }
            return None;
        },
        Some(q) => q,
    };
    proof {
        if x == i128::MIN && d == -1 {
            assert((x as int) / (d as int) == 0x8000_0000_0000_0000_0000_0000_0000_0000int)
                by (nonlinear_arith)
                requires
                    x == i128::MIN,
                    d == -1,
            ;
        }
        assert(0 <= (x as int) % (d as int) < (d as int) * -1) by (nonlinear_arith)
            requires
                d < 0,
        ;
    }
    let rem = match x.checked_rem_euclid(d) {
        None => return None,
        Some(m) => m,
    };
    if rem == 0 {
        Some(q)
    } else {
        q.checked_sub(1)
    }
}

} // verus!
