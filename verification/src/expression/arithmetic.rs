//! The parts of integer-literal arithmetic that the analysis computes on
//! plain integers: exact division and exponentiation of literals.

use vstd::prelude::*;

verus! {

/// `base` raised to `exponent`.
pub open spec fn power(base: int, exponent: nat) -> int
    decreases exponent,
{
    if exponent == 0 {
        1
    } else {
        base * power(base, (exponent - 1) as nat)
    }
}

/// Whether a value fits in a signed 64-bit integer.
pub open spec fn fits_i64(x: int) -> bool {
    i64::MIN <= x <= i64::MAX
}

/// The quotient of two integer literals when the division is exact: `None`
/// for a zero divisor or a nonzero remainder.
pub fn divide_literals(left: i64, right: i64) -> (r: Option<i64>)
    requires
        !(left == i64::MIN && right == -1),
    ensures
        r matches Some(q) ==> q * right == left,
        r is None <==> (right == 0 || (left as int) % (right as int) != 0),
{
    if right == 0 {
        return None;
    }
    match left.checked_rem_euclid(right) {
        Some(0) => {
            match left.checked_div_euclid(right) {
                Some(q) => {
                    assert(q * right == left) by (nonlinear_arith)
                        requires
                            right != 0,
                            (left as int) % (right as int) == 0,
                            q == (left as int) / (right as int),
                    ;
                    Some(q)
                },
                None => {
                    assert(false) by (nonlinear_arith)
                        requires
                            right != 0,
                            !(left == i64::MIN && right == -1),
                            !(i64::MIN <= (left as int) / (right as int) <= i64::MAX),
                    ;
                    None
                },
            }
        },
        _ => None,
    }
}

/// Powers of a base of magnitude at least two grow at least twofold with
/// each step.
proof fn lemma_power_grows(base: int, n: nat, m: nat)
    requires
        base >= 2 || base <= -2,
        n < m,
    ensures
        2 * abs(power(base, n)) <= abs(power(base, m)),
    decreases m,
{
    let p = power(base, (m - 1) as nat);
    assert(abs(base * p) >= 2 * abs(p)) by (nonlinear_arith)
        requires
            base >= 2 || base <= -2,
    ;
    if n < m - 1 {
        lemma_power_grows(base, n, (m - 1) as nat);
    }
}

/// The powers of 0, 1 and -1.
proof fn lemma_power_small(base: int, e: nat)
    requires
        -1 <= base <= 1,
    ensures
        base == 0 ==> power(base, e) == if e == 0 {
            1int
        } else {
            0int
        },
        base == 1 ==> power(base, e) == 1,
        base == -1 ==> power(base, e) == if e % 2 == 0 {
            1int
        } else {
            -1int
        },
    decreases e,
{
    if e > 0 {
        lemma_power_small(base, (e - 1) as nat);
    }
}

/// `abs(x)`.
pub open spec fn abs(x: int) -> int {
    if x < 0 {
        -x
    } else {
        x
    }
}

/// An integer literal raised to the power of another: `None` for a negative
/// exponent, one beyond 32 bits, or a result that does not fit in 64 bits.
pub fn power_of_literals(base: i64, exponent: i64) -> (r: Option<i64>)
    ensures
        r is Some <==> (0 <= exponent <= u32::MAX && fits_i64(power(base as int, exponent as nat))),
        r matches Some(p) ==> p == power(base as int, exponent as nat),
{
    if exponent < 0 || exponent > 0xffff_ffff {
        return None;
    }
    let ghost e = exponent as nat;
    if base == 0 || base == 1 || base == -1 {
        proof {
            lemma_power_small(base as int, e);
        }
        if base == 0 {
            return if exponent == 0 {
                Some(1)
            } else {
                Some(0)
            };
        } else if base == 1 {
            return Some(1);
        } else {
            return if exponent % 2 == 0 {
                Some(1)
            } else {
                Some(-1)
            };
        }
    }
    let mut result: i64 = 1;
    let mut k: i64 = 0;
    while k < exponent
        invariant
            0 <= k <= exponent,
            e == exponent as nat,
            base >= 2 || base <= -2,
            result == power(base as int, k as nat),
        decreases exponent - k,
    {
        match result.checked_mul(base) {
            Some(next) => {
                assert(power(base as int, (k + 1) as nat) == base * power(base as int, k as nat));
                result = next;
                k = k + 1;
            },
            None => {
                proof {
                    let n = (k + 1) as nat;
                    assert(power(base as int, n) == result * base);
                    assert(!fits_i64(power(base as int, n)));
                    if n < e {
                        lemma_power_grows(base as int, n, e);
                    }
                }
                return None;
            },
        }
    }
    Some(result)
}

} // verus!
