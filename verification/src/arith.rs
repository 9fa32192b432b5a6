use vstd::prelude::*;
use vstd::arithmetic::div_mod::{
    lemma_div_is_ordered, lemma_div_by_multiple, lemma_hoist_over_denominator,
    lemma_div_pos_is_pos, lemma_basic_div, lemma_fundamental_div_mod,
    lemma_fundamental_div_mod_converse_div,
};
use vstd::arithmetic::mul::{lemma_mul_inequality, lemma_mul_is_distributive_add};

verus! {

/// All rates are expressed in hundredths of a percentage point per year
/// (620 means 6.20% per year).  A monthly fraction of a balance is
/// `rate / (100 * 100 * 12)`, so this is the fixed divisor of the
/// per-period interest computation.
pub const RATE_DENOM: u64 = 120000;

/// Scale of the fixed-point accumulation factor `(1 + r)^m`.
pub const POW_SCALE: u64 = 1_000_000_000;

/// The accumulation factor saturates here.  Beyond this point the
/// annuity factor `x / (x - scale)` differs from 1 by less than a
/// billionth, so the saturation is harmless, and it keeps every
/// intermediate product inside `u128`.
pub const POW_CAP: u64 = 1_000_000_000_000_000_000;

/// Largest loan amount, in minor currency units, that the engine accepts.
pub const MAX_PRINCIPAL: u64 = 1_000_000_000_000_000;

/// Largest annual rate accepted, in hundredths of a percentage point
/// (1200.00% per year, i.e. 100% per month).
pub const MAX_RATE: u32 = 120000;

/// Largest scheduled installment count accepted.
pub const MAX_INSTALLMENTS: u32 = 10000;

/// Ceiling division, as a mathematical function.
pub open spec fn spec_ceil_div(n: int, d: int) -> int {
    (n + d - 1) / d
}

/// One step of the fixed-point accumulation: multiply by `(1 + r)` where
/// the monthly rate `r` is `a / RATE_DENOM`, rounding down, saturating at
/// `POW_CAP`.
pub open spec fn pow_step(x: int, a: int) -> int {
    let y = x * (RATE_DENOM + a) / (RATE_DENOM as int);
    if y > POW_CAP {
        POW_CAP as int
    } else {
        y
    }
}

/// Fixed-point `(1 + a/RATE_DENOM)^m`, scaled by `POW_SCALE`, computed by
/// `m` saturating steps of `pow_step`.
pub open spec fn spec_pow_scaled(a: int, m: nat) -> int
    decreases m,
{
    if m == 0 {
        POW_SCALE as int
    } else {
        pow_step(spec_pow_scaled(a, (m - 1) as nat), a)
    }
}

/// The annuity payment that amortizes a balance `p` over `m` periods at a
/// yearly rate of `a` hundredths of a percent: `p * r * (1+r)^m / ((1+r)^m - 1)`
/// in saturating fixed point, rounded up; `ceil(p / m)` when the rate is zero.
pub open spec fn spec_annuity(p: int, a: int, m: int) -> int {
    if a == 0 {
        spec_ceil_div(p, m)
    } else {
        let x = spec_pow_scaled(a, m as nat);
        spec_ceil_div(p * a * x, RATE_DENOM * (x - POW_SCALE))
    }
}

/// Interest accrued by `balance` in one period at yearly rate `rate`,
/// rounded down.
pub open spec fn spec_monthly_interest(balance: int, rate: int) -> int {
    balance * rate / (RATE_DENOM as int)
}

pub proof fn lemma_pow_bounds(a: int, m: nat)
    requires
        0 <= a <= MAX_RATE,
    ensures
        POW_SCALE <= spec_pow_scaled(a, m) <= POW_CAP,
    decreases m,
{
    if m > 0 {
        lemma_pow_bounds(a, (m - 1) as nat);
        let x = spec_pow_scaled(a, (m - 1) as nat);
        lemma_mul_inequality(POW_SCALE as int, x, RATE_DENOM + a);
        lemma_div_is_ordered(POW_SCALE * (RATE_DENOM + a), x * (RATE_DENOM + a), RATE_DENOM as int);
        lemma_div_by_multiple(POW_SCALE as int, RATE_DENOM as int);
        lemma_mul_inequality(RATE_DENOM as int, (RATE_DENOM + a) as int, POW_SCALE as int);
        lemma_div_is_ordered(POW_SCALE * RATE_DENOM, POW_SCALE * (RATE_DENOM + a), RATE_DENOM as int);
    }
}

/// The accumulation factor after at least one period at a positive rate
/// exceeds the scale by at least `POW_SCALE * a / RATE_DENOM`.
pub proof fn lemma_pow_lower(a: int, m: nat)
    requires
        1 <= a <= MAX_RATE,
        m >= 1,
    ensures
        spec_pow_scaled(a, m) >= POW_SCALE + POW_SCALE * a / (RATE_DENOM as int),
        POW_SCALE * a / (RATE_DENOM as int) >= 8333,
    decreases m,
{
    lemma_mul_inequality(1, a, POW_SCALE as int);
    lemma_div_is_ordered(POW_SCALE as int, POW_SCALE * a, RATE_DENOM as int);
    assert(POW_SCALE as int / (RATE_DENOM as int) == 8333) by {
        lemma_fundamental_div_mod_converse_div(POW_SCALE as int, RATE_DENOM as int, 8333, 40000);
    }
    assert(POW_SCALE * a == POW_SCALE as int * a);
    if m == 1 {
        lemma_mul_is_distributive_add(POW_SCALE as int, RATE_DENOM as int, a);
        lemma_hoist_over_denominator(POW_SCALE * a, POW_SCALE as int, RATE_DENOM as nat);
        assert(POW_SCALE * (RATE_DENOM + a) / (RATE_DENOM as int)
            == POW_SCALE + POW_SCALE * a / (RATE_DENOM as int));
        lemma_mul_inequality(a, MAX_RATE as int, POW_SCALE as int);
        lemma_div_is_ordered(POW_SCALE * a, POW_SCALE * (MAX_RATE as int), RATE_DENOM as int);
        assert(POW_SCALE as int * (MAX_RATE as int) / (RATE_DENOM as int) < POW_CAP) by {
            lemma_fundamental_div_mod_converse_div(
                POW_SCALE as int * (MAX_RATE as int),
                RATE_DENOM as int,
                1_000_000_000,
                0,
            );
        }
    } else {
        lemma_pow_lower(a, (m - 1) as nat);
        lemma_pow_bounds(a, (m - 1) as nat);
        let x = spec_pow_scaled(a, (m - 1) as nat);
        // one more step does not decrease the factor
        lemma_mul_inequality(RATE_DENOM as int, RATE_DENOM + a, x);
        assert(x * RATE_DENOM == RATE_DENOM as int * x);
        assert(x * (RATE_DENOM + a) == (RATE_DENOM + a) * x);
        lemma_div_is_ordered(x * RATE_DENOM, x * (RATE_DENOM + a), RATE_DENOM as int);
        lemma_div_by_multiple(x, RATE_DENOM as int);
        assert(x * RATE_DENOM == RATE_DENOM as int * x);
    }
}

/// The annuity payment covers one period of interest and never exceeds
/// three times the balance it amortizes.
pub proof fn lemma_annuity_bounds(p: int, a: int, m: int)
    requires
        0 <= p <= MAX_PRINCIPAL,
        0 <= a <= MAX_RATE,
        m >= 1,
    ensures
        spec_annuity(p, a, m) >= spec_monthly_interest(p, a),
        spec_annuity(p, a, m) >= 0,
        spec_annuity(p, a, m) <= 3 * p,
{
    if a == 0 {
        lemma_div_pos_is_pos(p + m - 1, m);
        lemma_mul_inequality(1, m, p);
        lemma_div_is_ordered(p + m - 1, p * m + m - 1, m);
        lemma_hoist_over_denominator(m - 1, p, m as nat);
        assert((m - 1) / m == 0) by {
            lemma_basic_div(m - 1, m);
        }
        assert(spec_monthly_interest(p, 0) == 0) by {
            assert(p * 0 == 0);
        }
    } else {
        let x = spec_pow_scaled(a, m as nat);
        lemma_pow_bounds(a, m as nat);
        lemma_pow_lower(a, m as nat);
        let s = POW_SCALE as int;
        let dn = RATE_DENOM as int;
        let t = s * a / dn;
        let den = dn * (x - s);
        let num = p * a * x;
        assert(x - s >= t >= 8333);
        assert(den >= dn * t >= dn) by {
            lemma_mul_inequality(t, x - s, dn);
            assert(dn * t == t * dn);
            assert(dn * (x - s) == (x - s) * dn);
            lemma_mul_inequality(1, t, dn);
            assert(dn * 1 == dn);
        }
        // f1: a * s <= den + dn
        assert(a * s <= den + dn) by {
            lemma_fundamental_div_mod(s * a, dn);
            assert(s * a == dn * t + (s * a) % dn);
            assert((s * a) % dn < dn);
            lemma_mul_inequality(t, x - s, dn);
            assert(dn * t == t * dn);
            assert(dn * (x - s) == (x - s) * dn);
            assert(a * s == s * a);
        }
        // a * x <= 3 * den
        assert(a * x <= 3 * den) by {
            assert(a * x == a * s + a * (x - s)) by {
                lemma_mul_is_distributive_add(a, s, x - s);
            }
            assert(a * (x - s) <= dn * (x - s)) by {
                lemma_mul_inequality(a, dn, x - s);
                assert(a * (x - s) == (x - s) * a);
                assert(dn * (x - s) == (x - s) * dn);
            }
        }
        // num <= 3 * p * den, hence the quotient is at most 3 * p
        assert(num <= p * (3 * den)) by {
            lemma_mul_inequality(a * x, 3 * den, p);
            assert(p * (a * x) == num) by {
                vstd::arithmetic::mul::lemma_mul_is_associative(p, a, x);
            }
            assert((a * x) * p == p * (a * x));
            assert((3 * den) * p == p * (3 * den));
        }
        assert(spec_annuity(p, a, m) <= 3 * p) by {
            lemma_div_is_ordered(num + den - 1, p * (3 * den) + den - 1, den);
            lemma_hoist_over_denominator(den - 1, 3 * p, den as nat);
            assert(p * (3 * den) == 3 * p * den) by {
                vstd::arithmetic::mul::lemma_mul_is_associative(3, p, den);
                assert(p * (3 * den) == (3 * den) * p);
                vstd::arithmetic::mul::lemma_mul_is_associative(3, den, p);
                assert(3 * (den * p) == 3 * (p * den));
                vstd::arithmetic::mul::lemma_mul_is_associative(3, p, den);
            }
            assert((den - 1) / den == 0) by {
                lemma_basic_div(den - 1, den);
            }
        }
        // the payment covers the interest: p*a/dn <= ceil(num/den)
        let q0 = p * a / dn;
        assert(q0 >= 0) by {
            vstd::arithmetic::mul::lemma_mul_nonnegative(p, a);
            lemma_div_pos_is_pos(p * a, dn);
        }
        assert(q0 * den <= num) by {
            lemma_fundamental_div_mod(p * a, dn);
            assert(dn * q0 <= p * a);
            assert(q0 * den == q0 * (dn * (x - s)));
            vstd::arithmetic::mul::lemma_mul_is_associative(q0, dn, x - s);
            assert(q0 * dn == dn * q0);
            lemma_mul_inequality(q0 * dn, p * a, x - s);
            assert((q0 * dn) * (x - s) == q0 * dn * (x - s));
            assert((p * a) * (x - s) <= (p * a) * x) by {
                lemma_mul_inequality(x - s, x, p * a);
                vstd::arithmetic::mul::lemma_mul_nonnegative(p, a);
                assert((p * a) * (x - s) == (x - s) * (p * a));
                assert((p * a) * x == x * (p * a));
            }
            vstd::arithmetic::mul::lemma_mul_is_associative(p, a, x);
        }
        assert(q0 <= spec_annuity(p, a, m)) by {
            lemma_div_is_ordered(q0 * den, num, den);
            lemma_div_by_multiple(q0, den);
            assert(den * q0 == q0 * den);
            lemma_div_is_ordered(num, num + den - 1, den);
        }
        assert(spec_annuity(p, a, m) >= 0) by {
            vstd::arithmetic::mul::lemma_mul_nonnegative(p, a);
            vstd::arithmetic::mul::lemma_mul_nonnegative(p * a, x);
            lemma_div_pos_is_pos(num + den - 1, den);
        }
        // and the interest itself relates to q0
        assert(spec_monthly_interest(p, a) == q0);
    }
}

/// Executable saturating fixed-point power.
pub fn pow_scaled(a: u32, m: u32) -> (x: u64)
    requires
        a <= MAX_RATE,
    ensures
        x == spec_pow_scaled(a as int, m as nat),
{
    let mut x: u64 = POW_SCALE;
    let mut j: u32 = 0;
    while j < m
        invariant
            a <= MAX_RATE,
            j <= m,
            x == spec_pow_scaled(a as int, j as nat),
            POW_SCALE <= x <= POW_CAP,
        decreases m - j,
    {
        proof {
            lemma_pow_bounds(a as int, (j + 1) as nat);
            assert(x as int * (RATE_DENOM + a as int) <= POW_CAP as int * (2 * RATE_DENOM)) by {
                lemma_mul_inequality(x as int, POW_CAP as int, RATE_DENOM + a as int);
                lemma_mul_inequality(RATE_DENOM + a as int, 2 * RATE_DENOM, POW_CAP as int);
                assert(POW_CAP as int * (RATE_DENOM + a as int)
                    == (RATE_DENOM + a as int) * POW_CAP as int);
                assert(POW_CAP as int * (2 * RATE_DENOM) == (2 * RATE_DENOM) * POW_CAP as int);
            }
        }
        let y: u128 = x as u128 * (RATE_DENOM as u128 + a as u128) / (RATE_DENOM as u128);
        if y > POW_CAP as u128 {
            x = POW_CAP;
        } else {
            x = y as u64;
        }
        j = j + 1;
    }
    x
}

/// Executable annuity payment.
pub fn annuity_payment(p: u64, a: u32, m: u32) -> (r: u64)
    requires
        p <= MAX_PRINCIPAL,
        a <= MAX_RATE,
        m >= 1,
    ensures
        r == spec_annuity(p as int, a as int, m as int),
        r <= 3 * p,
        r >= spec_monthly_interest(p as int, a as int),
{
    proof {
        lemma_annuity_bounds(p as int, a as int, m as int);
    }
    if a == 0 {
        ((p as u128 + m as u128 - 1) / m as u128) as u64
    } else {
        let x = pow_scaled(a, m);
        proof {
            lemma_pow_bounds(a as int, m as nat);
            lemma_pow_lower(a as int, m as nat);
            assert(p as int * a as int * x as int <= MAX_PRINCIPAL as int * (MAX_RATE as int) * (POW_CAP as int)) by {
                lemma_mul_inequality(p as int, MAX_PRINCIPAL as int, a as int);
                assert(p as int * a as int == a as int * p as int);
                lemma_mul_inequality(a as int, MAX_RATE as int, MAX_PRINCIPAL as int);
                assert(p as int * a as int <= MAX_PRINCIPAL as int * MAX_RATE as int);
                lemma_mul_inequality(p as int * a as int, MAX_PRINCIPAL as int * (MAX_RATE as int), x as int);
                assert((p as int * a as int) * x as int == x as int * (p as int * a as int));
                assert((MAX_PRINCIPAL as int * (MAX_RATE as int)) * x as int
                    == x as int * (MAX_PRINCIPAL as int * (MAX_RATE as int)));
                lemma_mul_inequality(x as int, POW_CAP as int, MAX_PRINCIPAL as int * (MAX_RATE as int));
                assert((MAX_PRINCIPAL as int * (MAX_RATE as int)) * (POW_CAP as int)
                    == MAX_PRINCIPAL as int * (MAX_RATE as int) * (POW_CAP as int));
            }
            assert(MAX_PRINCIPAL as int * (MAX_RATE as int) * (POW_CAP as int) < u128::MAX);
            vstd::arithmetic::mul::lemma_mul_nonnegative(p as int, a as int);
            vstd::arithmetic::mul::lemma_mul_nonnegative(p as int * a as int, x as int);
        }
        let num: u128 = p as u128 * a as u128 * x as u128;
        let den: u128 = RATE_DENOM as u128 * (x as u128 - POW_SCALE as u128);
        proof {
            assert(den <= RATE_DENOM as int * POW_CAP as int) by {
                lemma_mul_inequality(x as int - POW_SCALE as int, POW_CAP as int, RATE_DENOM as int);
                assert(RATE_DENOM as int * (x as int - POW_SCALE as int)
                    == (x as int - POW_SCALE as int) * RATE_DENOM as int);
                assert(RATE_DENOM as int * POW_CAP as int == POW_CAP as int * RATE_DENOM as int);
            }
            assert(den >= 1) by {
                lemma_mul_inequality(1, x as int - POW_SCALE as int, RATE_DENOM as int);
                assert(RATE_DENOM as int * (x as int - POW_SCALE as int)
                    == (x as int - POW_SCALE as int) * RATE_DENOM as int);
            }
        }
        ((num + den - 1) / den) as u64
    }
}

} // verus!
