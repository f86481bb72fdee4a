//! Share/asset exchange arithmetic.
//!
//! Both directions are the same operation, `x * num / den`, with the product
//! formed at full width (no division before the multiplication) and a
//! caller-selected rounding direction.
use vstd::arithmetic::div_mod::{
    lemma_basic_div, lemma_div_denominator, lemma_div_is_ordered, lemma_div_multiples_vanish,
    lemma_fundamental_div_mod, lemma_fundamental_div_mod_converse,
};
use vstd::arithmetic::power2::{lemma2_to64, lemma_pow2_adds, lemma_pow2_pos, pow2};
use vstd::prelude::*;

verus! {

/// Largest representable amount. As an allowance it means "unlimited".
pub const AMOUNT_MAX: i128 = 0x7fff_ffff_ffff_ffff_ffff_ffff_ffff_ffff;

const HALF_RANGE: u128 = 0x8000_0000_0000_0000_0000_0000_0000_0000;

/// `x * num / den` rounded down (toward negative infinity), or up when
/// `round_up` is set and the division leaves a remainder. While either ratio
/// term is zero the exchange is one to one and `x` comes back unchanged.
pub open spec fn scaled(x: int, num: int, den: int, round_up: bool) -> int {
    if num == 0 || den == 0 {
        x
    } else if round_up && (x * num) % den != 0 {
        (x * num) / den + 1
    } else {
        (x * num) / den
    }
}

/// Whether `v` is representable as an amount (`i128`).
pub open spec fn fits_amount(v: int) -> bool {
    i128::MIN <= v <= i128::MAX
}

/// Shares worth `assets`, given the share supply and the assets held.
pub open spec fn shares_for(assets: int, supply: int, total: int, round_up: bool) -> int {
    scaled(assets, supply, total, round_up)
}

/// Assets worth `shares`, given the share supply and the assets held.
pub open spec fn assets_for(shares: int, supply: int, total: int, round_up: bool) -> int {
    scaled(shares, total, supply, round_up)
}

/// The value of a checked conversion: the exact result when it is an amount.
pub open spec fn checked(v: int) -> Option<i128> {
    if fits_amount(v) {
        Some(v as i128)
    } else {
        None
    }
}

proof fn lemma_pow2_127_128()
    ensures
        pow2(127) == HALF_RANGE,
        pow2(128) == HALF_RANGE * 2,
        pow2(1) == 2,
{
    lemma2_to64();
    lemma_pow2_adds(32, 31);
    lemma_pow2_adds(64, 63);
    lemma_pow2_adds(64, 64);
}

proof fn lemma_quotient_le(a: int, b: int, r1: int, d: int, t: int)
    requires
        a * d + b == r1 * t,
        0 <= b,
        0 <= r1 < d,
        0 <= t,
    ensures
        a <= t,
{
    assert(a <= t) by (nonlinear_arith)
        requires
            a * d + b == r1 * t,
            0 <= b,
            0 <= r1 < d,
            0 <= t,
    ;
}

proof fn lemma_carry(a: int, b: int, d: int, v: int)
    requires
        a * d + b == v,
    ensures
        (a + 1) * d + (b - d) == v,
{
    assert((a + 1) * d == a * d + d) by (nonlinear_arith);
}

proof fn lemma_div_negated(n: int, d: int)
    requires
        0 <= n,
        0 < d,
    ensures
        (-n) / d == if n % d == 0 { -(n / d) } else { -(n / d) - 1 },
        ((-n) % d == 0) == (n % d == 0),
{
    lemma_fundamental_div_mod(n, d);
    let q = n / d;
    let s = n % d;
    if s == 0 {
        assert(-n == (-q) * d + 0) by (nonlinear_arith)
            requires
                n == d * q + s,
                s == 0,
        ;
        lemma_fundamental_div_mod_converse(-n, d, -q, 0);
    } else {
        assert(-n == (-q - 1) * d + (d - s)) by (nonlinear_arith)
            requires
                n == d * q + s,
        ;
        lemma_fundamental_div_mod_converse(-n, d, -q - 1, d - s);
    }
}

/// Quotient and remainder of the full product `x * y` divided by `d`.
/// `None` when the quotient exceeds `u128`.
fn mul_div_rem(x: u128, y: u128, d: u128) -> (r: Option<(u128, u128)>)
    requires
        0 < d <= HALF_RANGE,
    ensures
        match r {
            Some((q, rem)) => q == (x * y) / (d as int) && rem == (x * y) % (d as int),
            None => (x * y) / (d as int) > u128::MAX,
        },
{
    let q1 = x / d;
    let r1 = x % d;
    // Long multiplication of r1 by y, one bit of y at a time from the top,
    // reduced modulo d as it goes: q3 * d + rem == r1 * (leading bits of y).
    let mut q3: u128 = 0;
    let mut rem: u128 = 0;
    let mut m: u128 = HALF_RANGE;
    let mut i: u32 = 0;
    proof {
        lemma_pow2_127_128();
        lemma_basic_div(y as int, pow2(128) as int);
        let z: int = (y as int) / (pow2(128) as int);
        assert(r1 * z == 0) by (nonlinear_arith)
            requires
                z == 0,
        ;
    }
    while i < 128
        invariant
            0 < d <= HALF_RANGE,
            r1 < d,
            i <= 128,
            i < 128 ==> m == pow2((127 - i) as nat),
            rem < d,
            q3 * d + rem == r1 * ((y as int) / (pow2((128 - i) as nat) as int)),
        decreases 128 - i,
    {
        let ghost p: int = (y as int) / (pow2((128 - i) as nat) as int);
        proof {
            lemma_pow2_127_128();
            lemma_pow2_adds((127 - i) as nat, 1);
            assert(((127 - i) as nat + 1) as nat == (128 - i) as nat);
            lemma_pow2_pos((127 - i) as nat);
            lemma_div_denominator(y as int, m as int, 2);
        }
        let t = y / m;
        let bit = t % 2;
        assert(t == 2 * p + bit);
        assert(r1 * t == r1 * (2 * p) + bit * r1) by (nonlinear_arith)
            requires
                t == 2 * p + bit,
        ;
        proof {
            lemma_quotient_le(q3 as int, rem as int, r1 as int, d as int, p);
        }
        let mut nq: u128 = q3 * 2;
        let mut nr: u128 = rem * 2;
        assert(nq * d + nr == r1 * (2 * p)) by (nonlinear_arith)
            requires
                nq == 2 * q3,
                nr == 2 * rem,
                q3 * d + rem == r1 * p,
        ;
        if nr >= d {
            proof {
                lemma_carry(nq as int, nr as int, d as int, r1 * (2 * p));
                lemma_quotient_le(nq + 1, nr - d, r1 as int, d as int, 2 * p);
            }
            nr = nr - d;
            nq = nq + 1;
        }
        if bit == 1 {
            nr = nr + r1;
            assert(nq * d + nr == r1 * t) by (nonlinear_arith)
                requires
                    nq * d + (nr - r1) == r1 * (2 * p),
                    r1 * t == r1 * (2 * p) + bit * r1,
                    bit == 1,
            ;
            if nr >= d {
                proof {
                    lemma_carry(nq as int, nr as int, d as int, r1 * t);
                    lemma_quotient_le(nq + 1, nr - d, r1 as int, d as int, t as int);
                }
                nr = nr - d;
                nq = nq + 1;
            }
        } else {
            assert(nq * d + nr == r1 * t) by (nonlinear_arith)
                requires
                    nq * d + nr == r1 * (2 * p),
                    r1 * t == r1 * (2 * p) + bit * r1,
                    bit == 0,
            ;
        }
        q3 = nq;
        rem = nr;
        if i < 127 {
            proof {
                lemma_pow2_adds((126 - i) as nat, 1);
                assert(((126 - i) as nat + 1) as nat == (127 - i) as nat);
            }
            m = m / 2;
        }
        i = i + 1;
        proof {
            assert(pow2((128 - i) as nat) == pow2((127 - (i - 1)) as nat));
        }
    }
    proof {
        lemma_fundamental_div_mod(x as int, d as int);
        assert(pow2(0) == 1) by {
            lemma2_to64();
        }
        assert((128 - i) as nat == 0);
        let one: int = pow2(0) as int;
        assert(one == 1);
        assert((y as int) / one == y) by (nonlinear_arith)
            requires
                one == 1,
        ;
        assert(x * y == (q1 * y + q3) * d + rem) by (nonlinear_arith)
            requires
                x == q1 * d + r1,
                q3 * d + rem == r1 * y,
        ;
        lemma_fundamental_div_mod_converse(x * y, d as int, q1 * y + q3, rem as int);
    }
    match q1.checked_mul(y) {
        None => None,
        Some(a) => match a.checked_add(q3) {
            None => None,
            Some(q) => Some((q, rem)),
        },
    }
}

/// `x * num / den` rounded as `scaled` says, or `None` when that value is
/// not representable as an amount.
pub fn scale(x: i128, num: i128, den: i128, round_up: bool) -> (r: Option<i128>)
    requires
        num >= 0,
        den >= 0,
    ensures
        r == checked(scaled(x as int, num as int, den as int, round_up)),
{
    if num == 0 || den == 0 {
        return Some(x);
    }
    let mag: u128 = if x >= 0 {
        x as u128
    } else {
        (-(x + 1)) as u128 + 1
    };
    let ghost xn: int = x * num;
    let ghost mn: int = mag * num;
    assert(mag as int == if x >= 0 { x as int } else { -x });
    assert(xn == if x >= 0 { mn } else { -mn }) by (nonlinear_arith)
        requires
            xn == x * num,
            mn == mag * num,
            mag as int == if x >= 0 { x as int } else { -x },
    ;
    match mul_div_rem(mag, num as u128, den as u128) {
        None => {
            proof {
                if x < 0 {
                    lemma_div_negated(mn, den as int);
                }
            }
            None
        },
        Some((q, rem)) => {
            if x >= 0 {
                if round_up && rem != 0 {
                    if q < HALF_RANGE - 1 {
                        Some(q as i128 + 1)
                    } else {
                        None
                    }
                } else {
                    if q < HALF_RANGE {
                        Some(q as i128)
                    } else {
                        None
                    }
                }
            } else {
                proof {
                    lemma_div_negated(mn, den as int);
                }
                let carry: u128 = if !round_up && rem != 0 {
                    1
                } else {
                    0
                };
                if q > HALF_RANGE - carry {
                    None
                } else if q + carry == HALF_RANGE {
                    Some(i128::MIN)
                } else {
                    Some(-((q + carry) as i128))
                }
            }
        },
    }
}

proof fn lemma_scale_back(x: int, n: int, d: int)
    requires
        x >= 0,
        n > 0,
        d > 0,
    ensures
        (((x * n) / d) * d) / n <= x,
{
    let a = (x * n) / d;
    lemma_fundamental_div_mod(x * n, d);
    assert(a * d <= x * n) by (nonlinear_arith)
        requires
            x * n == d * a + (x * n) % d,
            (x * n) % d >= 0,
    ;
    lemma_div_is_ordered(a * d, x * n, n);
    lemma_div_multiples_vanish(x, n);
    assert(n * x == x * n) by (nonlinear_arith);
}

/// Rounding never creates value: for non-negative amounts, shares converted
/// to assets and back, or assets converted to shares and back, rounding down
/// each time, never come back larger.
pub proof fn lemma_round_trip_never_gains(x: int, supply: int, total: int)
    requires
        x >= 0,
        supply >= 0,
        total >= 0,
    ensures
        shares_for(assets_for(x, supply, total, false), supply, total, false) <= x,
        assets_for(shares_for(x, supply, total, false), supply, total, false) <= x,
{
    if supply != 0 && total != 0 {
        lemma_scale_back(x, total, supply);
        lemma_scale_back(x, supply, total);
    }
}

} // verus!
