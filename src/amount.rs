use vstd::prelude::*;
use vstd::arithmetic::div_mod::{lemma_fundamental_div_mod, lemma_fundamental_div_mod_converse};

verus! {

/// Number of decimal places that an [`Amount`] carries.
pub const AMOUNT_SCALE: u32 = 4;

/// An exact, fixed-point sum of money, counted in units of `10^-AMOUNT_SCALE`.
#[derive(Clone, Copy, Debug, PartialEq, Eq, Structural)]
pub struct Amount {
    pub units: i128,
}

/// `10^n`.
pub open spec fn pow10(n: nat) -> int
    decreases n,
{
    if n == 0 {
        1
    } else {
        10 * pow10((n - 1) as nat)
    }
}

/// The number of units that `mantissa * 10^-scale` makes, when that number is
/// whole.
pub open spec fn exact_units(mantissa: int, scale: nat) -> Option<int> {
    if scale <= AMOUNT_SCALE {
        Some(mantissa * pow10((AMOUNT_SCALE - scale) as nat))
    } else {
        let p = pow10((scale - AMOUNT_SCALE) as nat);
        if mantissa % p == 0 {
            Some(mantissa / p)
        } else {
            None
        }
    }
}

/// The amount `mantissa * 10^-scale`, where it is a whole number of units
/// that fits.
pub open spec fn amount_of_parts(mantissa: int, scale: nat) -> Option<Amount> {
    match exact_units(mantissa, scale) {
        Some(u) => if i128::MIN <= u <= i128::MAX {
            Some(Amount { units: u as i128 })
        } else {
            None
        },
        None => None,
    }
}

pub proof fn lemma_pow10_positive(n: nat)
    ensures
        pow10(n) >= 1,
    decreases n,
{
    if n > 0 {
        lemma_pow10_positive((n - 1) as nat);
    }
}

pub proof fn lemma_pow10_add(a: nat, b: nat)
    ensures
        pow10(a + b) == pow10(a) * pow10(b),
    decreases a,
{
    if a > 0 {
        lemma_pow10_add((a - 1) as nat, b);
        assert(pow10(a + b) == 10 * pow10((a - 1 + b) as nat));
        assert(10 * (pow10((a - 1) as nat) * pow10(b)) == (10 * pow10((a - 1) as nat)) * pow10(b))
            by (nonlinear_arith);
    }
}

/// A multiple of `10^n` with `n > k`, divided by `10^k`, is still a multiple of ten.
proof fn lemma_still_divisible(m: int, cur: int, k: nat, n: nat)
    requires
        m == cur * pow10(k),
        k < n,
        m % pow10(n) == 0,
    ensures
        cur % 10 == 0,
{
    let rest = (n - k - 1) as nat;
    lemma_pow10_positive(n);
    lemma_pow10_positive(k);
    lemma_pow10_add(k, (n - k) as nat);
    assert(pow10((n - k) as nat) == 10 * pow10(rest));
    lemma_fundamental_div_mod(m, pow10(n));
    let t = m / pow10(n);
    assert(m == t * pow10(n));
    let pk = pow10(k);
    let pr = pow10(rest);
    assert(cur * pk == (t * 10 * pr) * pk) by (nonlinear_arith)
        requires
            m == cur * pk,
            m == t * pow10(n),
            pow10(n) == pk * (10 * pr),
    ;
    assert(cur == t * 10 * pr) by (nonlinear_arith)
        requires
            cur * pk == (t * 10 * pr) * pk,
            pk >= 1,
    ;
    assert(cur == (t * pr) * 10 + 0) by (nonlinear_arith)
        requires
            cur == t * 10 * pr,
    ;
    lemma_fundamental_div_mod_converse(cur, 10, t * pr, 0);
}

impl Amount {
    /// The amount as a number of smallest units.
    pub open spec fn value(self) -> int {
        self.units as int
    }

    pub fn zero() -> (r: Amount)
        ensures
            r.value() == 0,
    {
        Amount { units: 0 }
    }

    pub fn from_units(units: i128) -> (r: Amount)
        ensures
            r.units == units,
    {
        Amount { units }
    }
    /// The amount `mantissa * 10^-scale` (a decimal's mantissa and scale),
    /// or `None` where it is not a whole number of units or does not fit.
    pub fn from_decimal_parts(mantissa: i128, scale: u32) -> (r: Option<Amount>)
        ensures
            r == amount_of_parts(mantissa as int, scale as nat),
    {
        if scale <= AMOUNT_SCALE {
            proof {
                reveal_with_fuel(pow10, 5);
            }
            let factor: i128 = match AMOUNT_SCALE - scale {
                0 => 1,
                1 => 10,
                2 => 100,
                3 => 1000,
                _ => 10000,
            };
            match mantissa.checked_mul(factor) {
                Some(u) => Some(Amount { units: u }),
                None => None,
            }
        } else {
            let shift: u32 = scale - AMOUNT_SCALE;
            let mut cur: i128 = mantissa;
            let mut k: u32 = 0;
            while k < shift
                invariant
                    k <= shift,
                    shift == scale - AMOUNT_SCALE,
                    scale > AMOUNT_SCALE,
                    mantissa as int == cur as int * pow10(k as nat),
                decreases shift - k,
            {
                if cur == 0 {
                    proof {
                        lemma_pow10_positive(shift as nat);
                        assert(mantissa == 0) by (nonlinear_arith)
                            requires
                                mantissa as int == cur as int * pow10(k as nat),
                                cur == 0,
                        ;
                        lemma_fundamental_div_mod_converse(0, pow10(shift as nat), 0, 0);
                    }
                    return Some(Amount { units: 0 });
                }
                let q = match cur.checked_div_euclid(10) {
                    Some(q) => q,
                    None => return None,
                };
                match q.checked_mul(10) {
                    Some(x) => {
                        if x != cur {
                            proof {
                                lemma_fundamental_div_mod(cur as int, 10);
                                if mantissa as int % pow10(shift as nat) == 0 {
                                    lemma_still_divisible(mantissa as int, cur as int, k as nat, shift as nat);
                                }
                            }
                            return None;
                        }
                    },
                    None => {
                        proof {
                            lemma_fundamental_div_mod(cur as int, 10);
                            if mantissa as int % pow10(shift as nat) == 0 {
                                lemma_still_divisible(mantissa as int, cur as int, k as nat, shift as nat);
                            }
                        }
                        return None;
                    },
                }
                proof {
                    lemma_pow10_add(k as nat, 1);
                    assert(pow10(1) == 10) by {
                        reveal_with_fuel(pow10, 2);
                    }
                    assert(cur as int * pow10(k as nat) == q as int * pow10(k as nat + 1))
                        by (nonlinear_arith)
                        requires
                            cur as int == q as int * 10,
                            pow10(k as nat + 1) == pow10(k as nat) * 10,
                    ;
                }
                cur = q;
                k = k + 1;
            }
            proof {
                lemma_pow10_positive(shift as nat);
                assert(mantissa as int == cur as int * pow10(shift as nat) + 0);
                lemma_fundamental_div_mod_converse(mantissa as int, pow10(shift as nat), cur as int, 0);
            }
            Some(Amount { units: cur })
        }
    }
}

} // verus!
