use vstd::arithmetic::div_mod::lemma_small_mod;
use vstd::arithmetic::mul::lemma_mul_inequality;
use vstd::prelude::*;

verus! {

/// A JSON number in decimal form: `(-1 if !positive) * mantissa * 10^exponent`,
/// or not a number at all when `nan` is set.
#[derive(Clone, Copy, Debug, PartialEq, Eq, Structural)]
pub struct Number {
    pub positive: bool,
    pub mantissa: u64,
    pub exponent: i16,
    pub nan: bool,
}

pub open spec fn pow10(n: nat) -> nat
    decreases n,
{
    if n == 0 {
        1
    } else {
        10 * pow10((n - 1) as nat)
    }
}

/// The fractional part of `n` is zero.
pub open spec fn is_integral(n: Number) -> bool {
    !n.nan && (n.exponent >= 0 || n.mantissa as int % pow10((-n.exponent) as nat) as int == 0)
}

/// The value of an integral `n`, with its sign.
pub open spec fn integral_value(n: Number) -> int {
    let magnitude: int = if n.exponent >= 0 {
        n.mantissa * pow10(n.exponent as nat)
    } else {
        n.mantissa as int / pow10((-n.exponent) as nat) as int
    };
    if n.positive {
        magnitude
    } else {
        -magnitude
    }
}

/// The integer that `n` is, where its fractional part is zero and it fits in
/// an `i128`.
pub open spec fn integer_value(n: Number) -> Option<int> {
    if is_integral(n) && i128::MIN <= integral_value(n) <= i128::MAX {
        Some(integral_value(n))
    } else {
        None
    }
}

proof fn lemma_pow10_positive(n: nat)
    ensures
        pow10(n) >= 1,
    decreases n,
{
    if n > 0 {
        lemma_pow10_positive((n - 1) as nat);
    }
}

proof fn lemma_pow10_monotone(a: nat, b: nat)
    requires
        a <= b,
    ensures
        pow10(a) <= pow10(b),
    decreases b,
{
    if a < b {
        lemma_pow10_monotone(a, (b - 1) as nat);
        lemma_pow10_positive((b - 1) as nat);
    }
}

/// The largest magnitude of an `i128` (that of `i128::MIN`).
const I128_MAGNITUDE: u128 = 0x8000_0000_0000_0000_0000_0000_0000_0000;

impl Number {
    /// The integer this number is, when its fractional part is exactly zero
    /// and it fits in an `i128`; `None` otherwise (and for not-a-number).
    pub fn as_integer(&self) -> (r: Option<i128>)
        ensures
            r is Some == integer_value(*self) is Some,
            r is Some ==> r->0 as int == integer_value(*self)->0,
    {
        if self.nan {
            return None;
        }
        let m = self.mantissa;
        if self.exponent >= 0 {
            let e = self.exponent as u16;
            let mut acc: u128 = m as u128;
            let mut k: u16 = 0;
            while k < e
                invariant
                    !self.nan,
                    m == self.mantissa,
                    e as int == self.exponent,
                    k <= e,
                    acc == m * pow10(k as nat),
                    acc <= I128_MAGNITUDE,
                decreases e - k,
            {
                if acc > I128_MAGNITUDE / 10 {
                    proof {
                        lemma_pow10_monotone((k + 1) as nat, e as nat);
                        lemma_mul_inequality(pow10((k + 1) as nat) as int, pow10(e as nat) as int, m as int);
                        assert(m * pow10((k + 1) as nat) == acc * 10) by (nonlinear_arith)
                            requires
                                acc == m * pow10(k as nat),
                                pow10((k + 1) as nat) == 10 * pow10(k as nat),
                        ;
                        assert(pow10((k + 1) as nat) * m == m * pow10((k + 1) as nat)) by (nonlinear_arith);
                        assert(pow10(e as nat) * m == m * pow10(e as nat)) by (nonlinear_arith);
                        assert(acc * 10 > I128_MAGNITUDE);
                        assert(m * pow10(self.exponent as nat) > I128_MAGNITUDE);
                    }
                    return None;
                }
                proof {
                    assert(m * pow10((k + 1) as nat) == acc * 10) by (nonlinear_arith)
                        requires
                            acc == m * pow10(k as nat),
                            pow10((k + 1) as nat) == 10 * pow10(k as nat),
                    ;
                }
                acc = acc * 10;
                k = k + 1;
            }
            if self.positive {
                if acc == I128_MAGNITUDE {
                    return None;
                }
                Some(acc as i128)
            } else if acc == I128_MAGNITUDE {
                Some(i128::MIN)
            } else {
                Some(-(acc as i128))
            }
        } else {
            let d: u16 = (-(self.exponent as i32)) as u16;
            if d > 19 {
                proof {
                    reveal_with_fuel(pow10, 21);
                    assert(pow10(20) == 100000000000000000000);
                    lemma_pow10_monotone(20, d as nat);
                    lemma_small_mod(m as nat, pow10(d as nat));
                    let p = pow10(d as nat) as int;
                    assert(m as int / p == 0) by (nonlinear_arith)
                        requires
                            0 <= m < p,
                    ;
                }
                if m == 0 {
                    Some(0)
                } else {
                    None
                }
            } else {
                let mut p: u64 = 1;
                let mut k: u16 = 0;
                while k < d
                    invariant
                        d <= 19,
                        k <= d,
                        p == pow10(k as nat),
                        p <= pow10(19),
                    decreases d - k,
                {
                    proof {
                        lemma_pow10_monotone((k + 1) as nat, 19);
                        reveal_with_fuel(pow10, 20);
                        assert(pow10(19) == 10000000000000000000);
                    }
                    p = p * 10;
                    k = k + 1;
                }
                if m % p != 0 {
                    return None;
                }
                let q = m / p;
                if self.positive {
                    Some(q as i128)
                } else {
                    Some(-(q as i128))
                }
            }
        }
    }
}

} // verus!
