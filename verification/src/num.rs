//! Exact decimal numbers for the calculator.
//!
//! A value is either finite — a mantissa scaled by `SCALE`, giving fifteen
//! decimal places — or one of the three special values that arithmetic on
//! machine floats produces: positive infinity, negative infinity, and
//! not-a-number. The special values propagate through every operation the
//! way their float counterparts do: a result too large to represent
//! saturates to an infinity, division by zero yields an infinity or NaN,
//! and NaN taints everything it touches while comparing unequal to
//! everything, itself included.
use vstd::prelude::*;

verus! {

/// Mantissa scale: one unit of the last place is `1 / SCALE`.
pub const SCALE: i128 = 1_000_000_000_000_000;

/// A number: a scaled mantissa, or one of the float-like special values.
#[derive(Debug, Clone, Copy, PartialEq, Eq, Structural)]
pub enum Num {
    /// A finite value; the numeric value is the mantissa divided by `SCALE`.
    Fin(i128),
    /// Positive infinity.
    Inf,
    /// Negative infinity.
    NegInf,
    /// Not a number.
    NaN,
}

/// Magnitude of a mathematical integer.
pub open spec fn abs_int(v: int) -> int {
    if v >= 0 {
        v
    } else {
        -v
    }
}

/// Largest mantissa a finite value may carry after an operation.
pub open spec fn max_m() -> int {
    i128::MAX as int
}

/// Clamp a mathematical mantissa into a `Num`, saturating to an infinity.
pub open spec fn sat(v: int) -> Num {
    if v > max_m() {
        Num::Inf
    } else if v < -max_m() {
        Num::NegInf
    } else {
        Num::Fin(v as i128)
    }
}

/// Rebuild a value from its sign and magnitude, saturating to an infinity.
pub open spec fn sat_mag(neg: bool, m: int) -> Num {
    if neg {
        sat(-m)
    } else {
        sat(m)
    }
}

pub open spec fn spec_is_nan(a: Num) -> bool {
    a is NaN
}

pub open spec fn spec_neg(a: Num) -> Num {
    match a {
        Num::Fin(m) => sat(-(m as int)),
        Num::Inf => Num::NegInf,
        Num::NegInf => Num::Inf,
        Num::NaN => Num::NaN,
    }
}

pub open spec fn spec_add(a: Num, b: Num) -> Num {
    match (a, b) {
        (Num::NaN, _) => Num::NaN,
        (_, Num::NaN) => Num::NaN,
        (Num::Inf, Num::NegInf) => Num::NaN,
        (Num::NegInf, Num::Inf) => Num::NaN,
        (Num::Inf, _) => Num::Inf,
        (_, Num::Inf) => Num::Inf,
        (Num::NegInf, _) => Num::NegInf,
        (_, Num::NegInf) => Num::NegInf,
        (Num::Fin(x), Num::Fin(y)) => sat(x + y),
    }
}

pub open spec fn spec_sub(a: Num, b: Num) -> Num {
    spec_add(a, spec_neg(b))
}

/// Truncated division of magnitudes: the quotient is rounded toward zero.
pub open spec fn spec_mul(a: Num, b: Num) -> Num {
    match (a, b) {
        (Num::NaN, _) => Num::NaN,
        (_, Num::NaN) => Num::NaN,
        (Num::Fin(x), Num::Inf) => if x == 0 {
            Num::NaN
        } else if x > 0 {
            Num::Inf
        } else {
            Num::NegInf
        },
        (Num::Fin(x), Num::NegInf) => if x == 0 {
            Num::NaN
        } else if x > 0 {
            Num::NegInf
        } else {
            Num::Inf
        },
        (Num::Inf, Num::Fin(y)) => if y == 0 {
            Num::NaN
        } else if y > 0 {
            Num::Inf
        } else {
            Num::NegInf
        },
        (Num::NegInf, Num::Fin(y)) => if y == 0 {
            Num::NaN
        } else if y > 0 {
            Num::NegInf
        } else {
            Num::Inf
        },
        (Num::Inf, Num::Inf) => Num::Inf,
        (Num::Inf, Num::NegInf) => Num::NegInf,
        (Num::NegInf, Num::Inf) => Num::NegInf,
        (Num::NegInf, Num::NegInf) => Num::Inf,
        (Num::Fin(x), Num::Fin(y)) => if abs_int(x as int) * abs_int(y as int) > u128::MAX as int {
            if (x < 0) != (y < 0) {
                Num::NegInf
            } else {
                Num::Inf
            }
        } else {
            sat_mag(
                (x < 0) != (y < 0),
                (abs_int(x as int) * abs_int(y as int)) / (SCALE as int),
            )
        },
    }
}

pub open spec fn spec_div(a: Num, b: Num) -> Num {
    match (a, b) {
        (Num::NaN, _) => Num::NaN,
        (_, Num::NaN) => Num::NaN,
        (Num::Inf, Num::Inf) => Num::NaN,
        (Num::Inf, Num::NegInf) => Num::NaN,
        (Num::NegInf, Num::Inf) => Num::NaN,
        (Num::NegInf, Num::NegInf) => Num::NaN,
        (Num::Inf, Num::Fin(y)) => if y < 0 {
            Num::NegInf
        } else {
            Num::Inf
        },
        (Num::NegInf, Num::Fin(y)) => if y < 0 {
            Num::Inf
        } else {
            Num::NegInf
        },
        (Num::Fin(x), Num::Inf) => Num::Fin(0),
        (Num::Fin(x), Num::NegInf) => Num::Fin(0),
        (Num::Fin(x), Num::Fin(y)) => if y == 0 {
            if x == 0 {
                Num::NaN
            } else if x > 0 {
                Num::Inf
            } else {
                Num::NegInf
            }
        } else if abs_int(x as int) * (SCALE as int) > u128::MAX as int {
            if (x < 0) != (y < 0) {
                Num::NegInf
            } else {
                Num::Inf
            }
        } else {
            sat_mag(
                (x < 0) != (y < 0),
                (abs_int(x as int) * (SCALE as int)) / abs_int(y as int),
            )
        },
    }
}

/// Remainder with the sign of the dividend, as the float `%` computes it.
pub open spec fn spec_rem(a: Num, b: Num) -> Num {
    match (a, b) {
        (Num::NaN, _) => Num::NaN,
        (_, Num::NaN) => Num::NaN,
        (Num::Inf, _) => Num::NaN,
        (Num::NegInf, _) => Num::NaN,
        (Num::Fin(x), Num::Inf) => Num::Fin(x),
        (Num::Fin(x), Num::NegInf) => Num::Fin(x),
        (Num::Fin(x), Num::Fin(y)) => if y == 0 {
            Num::NaN
        } else {
            sat_mag(x < 0, abs_int(x as int) % abs_int(y as int))
        },
    }
}

pub open spec fn spec_num_eq(a: Num, b: Num) -> bool {
    match (a, b) {
        (Num::Fin(x), Num::Fin(y)) => x == y,
        (Num::Inf, Num::Inf) => true,
        (Num::NegInf, Num::NegInf) => true,
        _ => false,
    }
}

pub open spec fn spec_lt(a: Num, b: Num) -> bool {
    match (a, b) {
        (Num::NaN, _) => false,
        (_, Num::NaN) => false,
        (Num::NegInf, Num::NegInf) => false,
        (Num::NegInf, _) => true,
        (_, Num::NegInf) => false,
        (_, Num::Inf) => !(a is Inf),
        (Num::Inf, _) => false,
        (Num::Fin(x), Num::Fin(y)) => x < y,
    }
}

pub open spec fn spec_le(a: Num, b: Num) -> bool {
    spec_lt(a, b) || spec_num_eq(a, b)
}

pub open spec fn spec_abs(a: Num) -> Num {
    match a {
        Num::Fin(m) => sat(abs_int(m as int)),
        Num::Inf => Num::Inf,
        Num::NegInf => Num::Inf,
        Num::NaN => Num::NaN,
    }
}

/// Round toward negative infinity to a whole number of units.
pub open spec fn spec_floor(a: Num) -> Num {
    match a {
        Num::Fin(m) => if m >= 0 {
            sat((abs_int(m as int) / (SCALE as int)) * (SCALE as int))
        } else {
            sat(-(((abs_int(m as int) + (SCALE as int - 1)) / (SCALE as int)) * (SCALE as int)))
        },
        _ => a,
    }
}

/// Round toward positive infinity to a whole number of units.
pub open spec fn spec_ceil(a: Num) -> Num {
    match a {
        Num::Fin(m) => if m >= 0 {
            sat(((abs_int(m as int) + (SCALE as int - 1)) / (SCALE as int)) * (SCALE as int))
        } else {
            sat(-((abs_int(m as int) / (SCALE as int)) * (SCALE as int)))
        },
        _ => a,
    }
}

/// The smaller operand; a NaN loses to anything, as with float `min`.
pub open spec fn spec_min2(a: Num, b: Num) -> Num {
    if a is NaN {
        b
    } else if b is NaN {
        a
    } else if spec_lt(b, a) {
        b
    } else {
        a
    }
}

/// The larger operand; a NaN loses to anything, as with float `max`.
pub open spec fn spec_max2(a: Num, b: Num) -> Num {
    if a is NaN {
        b
    } else if b is NaN {
        a
    } else if spec_lt(a, b) {
        b
    } else {
        a
    }
}

/// Conversion to an index, as a float-to-unsigned cast behaves:
/// truncation toward zero, with NaN and everything below zero collapsing
/// to zero and everything above the range to the largest index.
pub open spec fn spec_index_of(a: Num) -> int {
    match a {
        Num::NaN => 0,
        Num::NegInf => 0,
        Num::Inf => usize::MAX as int,
        Num::Fin(m) => if m <= 0 {
            0
        } else if abs_int(m as int) / (SCALE as int) > usize::MAX as int {
            usize::MAX as int
        } else {
            abs_int(m as int) / (SCALE as int)
        },
    }
}

/// Raise to a whole non-negative power by repeated squaring; each step
/// multiplies with `spec_mul`, so truncation and saturation accumulate
/// exactly as the executable code computes them.
pub open spec fn spec_pow_nat(a: Num, n: nat) -> Num
    decreases n,
{
    if n == 0 {
        Num::Fin(SCALE as i128)
    } else if n % 2 == 0 {
        let h = spec_pow_nat(a, n / 2);
        spec_mul(h, h)
    } else {
        spec_mul(a, spec_pow_nat(a, (n - 1) as nat))
    }
}

/// The power operator. Only whole exponents are computed; one is
/// returned whenever the exponent is zero or the base is one, and any
/// other fractional or special exponent yields NaN.
pub open spec fn spec_powf(a: Num, b: Num) -> Num {
    match b {
        Num::Fin(mb) => if mb == 0 {
            Num::Fin(SCALE as i128)
        } else if a == Num::Fin(SCALE as i128) {
            Num::Fin(SCALE as i128)
        } else if a is NaN {
            Num::NaN
        } else if abs_int(mb as int) % (SCALE as int) != 0 {
            Num::NaN
        } else {
            let p = spec_pow_nat(a, (abs_int(mb as int) / (SCALE as int)) as nat);
            if mb > 0 {
                p
            } else {
                spec_div(Num::Fin(SCALE as i128), p)
            }
        },
        _ => if a == Num::Fin(SCALE as i128) {
            Num::Fin(SCALE as i128)
        } else {
            Num::NaN
        },
    }
}

/// Magnitude of a mantissa, wide enough to hold `|i128::MIN|`.
fn mag(a: i128) -> (r: u128)
    ensures
        r == abs_int(a as int),
{
    if a >= 0 {
        a as u128
    } else {
        ((-(a + 1)) as u128) + 1
    }
}

/// Rebuild a value from its sign and magnitude, saturating to an infinity.
fn unmag(neg: bool, m: u128) -> (r: Num)
    ensures
        r == sat_mag(neg, m as int),
{
    if m > i128::MAX as u128 {
        if neg {
            Num::NegInf
        } else {
            Num::Inf
        }
    } else {
        if neg {
            Num::Fin(-(m as i128))
        } else {
            Num::Fin(m as i128)
        }
    }
}

impl Num {
    /// The value one.
    pub fn one() -> (r: Num)
        ensures
            r == Num::Fin(SCALE as i128),
    {
        Num::Fin(SCALE)
    }

    pub fn is_nan(&self) -> (r: bool)
        ensures
            r == spec_is_nan(*self),
    {
        match self {
            Num::NaN => true,
            _ => false,
        }
    }

    pub fn neg(&self) -> (r: Num)
        ensures
            r == spec_neg(*self),
    {
        match *self {
            Num::Fin(m) => {
                let r = unmag(m > 0, mag(m));
                proof {
                    assert(sat_mag(m > 0, abs_int(m as int)) == sat(-(m as int)));
                }
                r
            }
            Num::Inf => Num::NegInf,
            Num::NegInf => Num::Inf,
            Num::NaN => Num::NaN,
        }
    }

    pub fn plus(&self, other: &Num) -> (r: Num)
        ensures
            r == spec_add(*self, *other),
    {
        match (*self, *other) {
            (Num::NaN, _) => Num::NaN,
            (_, Num::NaN) => Num::NaN,
            (Num::Inf, Num::NegInf) => Num::NaN,
            (Num::NegInf, Num::Inf) => Num::NaN,
            (Num::Inf, _) => Num::Inf,
            (_, Num::Inf) => Num::Inf,
            (Num::NegInf, _) => Num::NegInf,
            (_, Num::NegInf) => Num::NegInf,
            (Num::Fin(x), Num::Fin(y)) => match x.checked_add(y) {
                Some(s) => if s == i128::MIN {
                    Num::NegInf
                } else {
                    Num::Fin(s)
                },
                None => {
                    if x > 0 {
                        Num::Inf
                    } else {
                        Num::NegInf
                    }
                }
            },
        }
    }

    pub fn minus(&self, other: &Num) -> (r: Num)
        ensures
            r == spec_sub(*self, *other),
    {
        self.plus(&other.neg())
    }

    pub fn times(&self, other: &Num) -> (r: Num)
        ensures
            r == spec_mul(*self, *other),
    {
        match (*self, *other) {
            (Num::NaN, _) => Num::NaN,
            (_, Num::NaN) => Num::NaN,
            (Num::Fin(x), Num::Inf) => if x == 0 {
                Num::NaN
            } else if x > 0 {
                Num::Inf
            } else {
                Num::NegInf
            },
            (Num::Fin(x), Num::NegInf) => if x == 0 {
                Num::NaN
            } else if x > 0 {
                Num::NegInf
            } else {
                Num::Inf
            },
            (Num::Inf, Num::Fin(y)) => if y == 0 {
                Num::NaN
            } else if y > 0 {
                Num::Inf
            } else {
                Num::NegInf
            },
            (Num::NegInf, Num::Fin(y)) => if y == 0 {
                Num::NaN
            } else if y > 0 {
                Num::NegInf
            } else {
                Num::Inf
            },
            (Num::Inf, Num::Inf) => Num::Inf,
            (Num::Inf, Num::NegInf) => Num::NegInf,
            (Num::NegInf, Num::Inf) => Num::NegInf,
            (Num::NegInf, Num::NegInf) => Num::Inf,
            (Num::Fin(x), Num::Fin(y)) => {
                let neg = (x < 0) != (y < 0);
                match mag(x).checked_mul(mag(y)) {
                    Some(p) => unmag(neg, p / (SCALE as u128)),
                    None => {
                        if neg {
                            Num::NegInf
                        } else {
                            Num::Inf
                        }
                    }
                }
            }
        }
    }

    pub fn divide(&self, other: &Num) -> (r: Num)
        ensures
            r == spec_div(*self, *other),
    {
        match (*self, *other) {
            (Num::NaN, _) => Num::NaN,
            (_, Num::NaN) => Num::NaN,
            (Num::Inf, Num::Inf) => Num::NaN,
            (Num::Inf, Num::NegInf) => Num::NaN,
            (Num::NegInf, Num::Inf) => Num::NaN,
            (Num::NegInf, Num::NegInf) => Num::NaN,
            (Num::Inf, Num::Fin(y)) => if y < 0 {
                Num::NegInf
            } else {
                Num::Inf
            },
            (Num::NegInf, Num::Fin(y)) => if y < 0 {
                Num::Inf
            } else {
                Num::NegInf
            },
            (Num::Fin(x), Num::Inf) => Num::Fin(0),
            (Num::Fin(x), Num::NegInf) => Num::Fin(0),
            (Num::Fin(x), Num::Fin(y)) => {
                if y == 0 {
                    if x == 0 {
                        Num::NaN
                    } else if x > 0 {
                        Num::Inf
                    } else {
                        Num::NegInf
                    }
                } else {
                    let neg = (x < 0) != (y < 0);
                    match mag(x).checked_mul(SCALE as u128) {
                        Some(p) => unmag(neg, p / mag(y)),
                        None => {
                            if neg {
                                Num::NegInf
                            } else {
                                Num::Inf
                            }
                        }
                    }
                }
            }
        }
    }

    pub fn rem(&self, other: &Num) -> (r: Num)
        ensures
            r == spec_rem(*self, *other),
    {
        match (*self, *other) {
            (Num::NaN, _) => Num::NaN,
            (_, Num::NaN) => Num::NaN,
            (Num::Inf, _) => Num::NaN,
            (Num::NegInf, _) => Num::NaN,
            (Num::Fin(x), Num::Inf) => Num::Fin(x),
            (Num::Fin(x), Num::NegInf) => Num::Fin(x),
            (Num::Fin(x), Num::Fin(y)) => {
                if y == 0 {
                    Num::NaN
                } else {
                    unmag(x < 0, mag(x) % mag(y))
                }
            }
        }
    }

    pub fn eq_num(&self, other: &Num) -> (r: bool)
        ensures
            r == spec_num_eq(*self, *other),
    {
        match (*self, *other) {
            (Num::Fin(x), Num::Fin(y)) => x == y,
            (Num::Inf, Num::Inf) => true,
            (Num::NegInf, Num::NegInf) => true,
            _ => false,
        }
    }

    pub fn lt(&self, other: &Num) -> (r: bool)
        ensures
            r == spec_lt(*self, *other),
    {
        match (*self, *other) {
            (Num::NaN, _) => false,
            (_, Num::NaN) => false,
            (Num::NegInf, Num::NegInf) => false,
            (Num::NegInf, _) => true,
            (_, Num::NegInf) => false,
            (Num::Inf, _) => false,
            (_, Num::Inf) => true,
            (Num::Fin(x), Num::Fin(y)) => x < y,
        }
    }

    pub fn le(&self, other: &Num) -> (r: bool)
        ensures
            r == spec_le(*self, *other),
    {
        self.lt(other) || self.eq_num(other)
    }

    pub fn abs(&self) -> (r: Num)
        ensures
            r == spec_abs(*self),
    {
        match *self {
            Num::Fin(m) => unmag(false, mag(m)),
            Num::Inf => Num::Inf,
            Num::NegInf => Num::Inf,
            Num::NaN => Num::NaN,
        }
    }

    pub fn floor(&self) -> (r: Num)
        ensures
            r == spec_floor(*self),
    {
        match *self {
            Num::Fin(m) => {
                if m >= 0 {
                    let q = mag(m) / (SCALE as u128);
                    proof {
                        lemma_trunc_le(abs_int(m as int), SCALE as int);
                    }
                    unmag(false, q * (SCALE as u128))
                } else {
                    let s = mag(m) + ((SCALE as u128) - 1);
                    let q = s / (SCALE as u128);
                    proof {
                        lemma_trunc_le(abs_int(m as int) + (SCALE as int - 1), SCALE as int);
                    }
                    unmag(true, q * (SCALE as u128))
                }
            }
            _ => *self,
        }
    }

    pub fn ceil(&self) -> (r: Num)
        ensures
            r == spec_ceil(*self),
    {
        match *self {
            Num::Fin(m) => {
                if m >= 0 {
                    let s = mag(m) + ((SCALE as u128) - 1);
                    let q = s / (SCALE as u128);
                    proof {
                        lemma_trunc_le(abs_int(m as int) + (SCALE as int - 1), SCALE as int);
                    }
                    unmag(false, q * (SCALE as u128))
                } else {
                    let q = mag(m) / (SCALE as u128);
                    proof {
                        lemma_trunc_le(abs_int(m as int), SCALE as int);
                    }
                    unmag(true, q * (SCALE as u128))
                }
            }
            _ => *self,
        }
    }

    pub fn min2(&self, other: &Num) -> (r: Num)
        ensures
            r == spec_min2(*self, *other),
    {
        if self.is_nan() {
            *other
        } else if other.is_nan() {
            *self
        } else if other.lt(self) {
            *other
        } else {
            *self
        }
    }

    pub fn max2(&self, other: &Num) -> (r: Num)
        ensures
            r == spec_max2(*self, *other),
    {
        if self.is_nan() {
            *other
        } else if other.is_nan() {
            *self
        } else if self.lt(other) {
            *other
        } else {
            *self
        }
    }

    /// The index a value selects, as a float-to-unsigned cast would.
    pub fn index_of(&self) -> (r: usize)
        ensures
            r == spec_index_of(*self),
    {
        match *self {
            Num::NaN => 0,
            Num::NegInf => 0,
            Num::Inf => usize::MAX,
            Num::Fin(m) => {
                if m <= 0 {
                    0
                } else {
                    let q = mag(m) / (SCALE as u128);
                    if q > usize::MAX as u128 {
                        usize::MAX
                    } else {
                        q as usize
                    }
                }
            }
        }
    }

    fn pow_nat(&self, n: u128) -> (r: Num)
        ensures
            r == spec_pow_nat(*self, n as nat),
        decreases n,
    {
        if n == 0 {
            Num::Fin(SCALE)
        } else if n % 2 == 0 {
            let h = self.pow_nat(n / 2);
            h.times(&h)
        } else {
            let p = self.pow_nat(n - 1);
            self.times(&p)
        }
    }

    /// The power function over these numbers: exact for whole exponents,
    /// NaN for anything the exact representation cannot express.
    pub fn powf(&self, other: &Num) -> (r: Num)
        ensures
            r == spec_powf(*self, *other),
    {
        match *other {
            Num::Fin(mb) => {
                if mb == 0 {
                    Num::Fin(SCALE)
                } else if self.eq_one() {
                    Num::Fin(SCALE)
                } else if self.is_nan() {
                    Num::NaN
                } else {
                    let am = mag(mb);
                    if am % (SCALE as u128) != 0 {
                        Num::NaN
                    } else {
                        let p = self.pow_nat(am / (SCALE as u128));
                        if mb > 0 {
                            p
                        } else {
                            Num::Fin(SCALE).divide(&p)
                        }
                    }
                }
            }
            _ => {
                if self.eq_one() {
                    Num::Fin(SCALE)
                } else {
                    Num::NaN
                }
            }
        }
    }

    fn eq_one(&self) -> (r: bool)
        ensures
            r == (*self == Num::Fin(SCALE as i128)),
    {
        match *self {
            Num::Fin(m) => m == SCALE,
            _ => false,
        }
    }
}

pub open spec fn is_digit(c: char) -> bool {
    '0' <= c && c <= '9'
}

pub open spec fn digit_val(c: char) -> int {
    c as u32 - 48
}

/// First position at or after `i` that does not hold a decimal digit.
pub open spec fn digit_run_end(s: Seq<char>, i: int) -> int
    decreases s.len() - i,
{
    if i < 0 || i >= s.len() {
        i
    } else if is_digit(s[i]) {
        digit_run_end(s, i + 1)
    } else {
        i
    }
}

/// First position at or after `i` that does not hold the digit zero.
pub open spec fn zero_run_end(s: Seq<char>, i: int) -> int
    decreases s.len() - i,
{
    if i < 0 || i >= s.len() {
        i
    } else if s[i] == '0' {
        zero_run_end(s, i + 1)
    } else {
        i
    }
}

/// The integer a digit string denotes.
pub open spec fn digits_val(ds: Seq<char>) -> int
    decreases ds.len(),
{
    if ds.len() == 0 {
        0
    } else {
        digits_val(ds.drop_last()) * 10 + digit_val(ds.last())
    }
}

pub open spec fn pow10(n: nat) -> int {
    vstd::arithmetic::power::pow(10, n)
}

/// The number a digit string with `k` fraction digits and decimal
/// exponent `e` denotes, truncated to the mantissa scale. A value of
/// more than 38 significant decimal digits saturates to infinity.
pub open spec fn spec_literal_value(digits: Seq<char>, k: int, e: int) -> Num {
    let z = zero_run_end(digits, 0);
    let dz = digits.subrange(z, digits.len() as int);
    if dz.len() == 0 {
        Num::Fin(0)
    } else {
        let t = dz.len() + 15 + e - k;
        if t <= 0 {
            Num::Fin(0)
        } else if t >= 39 {
            Num::Inf
        } else if t >= dz.len() {
            Num::Fin((digits_val(dz) * pow10((t - dz.len()) as nat)) as i128)
        } else {
            Num::Fin(digits_val(dz.subrange(0, t)) as i128)
        }
    }
}

/// Case-insensitive match against one of the spellings float parsing
/// accepts for an infinite value.
pub open spec fn is_inf_word(s: Seq<char>) -> bool {
    spec_ascii_eq_lower(s, "inf"@) || spec_ascii_eq_lower(s, "infinity"@)
}

pub open spec fn is_nan_word(s: Seq<char>) -> bool {
    spec_ascii_eq_lower(s, "nan"@)
}

/// ASCII lower-casing of one character.
pub open spec fn to_lower(c: char) -> char {
    if 'A' <= c && c <= 'Z' {
        ((c as u32 + 32) as u8) as char
    } else {
        c
    }
}

/// Equality with a lower-case word, ignoring ASCII case.
pub open spec fn spec_ascii_eq_lower(s: Seq<char>, w: Seq<char>) -> bool {
    s.len() == w.len() && forall|i: int| 0 <= i < s.len() ==> to_lower(#[trigger] s[i]) == w[i]
}

/// What float parsing makes of a bare word: one of the special spellings,
/// or a digit string with an optional fraction and decimal exponent.
/// Signs never occur here, because the tokenizer captures them as
/// operators before a word begins.
pub open spec fn spec_from_literal(s: Seq<char>) -> Option<Num> {
    if is_inf_word(s) {
        Some(Num::Inf)
    } else if is_nan_word(s) {
        Some(Num::NaN)
    } else {
        let i1 = digit_run_end(s, 0);
        let has_dot = i1 < s.len() && s[i1] == '.';
        let j0 = if has_dot {
            i1 + 1
        } else {
            i1
        };
        let j1 = if has_dot {
            digit_run_end(s, j0)
        } else {
            i1
        };
        if i1 == 0 && j1 == j0 {
            None
        } else {
            let digits = s.subrange(0, i1) + s.subrange(j0, j1);
            let k = j1 - j0;
            if j1 == s.len() {
                Some(spec_literal_value(digits, k, 0))
            } else if (s[j1] == 'e' || s[j1] == 'E') && s.len() > j1 + 1 && digit_run_end(
                s,
                j1 + 1,
            ) == s.len() {
                let e = digits_val(s.subrange(j1 + 1, s.len() as int));
                Some(spec_literal_value(digits, k, if e > 100000 {
                    100000
                } else {
                    e
                }))
            } else {
                None
            }
        }
    }
}

/// A run of digits ends within the string, after its start.
proof fn lemma_run_bounds(s: Seq<char>, i: int)
    requires
        0 <= i <= s.len(),
    ensures
        i <= digit_run_end(s, i) <= s.len(),
        i <= zero_run_end(s, i) <= s.len(),
    decreases s.len() - i,
{
    if i < s.len() {
        lemma_run_bounds(s, i + 1);
    }
}

/// Every character before the end of a digit run is a digit.
proof fn lemma_run_digits(s: Seq<char>, i: int, j: int)
    requires
        0 <= i <= j < digit_run_end(s, i),
    ensures
        is_digit(s[j]),
    decreases s.len() - i,
{
    lemma_run_bounds(s, i);
    if i < j {
        lemma_run_digits(s, i + 1, j);
    }
}

/// A digit string denotes a non-negative integer below ten to its length.
proof fn lemma_digits_val_bounds(ds: Seq<char>)
    requires
        forall|i: int| 0 <= i < ds.len() ==> is_digit(#[trigger] ds[i]),
    ensures
        0 <= digits_val(ds) < pow10(ds.len() as nat),
    decreases ds.len(),
{
    vstd::arithmetic::power::lemma_pow_positive(10, ds.len() as nat);
    if ds.len() == 0 {
    } else {
        lemma_digits_val_bounds(ds.drop_last());
        assert(pow10(ds.len() as nat) == 10 * pow10((ds.len() - 1) as nat)) by {
            vstd::arithmetic::power::lemma_pow1(10);
            vstd::arithmetic::power::lemma_pow_adds(10, 1, (ds.len() - 1) as nat);
        }
    }
}

/// Rounding a non-negative quantity down to a multiple of the divisor
/// never increases it.
proof fn lemma_trunc_le(p: int, d: int)
    requires
        p >= 0,
        d > 0,
    ensures
        0 <= (p / d) * d <= p,
{
    vstd::arithmetic::div_mod::lemma_fundamental_div_mod(p, d);
    vstd::arithmetic::div_mod::lemma_remainder(p, d);
    vstd::arithmetic::div_mod::lemma_div_pos_is_pos(p, d);
}

/// The concrete size of ten to the thirty-eighth power: it still fits
/// both wide machine integer types.
proof fn lemma_pow10_38()
    ensures
        pow10(38) < u128::MAX,
        pow10(38) < i128::MAX,
{
    vstd::arithmetic::power::lemma_pow0(10);
    lemma_pow10_step(0);
    lemma_pow10_step(1);
    lemma_pow10_step(2);
    lemma_pow10_step(3);
    lemma_pow10_step(4);
    lemma_pow10_step(5);
    lemma_pow10_step(6);
    lemma_pow10_step(7);
    lemma_pow10_step(8);
    lemma_pow10_step(9);
    lemma_pow10_step(10);
    lemma_pow10_step(11);
    lemma_pow10_step(12);
    lemma_pow10_step(13);
    lemma_pow10_step(14);
    lemma_pow10_step(15);
    lemma_pow10_step(16);
    lemma_pow10_step(17);
    lemma_pow10_step(18);
    lemma_pow10_step(19);
    lemma_pow10_step(20);
    lemma_pow10_step(21);
    lemma_pow10_step(22);
    lemma_pow10_step(23);
    lemma_pow10_step(24);
    lemma_pow10_step(25);
    lemma_pow10_step(26);
    lemma_pow10_step(27);
    lemma_pow10_step(28);
    lemma_pow10_step(29);
    lemma_pow10_step(30);
    lemma_pow10_step(31);
    lemma_pow10_step(32);
    lemma_pow10_step(33);
    lemma_pow10_step(34);
    lemma_pow10_step(35);
    lemma_pow10_step(36);
    lemma_pow10_step(37);
}

/// Ten to a power one step up.
proof fn lemma_pow10_step(n: nat)
    ensures
        pow10(n + 1) == 10 * pow10(n),
        pow10(n) >= 1,
{
    vstd::arithmetic::power::lemma_pow_positive(10, n);
    vstd::arithmetic::power::lemma_pow1(10);
    vstd::arithmetic::power::lemma_pow_adds(10, 1, n);
}

/// First position at or after `i` in the text that holds no digit.
fn run_end(s: &str, i: usize) -> (r: usize)
    requires
        i <= s@.len(),
    ensures
        r == digit_run_end(s@, i as int),
        i <= r <= s@.len(),
{
    proof {
        lemma_run_bounds(s@, i as int);
    }
    let n = s.unicode_len();
    let mut j = i;
    loop
        invariant
            i <= j <= n,
            n == s@.len(),
            digit_run_end(s@, i as int) == digit_run_end(s@, j as int),
        ensures
            i <= j <= n,
            digit_run_end(s@, i as int) == digit_run_end(s@, j as int),
            j >= n || !is_digit(s@[j as int]),
        decreases n - j,
    {
        if j >= n {
            break;
        }
        let c = s.get_char(j);
        if !('0' <= c && c <= '9') {
            break;
        }
        j = j + 1;
    }
    proof {
        lemma_run_bounds(s@, i as int);
    }
    j
}

/// Case-insensitive comparison with a lower-case word.
fn ascii_eq_lower(s: &str, w: &str) -> (r: bool)
    ensures
        r == spec_ascii_eq_lower(s@, w@),
{
    let n = s.unicode_len();
    if n != w.unicode_len() {
        return false;
    }
    let mut i: usize = 0;
    while i < n
        invariant
            0 <= i <= n,
            n == s@.len() == w@.len(),
            forall|j: int| 0 <= j < i ==> to_lower(#[trigger] s@[j]) == w@[j],
        decreases n - i,
    {
        let c = s.get_char(i);
        let lc: char = if 'A' <= c && c <= 'Z' {
            (((c as u32) + 32) as u8) as char
        } else {
            c
        };
        assert(lc == to_lower(s@[i as int]));
        if lc != w.get_char(i) {
            return false;
        }
        i = i + 1;
    }
    true
}

/// Value of a run of exponent digits, clamped to one hundred thousand.
fn exp_val(s: &str, i: usize, n: usize) -> (r: u32)
    requires
        i <= n == s@.len(),
        digit_run_end(s@, i as int) == n,
    ensures
        r == if digits_val(s@.subrange(i as int, n as int)) > 100000 {
            100000int
        } else {
            digits_val(s@.subrange(i as int, n as int))
        },
        r <= 100000,
{
    let mut acc: u32 = 0;
    let mut j = i;
    proof {
        assert(s@.subrange(i as int, i as int) =~= Seq::<char>::empty());
    }
    while j < n
        invariant
            i <= j <= n,
            n == s@.len(),
            digit_run_end(s@, i as int) == n,
            acc == if digits_val(s@.subrange(i as int, j as int)) > 100000 {
                100000int
            } else {
                digits_val(s@.subrange(i as int, j as int))
            },
        decreases n - j,
    {
        proof {
            assert forall|x: int| i as int <= x < j as int implies is_digit(#[trigger] s@[x]) by {
                lemma_run_digits(s@, i as int, x);
            }
            lemma_run_digits(s@, i as int, j as int);
            lemma_digits_val_bounds_sub(s@, i as int, j as int);
        }
        let c = s.get_char(j);
        assert(is_digit(s@[j as int]));
        let d: u32 = (c as u32) - 48;
        let full: u32 = acc * 10 + d;
        let nv: u32 = if full > 100000 {
            100000
        } else {
            full
        };
        proof {
            let pre = s@.subrange(i as int, j as int);
            let post = s@.subrange(i as int, j as int + 1);
            assert(post.drop_last() =~= pre);
            assert(digits_val(post) == digits_val(pre) * 10 + digit_val(s@[j as int]));
        }
        acc = nv;
        j = j + 1;
    }
    acc
}

/// Assemble the number a digit string denotes, given its fraction length
/// and decimal exponent.
fn literal_value(digits: &Vec<char>, k: usize, e: u32) -> (r: Num)
    requires
        forall|i: int| 0 <= i < digits@.len() ==> is_digit(#[trigger] digits@[i]),
        e <= 100000,
    ensures
        r == spec_literal_value(digits@, k as int, e as int),
{
    let n = digits.len();
    let mut z: usize = 0;
    loop
        invariant
            0 <= z <= n,
            n == digits@.len(),
            zero_run_end(digits@, 0) == zero_run_end(digits@, z as int),
        ensures
            0 <= z <= n,
            zero_run_end(digits@, 0) == z,
        decreases n - z,
    {
        proof {
            lemma_run_bounds(digits@, z as int);
        }
        if z >= n {
            break;
        }
        if digits[z] != '0' {
            break;
        }
        z = z + 1;
    }
    if z == n {
        proof {
            assert(digits@.subrange(z as int, n as int) =~= Seq::<char>::empty());
        }
        return Num::Fin(0);
    }
    let ghost dz = digits@.subrange(z as int, n as int);
    let dzlen: usize = n - z;
    let t_i: i128 = (dzlen as i128) + 15 + (e as i128) - (k as i128);
    assert(t_i == dz.len() + 15 + e - k);
    if t_i <= 0 {
        return Num::Fin(0);
    }
    if t_i >= 39 {
        return Num::Inf;
    }
    let t: usize = t_i as usize;
    let take: usize = if t >= dzlen {
        dzlen
    } else {
        t
    };
    let mut acc: u128 = 0;
    let mut idx: usize = 0;
    proof {
        assert(digits@.subrange(z as int, z as int) =~= Seq::<char>::empty());
        vstd::arithmetic::power::lemma_pow0(10);
    }
    while idx < take
        invariant
            0 <= idx <= take <= dzlen <= n,
            take <= 38,
            n == digits@.len(),
            n == z + dzlen,
            forall|i: int| 0 <= i < digits@.len() ==> is_digit(#[trigger] digits@[i]),
            acc == digits_val(digits@.subrange(z as int, z as int + idx)),
            acc < pow10(idx as nat),
        decreases take - idx,
    {
        let c = digits[z + idx];
        let d: u128 = ((c as u32) - 48) as u128;
        proof {
            lemma_pow10_step(idx as nat);
            vstd::arithmetic::power::lemma_pow_increases(10, (idx + 1) as nat, 38);
            lemma_pow10_38();
            let pre = digits@.subrange(z as int, z as int + idx);
            let post = digits@.subrange(z as int, z as int + idx + 1);
            assert(post.drop_last() =~= pre);
            assert(digits_val(post) == digits_val(pre) * 10 + digit_val(digits@[z as int
                + idx]));
        }
        acc = acc * 10 + d;
        idx = idx + 1;
    }
    let zeros: usize = t - take;
    let mut zi: usize = 0;
    proof {
        vstd::arithmetic::power::lemma_pow0(10);
    }
    while zi < zeros
        invariant
            0 <= zi <= zeros,
            zeros + take == t <= 38,
            n == digits@.len(),
            z + take <= n,
            acc == digits_val(digits@.subrange(z as int, z as int + take as int)) * pow10(
                zi as nat,
            ),
            acc < pow10((take + zi) as nat),
        decreases zeros - zi,
    {
        proof {
            lemma_pow10_step(zi as nat);
            lemma_pow10_step((take + zi) as nat);
            vstd::arithmetic::power::lemma_pow_increases(10, (take + zi + 1) as nat, 38);
            lemma_pow10_38();
            let dv = digits_val(digits@.subrange(z as int, z as int + take as int));
            assert(dv * (10 * pow10(zi as nat)) == (dv * pow10(zi as nat)) * 10)
                by (nonlinear_arith);
        }
        acc = acc * 10;
        zi = zi + 1;
    }
    proof {
        vstd::arithmetic::power::lemma_pow_increases(10, t as nat, 38);
        lemma_pow10_38();
        if t >= dzlen {
            assert(digits@.subrange(z as int, z as int + take as int) =~= dz);
        } else {
            assert(digits@.subrange(z as int, z as int + take as int) =~= dz.subrange(
                0,
                t as int,
            ));
            lemma_pow10_step(0);
        }
    }
    Num::Fin(acc as i128)
}

/// Parse a bare word the way float parsing would: the special spellings,
/// or a digit string with an optional fraction and decimal exponent.
/// Returns nothing when the word is not a numeric literal.
pub fn from_literal(s: &str) -> (r: Option<Num>)
    ensures
        r == spec_from_literal(s@),
{
    if ascii_eq_lower(s, "inf") || ascii_eq_lower(s, "infinity") {
        return Some(Num::Inf);
    }
    if ascii_eq_lower(s, "nan") {
        return Some(Num::NaN);
    }
    let n = s.unicode_len();
    let i1 = run_end(s, 0);
    let has_dot = i1 < n && s.get_char(i1) == '.';
    let j0 = if has_dot {
        i1 + 1
    } else {
        i1
    };
    let j1 = if has_dot {
        run_end(s, j0)
    } else {
        i1
    };
    if i1 == 0 && j1 == j0 {
        return None;
    }
    let mut digits: Vec<char> = Vec::new();
    let mut x: usize = 0;
    proof {
        assert(digits@ =~= s@.subrange(0, 0));
    }
    while x < i1
        invariant
            0 <= x <= i1 <= n == s@.len(),
            digits@ == s@.subrange(0, x as int),
        decreases i1 - x,
    {
        digits.push(s.get_char(x));
        proof {
            assert(digits@ =~= s@.subrange(0, x + 1));
        }
        x = x + 1;
    }
    let mut y: usize = j0;
    proof {
        assert(digits@ + s@.subrange(j0 as int, j0 as int) =~= digits@);
    }
    while y < j1
        invariant
            i1 <= j0 <= y <= j1 <= n == s@.len(),
            digits@ == s@.subrange(0, i1 as int) + s@.subrange(j0 as int, y as int),
        decreases j1 - y,
    {
        digits.push(s.get_char(y));
        proof {
            assert(s@.subrange(j0 as int, y as int).push(s@[y as int]) =~= s@.subrange(
                j0 as int,
                y + 1,
            ));
            assert(digits@ =~= s@.subrange(0, i1 as int) + s@.subrange(j0 as int, y + 1));
        }
        y = y + 1;
    }
    let k = j1 - j0;
    proof {
        assert forall|i: int| 0 <= i < digits@.len() implies is_digit(#[trigger] digits@[i]) by {
            if i < i1 {
                lemma_run_digits(s@, 0, i);
            } else {
                lemma_run_digits(s@, j0 as int, j0 + (i - i1));
            }
        }
    }
    if j1 == n {
        return Some(literal_value(&digits, k, 0));
    }
    let cj = s.get_char(j1);
    if (cj == 'e' || cj == 'E') && n > j1 + 1 && run_end(s, j1 + 1) == n {
        let ev = exp_val(s, j1 + 1, n);
        return Some(literal_value(&digits, k, ev));
    }
    None
}

/// The bounds of `lemma_digits_val_bounds`, for a digit run inside a text.
proof fn lemma_digits_val_bounds_sub(s: Seq<char>, i: int, j: int)
    requires
        0 <= i <= j <= s.len(),
        forall|x: int| i <= x < j ==> is_digit(#[trigger] s[x]),
    ensures
        0 <= digits_val(s.subrange(i, j)) < pow10((j - i) as nat),
{
    let ds = s.subrange(i, j);
    assert(forall|x: int| 0 <= x < ds.len() ==> is_digit(#[trigger] ds[x]));
    lemma_digits_val_bounds(ds);
}

} // verus!
