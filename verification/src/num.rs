//! The numeric half of the value model.
//!
//! A `Num` is a decimal fixed-point number with six fractional digits: the
//! variant `Finite(m)` stands for the number `m / 1_000_000`. Arithmetic that
//! leaves the finite range saturates to a signed infinity, and division of
//! zero by zero yields `NaN`, so every arithmetic operation is total: no
//! operand combination faults. Non-finite values compare and propagate the
//! way IEEE floating point does (`NaN` is unequal to everything, including
//! itself), which keeps the observable behaviour of programs close to a
//! floating-point evaluator while every operation here is exact integer
//! arithmetic.

use vstd::prelude::*;

verus! {

/// One whole unit, in fixed-point steps: six fractional decimal digits.
pub const SCALE: i64 = 1_000_000;

/// The largest magnitude a finite `Num` may hold, in fixed-point steps.
/// The range is symmetric, and leaves the two most negative `i64` values
/// and the most positive one free to encode the non-finite variants when a
/// `Num` is persisted in eight bytes.
pub const MAX_FINITE: i64 = 9_223_372_036_854_775_806;

/// The smallest (most negative) finite magnitude: `-MAX_FINITE`.
pub const MIN_FINITE: i64 = -9_223_372_036_854_775_806;

/// A runtime number: a finite fixed-point value or one of the three
/// non-finite values that saturating arithmetic can produce.
#[derive(Clone, Copy, Debug, PartialEq, Eq, Structural)]
pub enum Num {
    Finite(i64),
    PosInf,
    NegInf,
    NaN,
}

/// A finite `Num` stays inside the symmetric representable range.
pub open spec fn num_wf(n: Num) -> bool {
    match n {
        Num::Finite(m) => MIN_FINITE <= m <= MAX_FINITE,
        _ => true,
    }
}

/// Saturates a mathematical fixed-point value into the representable range.
pub open spec fn clamp_spec(v: int) -> Num {
    if v > MAX_FINITE {
        Num::PosInf
    } else if v < MIN_FINITE {
        Num::NegInf
    } else {
        Num::Finite(v as i64)
    }
}

pub open spec fn abs_int(m: int) -> int {
    if m >= 0 {
        m
    } else {
        -m
    }
}

/// The signs of the two factors or operands disagree.
pub open spec fn signs_differ(x: int, y: int) -> bool {
    (x < 0) != (y < 0)
}

pub open spec fn num_add_spec(a: Num, b: Num) -> Num {
    match (a, b) {
        (Num::NaN, _) => Num::NaN,
        (_, Num::NaN) => Num::NaN,
        (Num::PosInf, Num::NegInf) => Num::NaN,
        (Num::NegInf, Num::PosInf) => Num::NaN,
        (Num::PosInf, _) => Num::PosInf,
        (_, Num::PosInf) => Num::PosInf,
        (Num::NegInf, _) => Num::NegInf,
        (_, Num::NegInf) => Num::NegInf,
        (Num::Finite(x), Num::Finite(y)) => clamp_spec(x + y),
    }
}

pub open spec fn num_sub_spec(a: Num, b: Num) -> Num {
    match (a, b) {
        (Num::NaN, _) => Num::NaN,
        (_, Num::NaN) => Num::NaN,
        (Num::PosInf, Num::PosInf) => Num::NaN,
        (Num::NegInf, Num::NegInf) => Num::NaN,
        (Num::PosInf, _) => Num::PosInf,
        (Num::NegInf, _) => Num::NegInf,
        (_, Num::PosInf) => Num::NegInf,
        (_, Num::NegInf) => Num::PosInf,
        (Num::Finite(x), Num::Finite(y)) => clamp_spec(x - y),
    }
}

/// The exact product of two finite operands, scaled back down and truncated
/// toward zero.
pub open spec fn mul_mag_spec(x: int, y: int) -> int {
    abs_int(x) * abs_int(y) / (SCALE as int)
}

pub open spec fn num_mul_spec(a: Num, b: Num) -> Num {
    match (a, b) {
        (Num::NaN, _) => Num::NaN,
        (_, Num::NaN) => Num::NaN,
        (Num::PosInf, Num::PosInf) => Num::PosInf,
        (Num::PosInf, Num::NegInf) => Num::NegInf,
        (Num::NegInf, Num::PosInf) => Num::NegInf,
        (Num::NegInf, Num::NegInf) => Num::PosInf,
        (Num::PosInf, Num::Finite(y)) => if y > 0 {
            Num::PosInf
        } else if y < 0 {
            Num::NegInf
        } else {
            Num::NaN
        },
        (Num::Finite(x), Num::PosInf) => if x > 0 {
            Num::PosInf
        } else if x < 0 {
            Num::NegInf
        } else {
            Num::NaN
        },
        (Num::NegInf, Num::Finite(y)) => if y > 0 {
            Num::NegInf
        } else if y < 0 {
            Num::PosInf
        } else {
            Num::NaN
        },
        (Num::Finite(x), Num::NegInf) => if x > 0 {
            Num::NegInf
        } else if x < 0 {
            Num::PosInf
        } else {
            Num::NaN
        },
        (Num::Finite(x), Num::Finite(y)) => if signs_differ(x as int, y as int) {
            clamp_spec(-mul_mag_spec(x as int, y as int))
        } else {
            clamp_spec(mul_mag_spec(x as int, y as int))
        },
    }
}

/// The exact quotient of two finite operands, scaled up before dividing and
/// truncated toward zero. Meaningful only for `y != 0`.
pub open spec fn div_mag_spec(x: int, y: int) -> int {
    abs_int(x) * (SCALE as int) / abs_int(y)
}

pub open spec fn num_div_spec(a: Num, b: Num) -> Num {
    match (a, b) {
        (Num::NaN, _) => Num::NaN,
        (_, Num::NaN) => Num::NaN,
        (Num::PosInf, Num::PosInf) => Num::NaN,
        (Num::PosInf, Num::NegInf) => Num::NaN,
        (Num::NegInf, Num::PosInf) => Num::NaN,
        (Num::NegInf, Num::NegInf) => Num::NaN,
        (Num::PosInf, Num::Finite(y)) => if y >= 0 {
            Num::PosInf
        } else {
            Num::NegInf
        },
        (Num::NegInf, Num::Finite(y)) => if y >= 0 {
            Num::NegInf
        } else {
            Num::PosInf
        },
        (Num::Finite(_), Num::PosInf) => Num::Finite(0),
        (Num::Finite(_), Num::NegInf) => Num::Finite(0),
        (Num::Finite(x), Num::Finite(y)) => if y == 0 {
            if x > 0 {
                Num::PosInf
            } else if x < 0 {
                Num::NegInf
            } else {
                Num::NaN
            }
        } else if signs_differ(x as int, y as int) {
            clamp_spec(-div_mag_spec(x as int, y as int))
        } else {
            clamp_spec(div_mag_spec(x as int, y as int))
        },
    }
}

/// Strict order on numbers; any comparison that involves `NaN` is false.
pub open spec fn num_lt_spec(a: Num, b: Num) -> bool {
    match (a, b) {
        (Num::NaN, _) => false,
        (_, Num::NaN) => false,
        (Num::NegInf, Num::NegInf) => false,
        (Num::NegInf, _) => true,
        (_, Num::NegInf) => false,
        (_, Num::PosInf) => true,
        (Num::PosInf, _) => false,
        (Num::Finite(x), Num::Finite(y)) => x < y,
    }
}

pub open spec fn num_gt_spec(a: Num, b: Num) -> bool {
    num_lt_spec(b, a)
}

/// Numeric equality; `NaN` is equal to nothing, itself included.
pub open spec fn num_eq_spec(a: Num, b: Num) -> bool {
    match (a, b) {
        (Num::Finite(x), Num::Finite(y)) => x == y,
        (Num::PosInf, Num::PosInf) => true,
        (Num::NegInf, Num::NegInf) => true,
        _ => false,
    }
}

/// A number is truthy exactly when it is greater than zero.
pub open spec fn num_truthy_spec(n: Num) -> bool {
    num_gt_spec(n, Num::Finite(0))
}

/// The fixed-point reading of a whole number, saturated into range.
pub open spec fn num_from_int_spec(v: int) -> Num {
    clamp_spec(v * (SCALE as int))
}

impl Num {
    /// Builds the number that stands for the whole value `v`, saturating
    /// when `v` is too large in magnitude to represent.
    pub fn from_int(v: i64) -> (r: Num)
        ensures
            r == num_from_int_spec(v as int),
            num_wf(r),
    {
        let wide: i128 = (v as i128) * (SCALE as i128);
        clamp_i128(wide)
    }

    /// True when the number is neither an infinity nor `NaN`.
    pub fn is_finite(&self) -> (r: bool)
        ensures
            r == (self is Finite),
    {
        match self {
            Num::Finite(_) => true,
            _ => false,
        }
    }
}

/// Saturates a wide intermediate result into the representable range.
fn clamp_i128(v: i128) -> (r: Num)
    ensures
        r == clamp_spec(v as int),
        num_wf(r),
{
    if v > (MAX_FINITE as i128) {
        Num::PosInf
    } else if v < (MIN_FINITE as i128) {
        Num::NegInf
    } else {
        Num::Finite(v as i64)
    }
}

/// Splits a finite operand into its magnitude; the sign travels separately.
fn mag_of(x: i64) -> (m: u128)
    ensures
        m as int == abs_int(x as int),
{
    if x >= 0 {
        x as u128
    } else {
        (-(x as i128)) as u128
    }
}

pub fn num_add(a: Num, b: Num) -> (r: Num)
    requires
        num_wf(a),
        num_wf(b),
    ensures
        r == num_add_spec(a, b),
        num_wf(r),
{
    match (a, b) {
        (Num::NaN, _) => Num::NaN,
        (_, Num::NaN) => Num::NaN,
        (Num::PosInf, Num::NegInf) => Num::NaN,
        (Num::NegInf, Num::PosInf) => Num::NaN,
        (Num::PosInf, _) => Num::PosInf,
        (_, Num::PosInf) => Num::PosInf,
        (Num::NegInf, _) => Num::NegInf,
        (_, Num::NegInf) => Num::NegInf,
        (Num::Finite(x), Num::Finite(y)) => clamp_i128((x as i128) + (y as i128)),
    }
}

pub fn num_sub(a: Num, b: Num) -> (r: Num)
    requires
        num_wf(a),
        num_wf(b),
    ensures
        r == num_sub_spec(a, b),
        num_wf(r),
{
    match (a, b) {
        (Num::NaN, _) => Num::NaN,
        (_, Num::NaN) => Num::NaN,
        (Num::PosInf, Num::PosInf) => Num::NaN,
        (Num::NegInf, Num::NegInf) => Num::NaN,
        (Num::PosInf, _) => Num::PosInf,
        (Num::NegInf, _) => Num::NegInf,
        (_, Num::PosInf) => Num::NegInf,
        (_, Num::NegInf) => Num::PosInf,
        (Num::Finite(x), Num::Finite(y)) => clamp_i128((x as i128) - (y as i128)),
    }
}

/// Reassembles a magnitude and a sign into a saturated number.
pub fn signed_clamp(mag: u128, negative: bool) -> (r: Num)
    ensures
        r == (if negative {
            clamp_spec(-(mag as int))
        } else {
            clamp_spec(mag as int)
        }),
        num_wf(r),
{
    if mag > (MAX_FINITE as u128) {
        if negative {
            Num::NegInf
        } else {
            Num::PosInf
        }
    } else {
        if negative {
            Num::Finite(-(mag as i64))
        } else {
            Num::Finite(mag as i64)
        }
    }
}

pub fn num_mul(a: Num, b: Num) -> (r: Num)
    requires
        num_wf(a),
        num_wf(b),
    ensures
        r == num_mul_spec(a, b),
        num_wf(r),
{
    match (a, b) {
        (Num::NaN, _) => Num::NaN,
        (_, Num::NaN) => Num::NaN,
        (Num::PosInf, Num::PosInf) => Num::PosInf,
        (Num::PosInf, Num::NegInf) => Num::NegInf,
        (Num::NegInf, Num::PosInf) => Num::NegInf,
        (Num::NegInf, Num::NegInf) => Num::PosInf,
        (Num::PosInf, Num::Finite(y)) => if y > 0 {
            Num::PosInf
        } else if y < 0 {
            Num::NegInf
        } else {
            Num::NaN
        },
        (Num::Finite(x), Num::PosInf) => if x > 0 {
            Num::PosInf
        } else if x < 0 {
            Num::NegInf
        } else {
            Num::NaN
        },
        (Num::NegInf, Num::Finite(y)) => if y > 0 {
            Num::NegInf
        } else if y < 0 {
            Num::PosInf
        } else {
            Num::NaN
        },
        (Num::Finite(x), Num::NegInf) => if x > 0 {
            Num::NegInf
        } else if x < 0 {
            Num::PosInf
        } else {
            Num::NaN
        },
        (Num::Finite(x), Num::Finite(y)) => {
            let xm = mag_of(x);
            let ym = mag_of(y);
            proof {
                assert(xm * ym <= (MAX_FINITE as u128) * (MAX_FINITE as u128))
                    by (nonlinear_arith)
                    requires
                        xm <= MAX_FINITE as u128,
                        ym <= MAX_FINITE as u128,
                ;
            }
            let q: u128 = (xm * ym) / (SCALE as u128);
            signed_clamp(q, (x < 0) != (y < 0))
        },
    }
}

pub fn num_div(a: Num, b: Num) -> (r: Num)
    requires
        num_wf(a),
        num_wf(b),
    ensures
        r == num_div_spec(a, b),
        num_wf(r),
{
    match (a, b) {
        (Num::NaN, _) => Num::NaN,
        (_, Num::NaN) => Num::NaN,
        (Num::PosInf, Num::PosInf) => Num::NaN,
        (Num::PosInf, Num::NegInf) => Num::NaN,
        (Num::NegInf, Num::PosInf) => Num::NaN,
        (Num::NegInf, Num::NegInf) => Num::NaN,
        (Num::PosInf, Num::Finite(y)) => if y >= 0 {
            Num::PosInf
        } else {
            Num::NegInf
        },
        (Num::NegInf, Num::Finite(y)) => if y >= 0 {
            Num::NegInf
        } else {
            Num::PosInf
        },
        (Num::Finite(_), Num::PosInf) => Num::Finite(0),
        (Num::Finite(_), Num::NegInf) => Num::Finite(0),
        (Num::Finite(x), Num::Finite(y)) => {
            if y == 0 {
                if x > 0 {
                    Num::PosInf
                } else if x < 0 {
                    Num::NegInf
                } else {
                    Num::NaN
                }
            } else {
                let xm = mag_of(x);
                let ym = mag_of(y);
                proof {
                    assert(xm * (SCALE as u128) <= (MAX_FINITE as u128) * (SCALE as u128))
                        by (nonlinear_arith)
                        requires
                            xm <= MAX_FINITE as u128,
                    ;
                    assert((MAX_FINITE as u128) * (SCALE as u128)
                        == 9_223_372_036_854_775_806_000_000u128)
                        by (nonlinear_arith);
                }
                let q: u128 = (xm * (SCALE as u128)) / ym;
                signed_clamp(q, (x < 0) != (y < 0))
            }
        },
    }
}

pub fn num_lt(a: Num, b: Num) -> (r: bool)
    ensures
        r == num_lt_spec(a, b),
{
    match (a, b) {
        (Num::NaN, _) => false,
        (_, Num::NaN) => false,
        (Num::NegInf, Num::NegInf) => false,
        (Num::NegInf, _) => true,
        (_, Num::NegInf) => false,
        (_, Num::PosInf) => true,
        (Num::PosInf, _) => false,
        (Num::Finite(x), Num::Finite(y)) => x < y,
    }
}

pub fn num_gt(a: Num, b: Num) -> (r: bool)
    ensures
        r == num_gt_spec(a, b),
{
    num_lt(b, a)
}

pub fn num_eq(a: Num, b: Num) -> (r: bool)
    ensures
        r == num_eq_spec(a, b),
{
    match (a, b) {
        (Num::Finite(x), Num::Finite(y)) => x == y,
        (Num::PosInf, Num::PosInf) => true,
        (Num::NegInf, Num::NegInf) => true,
        _ => false,
    }
}

} // verus!
