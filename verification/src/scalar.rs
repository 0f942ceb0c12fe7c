//! Fixed-point scalar values.
//!
//! Every numeric quantity the palette core works with (expression results,
//! color-model inputs) is a signed fixed-point number with three decimal
//! places: a `Scalar` stores `milli`, the value times 1000. Arithmetic is
//! checked; an operation whose mathematical result does not fit in the
//! representation reports failure instead of wrapping.

use vstd::prelude::*;

verus! {

/// Number of fixed-point units that make up one whole unit.
pub const SCALE: i64 = 1000;

/// A scalar value with three decimal places: `milli` is the value
/// multiplied by 1000, so `Scalar { milli: 1500 }` stands for 1.5.
#[derive(Clone, Copy, PartialEq, Eq, Structural, Debug)]
pub struct Scalar {
    pub milli: i64,
}

/// Whether a mathematical value fits in the fixed-point representation.
pub open spec fn fits_i64(v: int) -> bool {
    i64::MIN <= v <= i64::MAX
}

/// Absolute value.
pub open spec fn abs_int(a: int) -> int {
    if a >= 0 {
        a
    } else {
        -a
    }
}

/// Division that truncates toward zero, as machine division does.
/// Meaningful only for `b != 0`.
pub open spec fn trunc_div(a: int, b: int) -> int
    recommends
        b != 0,
{
    if (a >= 0) == (b >= 0) {
        abs_int(a) / abs_int(b)
    } else {
        -(abs_int(a) / abs_int(b))
    }
}

/// Fixed-point addition: the exact sum, or `None` when it does not fit.
pub open spec fn fx_add(a: int, b: int) -> Option<int> {
    if fits_i64(a + b) {
        Some(a + b)
    } else {
        None
    }
}

/// Fixed-point subtraction: the exact difference, or `None` when it does
/// not fit.
pub open spec fn fx_sub(a: int, b: int) -> Option<int> {
    if fits_i64(a - b) {
        Some(a - b)
    } else {
        None
    }
}

/// Fixed-point multiplication: the product rescaled by 1000, truncated
/// toward zero, or `None` when it does not fit.
pub open spec fn fx_mul(a: int, b: int) -> Option<int> {
    let q = trunc_div(a * b, 1000);
    if fits_i64(q) {
        Some(q)
    } else {
        None
    }
}

/// Fixed-point division: the quotient rescaled by 1000, truncated toward
/// zero; `None` on division by zero or when the result does not fit.
pub open spec fn fx_div(a: int, b: int) -> Option<int> {
    if b == 0 {
        None
    } else {
        let q = trunc_div(a * 1000, b);
        if fits_i64(q) {
            Some(q)
        } else {
            None
        }
    }
}

/// The fixed-point view of an optional scalar, for relating executable
/// results to the spec-level operations.
pub open spec fn opt_milli(r: Option<Scalar>) -> Option<int> {
    match r {
        Some(s) => Some(s.milli as int),
        None => None,
    }
}

impl Scalar {
    /// The scalar standing for the whole number `units`.
    pub fn from_units(units: i32) -> (r: Scalar)
        ensures
            r.milli == units * 1000,
    {
        Scalar { milli: (units as i64) * SCALE }
    }

    /// The scalar standing for zero.
    pub fn zero() -> (r: Scalar)
        ensures
            r.milli == 0,
    {
        Scalar { milli: 0 }
    }

    /// Checked fixed-point addition.
    pub fn add(self, o: Scalar) -> (r: Option<Scalar>)
        ensures
            opt_milli(r) == fx_add(self.milli as int, o.milli as int),
    {
        match self.milli.checked_add(o.milli) {
            Some(m) => Some(Scalar { milli: m }),
            None => None,
        }
    }

    /// Checked fixed-point subtraction.
    pub fn sub(self, o: Scalar) -> (r: Option<Scalar>)
        ensures
            opt_milli(r) == fx_sub(self.milli as int, o.milli as int),
    {
        match self.milli.checked_sub(o.milli) {
            Some(m) => Some(Scalar { milli: m }),
            None => None,
        }
    }

    /// Checked fixed-point multiplication.
    pub fn mul(self, o: Scalar) -> (r: Option<Scalar>)
        ensures
            opt_milli(r) == fx_mul(self.milli as int, o.milli as int),
    {
        proof {
            assert((self.milli as int) * (o.milli as int) <= 0x4000_0000_0000_0000_0000_0000_0000_0000
                && (self.milli as int) * (o.milli as int)
                    >= -0x4000_0000_0000_0000_0000_0000_0000_0000) by (nonlinear_arith)
                requires
                    -0x8000_0000_0000_0000 <= self.milli as int <= 0x7fff_ffff_ffff_ffff,
                    -0x8000_0000_0000_0000 <= o.milli as int <= 0x7fff_ffff_ffff_ffff,
            ;
        }
        let p: i128 = (self.milli as i128) * (o.milli as i128);
        proof {
            lemma_trunc_div_matches(p as int, 1000);
            lemma_trunc_div_bounded(p as int, 1000);
        }
        let q: i128 = match p.checked_div(1000) {
            Some(q) => q,
            None => 0,
        };
        if q < i64::MIN as i128 || q > i64::MAX as i128 {
            None
        } else {
            Some(Scalar { milli: q as i64 })
        }
    }

    /// Checked fixed-point division.
    pub fn div(self, o: Scalar) -> (r: Option<Scalar>)
        ensures
            opt_milli(r) == fx_div(self.milli as int, o.milli as int),
    {
        if o.milli == 0 {
            return None;
        }
        let p: i128 = (self.milli as i128) * 1000;
        proof {
            lemma_trunc_div_matches(p as int, o.milli as int);
            lemma_trunc_div_bounded(p as int, o.milli as int);
        }
        let q: i128 = match p.checked_div(o.milli as i128) {
            Some(q) => q,
            None => 0,
        };
        if q < i64::MIN as i128 || q > i64::MAX as i128 {
            None
        } else {
            Some(Scalar { milli: q as i64 })
        }
    }
}

/// The truncating-division formula used by machine division agrees with
/// `trunc_div`.
proof fn lemma_trunc_div_matches(x: int, d: int)
    requires
        d != 0,
    ensures
        (if x == 0 {
            0
        } else if x > 0 && d > 0 {
            x / d
        } else if x < 0 && d < 0 {
            (x * -1) / (d * -1)
        } else if x < 0 {
            ((x * -1) / d) * -1
        } else {
            (x / (d * -1)) * -1
        }) == trunc_div(x, d),
{
    if x == 0 {
        vstd::arithmetic::div_mod::lemma_div_of0(abs_int(d));
    }
}

/// Truncating division never grows the magnitude of the dividend.
proof fn lemma_trunc_div_bounded(x: int, d: int)
    requires
        d != 0,
    ensures
        abs_int(trunc_div(x, d)) <= abs_int(x),
{
    vstd::arithmetic::div_mod::lemma_div_nonincreasing(abs_int(x), abs_int(d));
    vstd::arithmetic::div_mod::lemma_div_pos_is_pos(abs_int(x), abs_int(d));
}

} // verus!
