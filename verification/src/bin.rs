use vstd::prelude::*;

use vstd::arithmetic::div_mod::lemma_div_basics_5;
use vstd::arithmetic::div_mod::lemma_div_is_ordered;
use vstd::arithmetic::div_mod::lemma_div_is_ordered_by_denominator;
use vstd::arithmetic::div_mod::lemma_div_multiples_vanish;
use vstd::arithmetic::div_mod::lemma_div_pos_is_pos;

use crate::polar::Polar;
use crate::rectangular::Rectangular;

verus! {

/// The quotient of `x` by `d` rounded towards zero, as machine integer
/// division computes it (`/` on `int` alone rounds towards minus infinity).
pub open spec fn tdiv(x: int, d: int) -> int {
    if x == 0 {
        0
    } else if x > 0 && d > 0 {
        x / d
    } else if x < 0 && d < 0 {
        (x * -1) / (d * -1)
    } else if x < 0 {
        ((x * -1) / d) * -1
    } else {
        (x / (d * -1)) * -1
    }
}

/// The quotient stays between zero and the dividend whenever the divisor
/// is not zero, except that dividing `i64::MIN` by `-1` leaves `i64`.
proof fn lemma_tdiv_fits(x: int, d: int)
    requires
        i64::MIN <= x <= i64::MAX,
        d != 0,
        !(x == i64::MIN && d == -1),
    ensures
        i64::MIN <= tdiv(x, d) <= i64::MAX,
{
    if x == 0 {
    } else if x > 0 && d > 0 {
        lemma_div_basics_5(x, d);
        lemma_div_pos_is_pos(x, d);
    } else if x < 0 && d < 0 {
        lemma_div_pos_is_pos(x * -1, d * -1);
        if d == -1 {
            lemma_div_basics_5(x * -1, 1);
        } else {
            lemma_div_is_ordered_by_denominator(x * -1, 2, d * -1);
            assert((x * -1) / 2 <= i64::MAX) by {
                assert(x * -1 <= i64::MAX + 1);
                assert((i64::MAX + 1int) / 2 <= i64::MAX);
                lemma_div_is_ordered(x * -1, i64::MAX + 1, 2);
            }
        }
    } else if x < 0 {
        lemma_div_basics_5(x * -1, d);
        lemma_div_pos_is_pos(x * -1, d);
    } else {
        lemma_div_basics_5(x, d * -1);
        lemma_div_pos_is_pos(x, d * -1);
    }
}

/// Dividing an exact multiple of `d` by `d` gives back the other factor.
proof fn lemma_tdiv_of_multiple(m: int, d: int)
    requires
        d != 0,
    ensures
        tdiv(m * d, d) == m,
{
    let x = m * d;
    if m == 0 {
        assert(x == 0) by (nonlinear_arith)
            requires m == 0 && x == m * d;
    } else if d > 0 {
        if m > 0 {
            assert(x > 0) by (nonlinear_arith)
                requires m > 0 && d > 0 && x == m * d;
            lemma_div_multiples_vanish(m, d);
            assert(x / d == (d * m) / d) by {
                assert(x == d * m) by (nonlinear_arith)
                    requires x == m * d;
            }
        } else {
            assert(x < 0) by (nonlinear_arith)
                requires m < 0 && d > 0 && x == m * d;
            lemma_div_multiples_vanish(m * -1, d);
            assert((x * -1) / d == m * -1) by {
                assert(x * -1 == d * (m * -1)) by (nonlinear_arith)
                    requires x == m * d;
            }
        }
    } else {
        if m > 0 {
            assert(x < 0) by (nonlinear_arith)
                requires m > 0 && d < 0 && x == m * d;
            lemma_div_multiples_vanish(m, d * -1);
            assert((x * -1) / (d * -1) == m) by {
                assert(x * -1 == (d * -1) * m) by (nonlinear_arith)
                    requires x == m * d;
            }
        } else {
            assert(x > 0) by (nonlinear_arith)
                requires m < 0 && d < 0 && x == m * d;
            lemma_div_multiples_vanish(m * -1, d * -1);
            assert(x / (d * -1) == m * -1) by {
                assert(x == (d * -1) * (m * -1)) by (nonlinear_arith)
                    requires x == m * d;
            }
        }
    }
}

/// A complex value in one of the two representations, giving each
/// representation its own multiplication and division.
#[derive(Debug, PartialOrd, PartialEq, Copy, Clone)]
pub struct Bin<F>(pub F);

/// The real component of the product of two rectangular values.
pub open spec fn rect_mul_cosine(a: Rectangular, b: Rectangular) -> int {
    a.cosine * b.cosine - a.sine * b.sine
}

/// The imaginary component of the product of two rectangular values.
pub open spec fn rect_mul_sine(a: Rectangular, b: Rectangular) -> int {
    a.sine * b.cosine + a.cosine * b.sine
}

/// The real component of the rectangular quotient `a / b`, under
/// machine integer division.
pub open spec fn rect_div_cosine(a: Rectangular, b: Rectangular) -> int {
    tdiv(a.cosine * b.cosine + a.sine * b.sine, b.cosine * b.cosine + b.sine * b.sine)
}

/// The imaginary component of the rectangular quotient `a / b`, under
/// machine integer division.
pub open spec fn rect_div_sine(a: Rectangular, b: Rectangular) -> int {
    tdiv(a.sine * b.cosine - a.cosine * b.sine, b.cosine * b.cosine + b.sine * b.sine)
}

/// The magnitude of the polar product `a * b`: magnitudes multiply.
pub open spec fn polar_mul_magnitude(a: Polar, b: Polar) -> int {
    a.magnitude * b.magnitude
}

/// The phase of the polar product `a * b`: phases add, unnormalised.
pub open spec fn polar_mul_phase(a: Polar, b: Polar) -> int {
    a.phase + b.phase
}

/// The magnitude of the polar quotient `a / b`, under machine integer
/// division.
pub open spec fn polar_div_magnitude(a: Polar, b: Polar) -> int {
    tdiv(a.magnitude as int, b.magnitude as int)
}

/// The phase of the polar quotient `a / b`: phases subtract.
pub open spec fn polar_div_phase(a: Polar, b: Polar) -> int {
    a.phase - b.phase
}

impl Bin<Rectangular> {
    /// The complex product in rectangular form.
    pub fn mul(self, rhs: Self) -> (r: Self)
        requires
            i64::MIN <= self.0.cosine * rhs.0.cosine <= i64::MAX,
            i64::MIN <= self.0.sine * rhs.0.sine <= i64::MAX,
            i64::MIN <= self.0.sine * rhs.0.cosine <= i64::MAX,
            i64::MIN <= self.0.cosine * rhs.0.sine <= i64::MAX,
            i64::MIN <= rect_mul_cosine(self.0, rhs.0) <= i64::MAX,
            i64::MIN <= rect_mul_sine(self.0, rhs.0) <= i64::MAX,
        ensures
            r.0.cosine == rect_mul_cosine(self.0, rhs.0),
            r.0.sine == rect_mul_sine(self.0, rhs.0),
    {
        Bin(Rectangular {
            cosine: self.0.cosine * rhs.0.cosine - self.0.sine * rhs.0.sine,
            sine: self.0.sine * rhs.0.cosine + self.0.cosine * rhs.0.sine,
        })
    }

    /// The complex quotient in rectangular form.
    ///
    /// The divisor must not be the zero value; there, the real-number
    /// quotient has no value, and the all-integer algebra has no
    /// non-finite value to hand back in its place.
    pub fn div(self, rhs: Self) -> (r: Self)
        requires
            rhs.0.cosine != 0 || rhs.0.sine != 0,
            rhs.0.cosine * rhs.0.cosine + rhs.0.sine * rhs.0.sine <= i64::MAX,
            i64::MIN <= self.0.cosine * rhs.0.cosine <= i64::MAX,
            i64::MIN <= self.0.sine * rhs.0.sine <= i64::MAX,
            i64::MIN <= self.0.sine * rhs.0.cosine <= i64::MAX,
            i64::MIN <= self.0.cosine * rhs.0.sine <= i64::MAX,
            i64::MIN <= self.0.cosine * rhs.0.cosine + self.0.sine * rhs.0.sine <= i64::MAX,
            i64::MIN <= self.0.sine * rhs.0.cosine - self.0.cosine * rhs.0.sine <= i64::MAX,
        ensures
            r.0.cosine == rect_div_cosine(self.0, rhs.0),
            r.0.sine == rect_div_sine(self.0, rhs.0),
    {
        proof {
            assert(rhs.0.cosine * rhs.0.cosine >= 0) by (nonlinear_arith);
            assert(rhs.0.sine * rhs.0.sine >= 0) by (nonlinear_arith);
            assert(rhs.0.cosine * rhs.0.cosine + rhs.0.sine * rhs.0.sine >= 1)
                by (nonlinear_arith)
                requires
                    rhs.0.cosine != 0 || rhs.0.sine != 0,
            ;
        }
        let denominator = rhs.0.cosine * rhs.0.cosine + rhs.0.sine * rhs.0.sine;
        let numerator_cosine = self.0.cosine * rhs.0.cosine + self.0.sine * rhs.0.sine;
        let numerator_sine = self.0.sine * rhs.0.cosine - self.0.cosine * rhs.0.sine;
        proof {
            lemma_tdiv_fits(numerator_cosine as int, denominator as int);
            lemma_tdiv_fits(numerator_sine as int, denominator as int);
        }
        let cosine = numerator_cosine.checked_div(denominator).unwrap();
        let sine = numerator_sine.checked_div(denominator).unwrap();
        Bin(Rectangular { cosine, sine })
    }
}

impl Bin<Polar> {
    /// The complex product in polar form: magnitudes multiply and
    /// phases add, without any phase normalisation.
    pub fn mul(self, rhs: Self) -> (r: Self)
        requires
            i64::MIN <= polar_mul_magnitude(self.0, rhs.0) <= i64::MAX,
            i64::MIN <= polar_mul_phase(self.0, rhs.0) <= i64::MAX,
        ensures
            r.0.magnitude == polar_mul_magnitude(self.0, rhs.0),
            r.0.phase == polar_mul_phase(self.0, rhs.0),
    {
        Bin(Polar {
            magnitude: self.0.magnitude * rhs.0.magnitude,
            phase: self.0.phase + rhs.0.phase,
        })
    }

    /// The complex quotient in polar form: magnitudes divide and
    /// phases subtract.
    ///
    /// The divisor must not have magnitude zero; there, the real-number
    /// quotient has no value, and the all-integer algebra has no
    /// non-finite value to hand back in its place.
    pub fn div(self, rhs: Self) -> (r: Self)
        requires
            rhs.0.magnitude != 0,
            !(self.0.magnitude == i64::MIN && rhs.0.magnitude == -1),
            i64::MIN <= polar_div_phase(self.0, rhs.0) <= i64::MAX,
        ensures
            r.0.magnitude == polar_div_magnitude(self.0, rhs.0),
            r.0.phase == polar_div_phase(self.0, rhs.0),
    {
        proof {
            lemma_tdiv_fits(self.0.magnitude as int, rhs.0.magnitude as int);
        }
        let magnitude = self.0.magnitude.checked_div(rhs.0.magnitude).unwrap();
        Bin(Polar { magnitude, phase: self.0.phase - rhs.0.phase })
    }
}

/// Multiplying by a rectangular value and then dividing by that same
/// value gives back the other factor exactly: when `c` carries the
/// product `a * b` and `q` carries the quotient `c / a`, with `a` not
/// the zero value, then `q` is `b`.
pub proof fn lemma_rect_mul_div_cancel(a: Rectangular, b: Rectangular, c: Rectangular, q: Rectangular)
    requires
        a.cosine != 0 || a.sine != 0,
        c.cosine == rect_mul_cosine(a, b),
        c.sine == rect_mul_sine(a, b),
        q.cosine == rect_div_cosine(c, a),
        q.sine == rect_div_sine(c, a),
    ensures
        q == b,
{
    let den = a.cosine * a.cosine + a.sine * a.sine;
    assert(den >= 1) by (nonlinear_arith)
        requires
            a.cosine != 0 || a.sine != 0,
            den == a.cosine * a.cosine + a.sine * a.sine,
    ;
    assert(c.cosine * a.cosine + c.sine * a.sine == b.cosine * den) by (nonlinear_arith)
        requires
            c.cosine == a.cosine * b.cosine - a.sine * b.sine,
            c.sine == a.sine * b.cosine + a.cosine * b.sine,
            den == a.cosine * a.cosine + a.sine * a.sine,
    ;
    assert(c.sine * a.cosine - c.cosine * a.sine == b.sine * den) by (nonlinear_arith)
        requires
            c.cosine == a.cosine * b.cosine - a.sine * b.sine,
            c.sine == a.sine * b.cosine + a.cosine * b.sine,
            den == a.cosine * a.cosine + a.sine * a.sine,
    ;
    lemma_tdiv_of_multiple(b.cosine as int, den);
    lemma_tdiv_of_multiple(b.sine as int, den);
}

/// The mirror cancellation: when `c` carries the product `a * b` and
/// `q` carries the quotient `c / b`, with `b` not the zero value, then
/// `q` is `a`.
pub proof fn lemma_rect_mul_div_cancel_right(a: Rectangular, b: Rectangular, c: Rectangular, q: Rectangular)
    requires
        b.cosine != 0 || b.sine != 0,
        c.cosine == rect_mul_cosine(a, b),
        c.sine == rect_mul_sine(a, b),
        q.cosine == rect_div_cosine(c, b),
        q.sine == rect_div_sine(c, b),
    ensures
        q == a,
{
    assert(c.cosine == rect_mul_cosine(b, a)) by (nonlinear_arith)
        requires
            c.cosine == a.cosine * b.cosine - a.sine * b.sine,
    ;
    assert(c.sine == rect_mul_sine(b, a)) by (nonlinear_arith)
        requires
            c.sine == a.sine * b.cosine + a.cosine * b.sine,
    ;
    lemma_rect_mul_div_cancel(b, a, c, q);
}

/// Multiplying by a polar value and then dividing by that same value
/// gives back the other factor exactly: when `c` carries the product
/// `a * b` and `q` carries the quotient `c / a`, with `a` not of zero
/// magnitude, then `q` is `b`.
pub proof fn lemma_polar_mul_div_cancel(a: Polar, b: Polar, c: Polar, q: Polar)
    requires
        a.magnitude != 0,
        c.magnitude == polar_mul_magnitude(a, b),
        c.phase == polar_mul_phase(a, b),
        q.magnitude == polar_div_magnitude(c, a),
        q.phase == polar_div_phase(c, a),
    ensures
        q == b,
{
    assert(c.magnitude == b.magnitude * a.magnitude) by (nonlinear_arith)
        requires
            c.magnitude == a.magnitude * b.magnitude,
    ;
    lemma_tdiv_of_multiple(b.magnitude as int, a.magnitude as int);
}

/// The mirror cancellation in polar form: when `c` carries the product
/// `a * b` and `q` carries the quotient `c / b`, with `b` not of zero
/// magnitude, then `q` is `a`.
pub proof fn lemma_polar_mul_div_cancel_right(a: Polar, b: Polar, c: Polar, q: Polar)
    requires
        b.magnitude != 0,
        c.magnitude == polar_mul_magnitude(a, b),
        c.phase == polar_mul_phase(a, b),
        q.magnitude == polar_div_magnitude(c, b),
        q.phase == polar_div_phase(c, b),
    ensures
        q == a,
{
    lemma_tdiv_of_multiple(a.magnitude as int, b.magnitude as int);
}

} // verus!
