//! Complex samples with 16-bit integer parts, and the integer complex
//! arithmetic that the front end needs.
use vstd::prelude::*;

verus! {

/// A complex sample whose real and imaginary parts are `i16`, as the
/// receiver's front end produces them.
#[derive(Clone, Copy, Debug, PartialEq, Eq, Structural)]
pub struct Complex16 {
    pub re: i16,
    pub im: i16,
}

/// Whether an integer value fits in an `i16`.
pub open spec fn fits_i16(v: int) -> bool {
    i16::MIN <= v <= i16::MAX
}

/// Integer division rounded toward zero, as Rust's `/` computes it on
/// signed integers (spec-level `/` is Euclidean).
pub open spec fn trunc_div(a: int, b: int) -> int
    recommends
        b != 0,
{
    let q = (if a < 0 { -a } else { a }) / (if b < 0 { -b } else { b });
    if (a < 0) != (b < 0) { -q } else { q }
}

/// Truncating division is Rust's signed division: the remainder
/// `a - q * b` is smaller than `b` in magnitude and is zero or has the sign
/// of `a`, so the quotient is the exact ratio rounded toward zero.
pub proof fn lemma_trunc_div_is_rounding_toward_zero(a: int, b: int)
    requires
        b != 0,
    ensures
        ({
            let q = trunc_div(a, b);
            let r = a - q * b;
            &&& (if r < 0 { -r } else { r }) < (if b < 0 { -b } else { b })
            &&& r == 0 || (r < 0) == (a < 0)
        }),
{
    let aa: int = if a < 0 { -a } else { a };
    let bb: int = if b < 0 { -b } else { b };
    let qq = aa / bb;
    let rr = aa % bb;
    assert(aa == qq * bb + rr && 0 <= rr < bb) by (nonlinear_arith)
        requires
            bb > 0,
            qq == aa / bb,
            rr == aa % bb,
    ;
    let q = trunc_div(a, b);
    assert(q == (if (a < 0) != (b < 0) { -qq } else { qq }));
    if a >= 0 && b > 0 {
        assert(a - q * b == rr);
    } else if a >= 0 && b < 0 {
        assert(q * b == (-qq) * (-bb));
        assert((-qq) * (-bb) == qq * bb) by (nonlinear_arith);
        assert(a - q * b == rr);
    } else if a < 0 && b > 0 {
        assert(q * b == (-qq) * bb);
        assert((-qq) * bb == -(qq * bb)) by (nonlinear_arith);
        assert(a - q * b == -rr);
    } else {
        assert(q * b == qq * (-bb));
        assert(qq * (-bb) == -(qq * bb)) by (nonlinear_arith);
        assert(a - q * b == -rr);
    }
}

/// Whether dividing `a` by `b` with `num_complex::Complex<i16>`'s `/` runs
/// without any intermediate `i16` overflow and without dividing by zero.
pub open spec fn div_defined(a: Complex16, b: Complex16) -> bool {
    &&& fits_i16(b.re * b.re)
    &&& fits_i16(b.im * b.im)
    &&& fits_i16(b.re * b.re + b.im * b.im)
    &&& b.re * b.re + b.im * b.im != 0
    &&& fits_i16(a.re * b.re)
    &&& fits_i16(a.im * b.im)
    &&& fits_i16(a.re * b.re + a.im * b.im)
    &&& fits_i16(a.im * b.re)
    &&& fits_i16(a.re * b.im)
    &&& fits_i16(a.im * b.re - a.re * b.im)
}

/// `num_complex::Complex<i16>` division:
/// `(a + bi) / (c + di) = ((ac + bd) / (c² + d²)) + ((bc - ad) / (c² + d²)) i`,
/// every step in `i16` and each quotient rounded toward zero.
pub open spec fn div_spec(a: Complex16, b: Complex16) -> Complex16 {
    let norm = b.re * b.re + b.im * b.im;
    Complex16 {
        re: trunc_div(a.re * b.re + a.im * b.im, norm) as i16,
        im: trunc_div(a.im * b.re - a.re * b.im, norm) as i16,
    }
}

/// Divides `a` by `b` with `num_complex::Complex<i16>`'s `Div` impl (the
/// type that `rustfft::num_complex` re-exports).
///
/// Trusted: num-complex 0.4 computes `norm_sqr = c*c + d*d`,
/// `re = a*c + b*d`, `im = b*c - a*d` and returns
/// `(re / norm_sqr, im / norm_sqr)`, all in `i16`; the contract restates that
/// formula with Rust's truncating division, and its `requires` leaves out the
/// inputs on which one of those `i16` operations would overflow or divide by
/// zero (where the crate panics in a debug build).
#[verifier::external_body]
pub(crate) fn complex_div(a: Complex16, b: Complex16) -> (q: Complex16)
    requires
        div_defined(a, b),
    ensures
        q == div_spec(a, b),
{
    let q = rustfft::num_complex::Complex::new(a.re, a.im) / rustfft::num_complex::Complex::new(
        b.re,
        b.im,
    );
    Complex16 { re: q.re, im: q.im }
}

} // verus!
