//! The text form of the complex sample log: one sample per line, written
//! `re+imi` or `re-imi` in decimal, as in `3+4i` and `-7-12i`.
use vstd::prelude::*;
use crate::complex::Complex16;

verus! {

/// ASCII code of `'0'`.
pub const ZERO_DIGIT: u8 = 48;

/// ASCII code of `'-'`.
pub const MINUS: u8 = 45;

/// ASCII code of `'+'`.
pub const PLUS: u8 = 43;

/// ASCII code of `'i'`.
pub const IMAGINARY_UNIT: u8 = 105;

/// ASCII code of the line feed.
pub const NEWLINE: u8 = 10;

/// The decimal digits of `n`, most significant first, without leading
/// zeros (`0` is written `"0"`).
pub open spec fn digits(n: nat) -> Seq<u8>
    decreases n,
{
    if n < 10 {
        seq![(ZERO_DIGIT + n) as u8]
    } else {
        digits(n / 10).push((ZERO_DIGIT + n % 10) as u8)
    }
}

/// `v` in decimal, with a leading `-` when negative.
pub open spec fn decimal(v: int) -> Seq<u8> {
    if v < 0 {
        seq![MINUS] + digits((-v) as nat)
    } else {
        digits(v as nat)
    }
}

/// One line of the log: the real part, a `+` when the imaginary part is
/// not negative (its `-` sign stands in its place otherwise), the
/// imaginary part, `i` and a newline.
pub open spec fn complex_line_spec(z: Complex16) -> Seq<u8> {
    decimal(z.re as int) + (if z.im >= 0 {
        seq![PLUS]
    } else {
        Seq::<u8>::empty()
    }) + decimal(z.im as int) + seq![IMAGINARY_UNIT, NEWLINE]
}

fn push_digits(out: &mut Vec<u8>, n: u32)
    ensures
        final(out)@ == old(out)@ + digits(n as nat),
    decreases n,
{
    if n >= 10 {
        push_digits(out, n / 10);
    }
    out.push(ZERO_DIGIT + (n % 10) as u8);
    proof {
        if n >= 10 {
            assert(digits(n as nat) == digits((n / 10) as nat).push((ZERO_DIGIT + n % 10) as u8));
        }
    }
}

/// Appends `v` in decimal to `out`.
pub fn push_decimal(out: &mut Vec<u8>, v: i16)
    ensures
        final(out)@ == old(out)@ + decimal(v as int),
{
    if v < 0 {
        out.push(MINUS);
        let magnitude: u32 = (0i32 - v as i32) as u32;
        push_digits(out, magnitude);
        assert(old(out)@.push(MINUS) + digits(magnitude as nat) == old(out)@ + (seq![MINUS] + digits(
            magnitude as nat,
        )));
    } else {
        push_digits(out, v as u32);
    }
}

/// The bytes of the log line for one sample.
pub fn complex_line(z: Complex16) -> (line: Vec<u8>)
    ensures
        line@ == complex_line_spec(z),
{
    let mut line: Vec<u8> = Vec::new();
    push_decimal(&mut line, z.re);
    if z.im >= 0 {
        line.push(PLUS);
    }
    push_decimal(&mut line, z.im);
    line.push(IMAGINARY_UNIT);
    line.push(NEWLINE);
    line
}

/// Whether `b` is the ASCII code of a decimal digit.
pub open spec fn is_digit(b: u8) -> bool {
    ZERO_DIGIT <= b <= ZERO_DIGIT + 9
}

/// The number that a string of decimal digits, most significant first,
/// stands for.
pub open spec fn digits_value(s: Seq<u8>) -> int
    decreases s.len(),
{
    if s.len() == 0 {
        0
    } else {
        10 * digits_value(s.drop_last()) + (s.last() - ZERO_DIGIT)
    }
}

/// The number that a decimal string with an optional leading `+` or `-`
/// stands for.
pub open spec fn signed_value(s: Seq<u8>) -> int {
    if s.len() > 0 && s[0] == MINUS {
        -digits_value(s.drop_first())
    } else if s.len() > 0 && s[0] == PLUS {
        digits_value(s.drop_first())
    } else {
        digits_value(s)
    }
}

/// `digits(n)` is the standard base-10 text of `n`: at least one digit,
/// only digits, no leading zero unless `n` is zero, and it reads back as
/// `n`.
pub proof fn lemma_digits_read_back(n: nat)
    ensures
        digits(n).len() >= 1,
        forall|i: int| 0 <= i < digits(n).len() ==> is_digit(#[trigger] digits(n)[i]),
        digits(n)[0] == ZERO_DIGIT ==> n == 0 && digits(n).len() == 1,
        digits_value(digits(n)) == n,
    decreases n,
{
    if n < 10 {
        assert(digits(n).drop_last() =~= Seq::<u8>::empty());
        assert(digits(n).last() == (ZERO_DIGIT + n) as u8);
        assert(digits_value(digits(n)) == 10 * digits_value(digits(n).drop_last()) + (digits(
            n,
        ).last() - ZERO_DIGIT));
    } else {
        lemma_digits_read_back(n / 10);
        assert(digits(n).drop_last() == digits(n / 10));
        assert(digits(n)[0] == digits(n / 10)[0]);
        assert(n / 10 > 0);
        assert(digits(n).last() == (ZERO_DIGIT + n % 10) as u8);
        assert(digits_value(digits(n)) == 10 * digits_value(digits(n).drop_last()) + (digits(
            n,
        ).last() - ZERO_DIGIT));
        assert(10 * (n / 10) + n % 10 == n);
    }
}

/// `decimal(v)` is the standard base-10 text of `v`: a `-` exactly when
/// `v` is negative, then at least one digit and nothing else, no leading
/// zero unless `v` is zero, and the whole reads back as `v`.
pub proof fn lemma_decimal_read_back(v: int)
    ensures
        decimal(v).len() >= 1,
        (decimal(v)[0] == MINUS) == (v < 0),
        signed_value(decimal(v)) == v,
        forall|i: int|
            (if v < 0 { 1int } else { 0int }) <= i < decimal(v).len() ==> is_digit(
                #[trigger] decimal(v)[i],
            ),
        decimal(v)[if v < 0 { 1int } else { 0int }] == ZERO_DIGIT ==> v == 0 && decimal(v).len() == 1,
{
    if v < 0 {
        let d = digits((-v) as nat);
        lemma_digits_read_back((-v) as nat);
        assert(decimal(v).drop_first() == d);
        assert(forall|i: int| 1 <= i < decimal(v).len() ==> decimal(v)[i] == d[i - 1]);
    } else {
        lemma_digits_read_back(v as nat);
        assert(is_digit(decimal(v)[0]));
    }
}

/// A log line reads back as the sample it was written for: the real part
/// in decimal, then `+` or `-` as the imaginary part is not negative or
/// negative, then the imaginary part's digits, then `i` and a newline.
pub proof fn lemma_complex_line_read_back(z: Complex16)
    ensures
        ({
            let line = complex_line_spec(z);
            let p = decimal(z.re as int).len();
            let n = line.len();
            &&& p >= 1
            &&& n >= p + 4
            &&& line[n - 2] == IMAGINARY_UNIT
            &&& line[n - 1] == NEWLINE
            &&& signed_value(line.take(p as int)) == z.re
            &&& forall|i: int| 1 <= i < p ==> is_digit(#[trigger] line[i])
            &&& line[p as int] == (if z.im >= 0 { PLUS } else { MINUS })
            &&& signed_value(line.subrange(p as int, n - 2)) == z.im
            &&& forall|i: int| p + 1 <= i < n - 2 ==> is_digit(#[trigger] line[i])
        }),
{
    let line = complex_line_spec(z);
    let a = decimal(z.re as int);
    let b = decimal(z.im as int);
    let sign = if z.im >= 0 { seq![PLUS] } else { Seq::<u8>::empty() };
    lemma_decimal_read_back(z.re as int);
    lemma_decimal_read_back(z.im as int);
    let p = a.len();
    let n = line.len();
    assert(line == a + sign + b + seq![IMAGINARY_UNIT, NEWLINE]);
    assert(line.take(p as int) == a);
    let m = line.subrange(p as int, n - 2);
    assert(m == sign + b);
    if z.im >= 0 {
        assert(m.drop_first() == b);
        assert(b[0] != MINUS);
        assert(signed_value(b) == digits_value(b));
    } else {
        assert(m == b);
    }
    assert forall|i: int| p + 1 <= i < n - 2 implies is_digit(#[trigger] line[i]) by {
        if z.im >= 0 {
            assert(line[i] == b[i - p - 1]);
        } else {
            assert(line[i] == b[i - p]);
        }
    }
    assert forall|i: int| 1 <= i < p implies is_digit(#[trigger] line[i]) by {
        assert(line[i] == a[i]);
    }
}

} // verus!
