//! The integer front end of the processing thread: raw unsigned I/Q bytes
//! from the SDR become signed samples, then complex samples, then a
//! signal decimated by a moving average.
use vstd::prelude::*;
use crate::complex::{Complex16, complex_div, div_spec, fits_i16, trunc_div};

verus! {

/// How many consecutive complex samples the decimator averages into one.
pub const DECIMATION: usize = 10;

/// The signed value of one raw byte: `(a - 127) / 127`, rounded toward
/// zero. Bytes `0`, `1..=253` and `254..=255` map to `-1`, `0` and `1`.
pub open spec fn centred(a: u8) -> int {
    trunc_div(a - 127, 127)
}

/// The complex samples of an interleaved sample stream: pair `k` is made
/// of elements `2k` and `2k + 1`, the second taken as the real part and the
/// first as the imaginary part. A trailing odd element is dropped.
pub open spec fn iq_pairs(s: Seq<i16>) -> Seq<Complex16> {
    Seq::new(s.len() / 2, |k: int| Complex16 { re: s[2 * k + 1], im: s[2 * k] })
}

/// Sum of the real parts of a run of samples.
pub open spec fn re_sum(w: Seq<Complex16>) -> int
    decreases w.len(),
{
    if w.len() == 0 {
        0
    } else {
        re_sum(w.drop_last()) + w.last().re
    }
}

/// Sum of the imaginary parts of a run of samples.
pub open spec fn im_sum(w: Seq<Complex16>) -> int
    decreases w.len(),
{
    if w.len() == 0 {
        0
    } else {
        im_sum(w.drop_last()) + w.last().im
    }
}

/// The `k`-th block of `DECIMATION` samples.
pub open spec fn block(x: Seq<Complex16>, k: int) -> Seq<Complex16> {
    x.subrange(DECIMATION * k, DECIMATION * k + DECIMATION)
}

/// Whether the sums of the first `p` real parts and of the first `p`
/// imaginary parts of `w` fit in an `i16`.
pub open spec fn prefix_sums_fit(w: Seq<Complex16>, p: int) -> bool {
    fits_i16(re_sum(w.take(p))) && fits_i16(im_sum(w.take(p)))
}

/// Whether averaging one block runs without `i16` overflow: every running
/// sum of the block, taken in order, fits in an `i16`, and so do ten times
/// the final sums (the complex division multiplies by the divisor first).
pub open spec fn block_averageable(w: Seq<Complex16>) -> bool {
    &&& forall|p: int| 0 <= p <= w.len() ==> #[trigger] prefix_sums_fit(w, p)
    &&& fits_i16(DECIMATION * re_sum(w))
    &&& fits_i16(DECIMATION * im_sum(w))
}

/// Whether every full block of `x` can be averaged without overflow.
pub open spec fn decimatable(x: Seq<Complex16>) -> bool {
    forall|k: int| 0 <= k < x.len() / (DECIMATION as nat) ==> block_averageable(#[trigger] block(x, k))
}

/// The decimated signal: one sample per full block of `DECIMATION` input
/// samples, each part the block's sum divided by `DECIMATION`, rounded
/// toward zero. A trailing partial block is dropped.
pub open spec fn decimated(x: Seq<Complex16>) -> Seq<Complex16> {
    Seq::new(
        x.len() / (DECIMATION as nat),
        |k: int|
            Complex16 {
                re: trunc_div(re_sum(block(x, k)), DECIMATION as int) as i16,
                im: trunc_div(im_sum(block(x, k)), DECIMATION as int) as i16,
            },
    )
}

/// The whole front end: bytes centred, paired, decimated.
pub open spec fn baseband(raw: Seq<u8>) -> Seq<Complex16> {
    decimated(iq_pairs(raw.map_values(|a: u8| centred(a) as i16)))
}

/// Converts one unsigned byte to a signed sample, `(a - 127) / 127`.
pub fn unsigned_to_signed(a: u8) -> (s: i16)
    ensures
        s == centred(a),
        -1 <= s <= 1,
{
    (a as i16 - 127) / 127
}

/// Converts a buffer of unsigned bytes to signed samples, one for one.
pub fn bytes_to_signed(raw: &[u8]) -> (out: Vec<i16>)
    ensures
        out@ == raw@.map_values(|a: u8| centred(a) as i16),
{
    let mut out: Vec<i16> = Vec::with_capacity(raw.len());
    for i in 0..raw.len()
        invariant
            out@ == raw@.take(i as int).map_values(|a: u8| centred(a) as i16),
    {
        out.push(unsigned_to_signed(raw[i]));
        assert(raw@.take(i + 1) == raw@.take(i as int).push(raw@[i as int]));
    }
    assert(raw@.take(raw.len() as int) == raw@);
    out
}

/// Groups an interleaved stream into complex samples: element `2k + 1`
/// becomes the real part and element `2k` the imaginary part of sample `k`.
pub fn interleaved_to_complex(x: &[i16]) -> (out: Vec<Complex16>)
    ensures
        out@ == iq_pairs(x@),
{
    let n = x.len() / 2;
    let mut out: Vec<Complex16> = Vec::with_capacity(n);
    for k in 0..n
        invariant
            n == x.len() / 2,
            out@ == iq_pairs(x@).take(k as int),
    {
        out.push(Complex16 { re: x[2 * k + 1], im: x[2 * k] });
        assert(out@ == iq_pairs(x@).take(k + 1));
    }
    assert(iq_pairs(x@).take(n as int) == iq_pairs(x@));
    out
}

proof fn lemma_trunc_div_scaled(s: int)
    ensures
        trunc_div(10 * s, 100) == trunc_div(s, 10),
{
    let a: int = if s < 0 { -s } else { s };
    assert((10 * a) / 100 == a / 10) by (nonlinear_arith)
        requires
            a >= 0,
    ;
    assert(if 10 * s < 0 { -(10 * s) } else { 10 * s } == 10 * a);
}

/// Averages one block of `DECIMATION` samples: sums the block in order,
/// then divides the sum by the complex number `DECIMATION + 0i`.
fn average_block(x: &[Complex16], start: usize) -> (avg: Complex16)
    requires
        start + DECIMATION <= x@.len(),
        block_averageable(x@.subrange(start as int, start + DECIMATION)),
    ensures
        avg.re == trunc_div(re_sum(x@.subrange(start as int, start + DECIMATION)), DECIMATION as int),
        avg.im == trunc_div(im_sum(x@.subrange(start as int, start + DECIMATION)), DECIMATION as int),
{
    let ghost w = x@.subrange(start as int, start + DECIMATION);
    let len = x.len();
    let mut acc = Complex16 { re: 0, im: 0 };
    assert(w.take(0) =~= Seq::<Complex16>::empty());
    for j in 0..DECIMATION
        invariant
            start + DECIMATION <= x@.len(),
            len == x@.len(),
            w == x@.subrange(start as int, start + DECIMATION),
            block_averageable(w),
            acc.re == re_sum(w.take(j as int)),
            acc.im == im_sum(w.take(j as int)),
    {
        let ghost next = w.take(j + 1);
        assert(next.drop_last() == w.take(j as int));
        assert(next.last() == x@[start + j]);
        assert(w.len() == DECIMATION);
        assert(prefix_sums_fit(w, j + 1));
        acc = Complex16 { re: acc.re + x[start + j].re, im: acc.im + x[start + j].im };
    }
    assert(w.take(DECIMATION as int) == w);
    let divisor = Complex16 { re: DECIMATION as i16, im: 0 };
    assert(divisor.re == 10 && divisor.im == 0);
    assert(acc.re * divisor.re == DECIMATION * re_sum(w));
    assert(acc.im * divisor.re == DECIMATION * im_sum(w));
    let avg = complex_div(acc, divisor);
    proof {
        lemma_trunc_div_scaled(acc.re as int);
        lemma_trunc_div_scaled(acc.im as int);
        assert(avg == div_spec(acc, divisor));
    }
    avg
}

/// Decimates a complex signal by `DECIMATION`: each full block of
/// consecutive samples is replaced by its average.
pub fn complex_decimate(x: &[Complex16]) -> (out: Vec<Complex16>)
    requires
        decimatable(x@),
    ensures
        out@ == decimated(x@),
{
    let len = x.len();
    let n = len / DECIMATION;
    let mut out: Vec<Complex16> = Vec::with_capacity(n);
    for k in 0..n
        invariant
            n == x@.len() / (DECIMATION as nat),
            len == x@.len(),
            decimatable(x@),
            out@ == decimated(x@).take(k as int),
    {
        assert(block_averageable(block(x@, k as int)));
        assert(DECIMATION * k + DECIMATION <= x@.len()) by (nonlinear_arith)
            requires
                k < n,
                n == x@.len() / 10,
                x@.len() == len,
        ;
        let avg = average_block(x, DECIMATION * k);
        out.push(avg);
        assert(out@ == decimated(x@).take(k + 1));
    }
    assert(decimated(x@).take(n as int) == decimated(x@));
    out
}

/// Whether every part of every sample lies in `-1..=1`, as the parts of
/// centred bytes do.
pub open spec fn unit_bounded(x: Seq<Complex16>) -> bool {
    forall|i: int| 0 <= i < x.len() ==> -1 <= #[trigger] x[i].re <= 1 && -1 <= x[i].im <= 1
}

proof fn lemma_unit_sums(s: Seq<Complex16>)
    requires
        unit_bounded(s),
    ensures
        -s.len() <= re_sum(s) <= s.len(),
        -s.len() <= im_sum(s) <= s.len(),
    decreases s.len(),
{
    if s.len() > 0 {
        assert(unit_bounded(s.drop_last()));
        lemma_unit_sums(s.drop_last());
    }
}

/// A signal whose parts all lie in `-1..=1` can always be decimated.
pub proof fn lemma_unit_bounded_decimatable(x: Seq<Complex16>)
    requires
        unit_bounded(x),
    ensures
        decimatable(x),
{
    assert forall|k: int| 0 <= k < x.len() / (DECIMATION as nat) implies block_averageable(
        #[trigger] block(x, k),
    ) by {
        assert(DECIMATION * k + DECIMATION <= x.len()) by (nonlinear_arith)
            requires
                0 <= k < x.len() / 10,
        ;
        let w = block(x, k);
        assert(unit_bounded(w));
        assert forall|p: int| 0 <= p <= w.len() implies #[trigger] prefix_sums_fit(w, p) by {
            assert(unit_bounded(w.take(p)));
            lemma_unit_sums(w.take(p));
        }
        lemma_unit_sums(w);
    }
}

/// The front end of the processing thread: converts a raw buffer of
/// interleaved unsigned I/Q bytes into the decimated complex baseband
/// signal. Every input is accepted: the centred samples are so small that
/// no sum can overflow. The result has one sample per 20 bytes, each part
/// in `-1..=1`.
pub fn baseband_from_raw(raw: &[u8]) -> (out: Vec<Complex16>)
    ensures
        out@ == baseband(raw@),
        out@.len() == raw@.len() / 2 / (DECIMATION as nat),
        unit_bounded(out@),
{
    let signed = bytes_to_signed(raw);
    let pairs = interleaved_to_complex(signed.as_slice());
    proof {
        assert(unit_bounded(pairs@));
        lemma_unit_bounded_decimatable(pairs@);
    }
    let out = complex_decimate(pairs.as_slice());
    proof {
        assert forall|k: int| 0 <= k < out@.len() implies -1 <= #[trigger] out@[k].re <= 1 && -1
            <= out@[k].im <= 1 by {
            assert(DECIMATION * k + DECIMATION <= pairs@.len()) by (nonlinear_arith)
                requires
                    0 <= k < pairs@.len() / 10,
            ;
            let w = block(pairs@, k);
            assert(unit_bounded(w));
            lemma_unit_sums(w);
        }
    }
    out
}

proof fn lemma_constant_sums(w: Seq<Complex16>, z: Complex16)
    requires
        forall|i: int| 0 <= i < w.len() ==> #[trigger] w[i] == z,
    ensures
        re_sum(w) == w.len() * z.re,
        im_sum(w) == w.len() * z.im,
    decreases w.len(),
{
    if w.len() > 0 {
        lemma_constant_sums(w.drop_last(), z);
        assert((w.len() - 1) * z.re + z.re == w.len() * z.re) by (nonlinear_arith);
        assert((w.len() - 1) * z.im + z.im == w.len() * z.im) by (nonlinear_arith);
    }
}

/// The moving average keeps a constant signal: when a block holds ten
/// copies of one sample, the block decimates to that sample.
pub proof fn lemma_decimate_constant_block(x: Seq<Complex16>, k: int, z: Complex16)
    requires
        0 <= k < x.len() / (DECIMATION as nat),
        forall|i: int| 0 <= i < DECIMATION ==> #[trigger] block(x, k)[i] == z,
    ensures
        decimated(x)[k] == z,
{
    assert(DECIMATION * k + DECIMATION <= x.len()) by (nonlinear_arith)
        requires
            0 <= k < x.len() / 10,
    ;
    lemma_constant_sums(block(x, k), z);
    let a: int = if z.re < 0 { -z.re } else { z.re as int };
    let b: int = if z.im < 0 { -z.im } else { z.im as int };
    assert((10 * a) / 10 == a) by (nonlinear_arith)
        requires
            a >= 0,
    ;
    assert((10 * b) / 10 == b) by (nonlinear_arith)
        requires
            b >= 0,
    ;
    assert(block(x, k).len() == 10);
    assert(re_sum(block(x, k)) == 10 * z.re);
    assert(im_sum(block(x, k)) == 10 * z.im);
    assert(trunc_div(10 * z.re, 10) == z.re);
    assert(trunc_div(10 * z.im, 10) == z.im);
}

/// Pairing keeps every element where it belongs: sample `k` is made of
/// stream elements `2k + 1` (real part) and `2k` (imaginary part) and of
/// nothing else, and every element of the stream but a trailing odd one can
/// be read back from its pair.
pub proof fn lemma_pairs_use_their_own_elements(s: Seq<i16>)
    ensures
        iq_pairs(s).len() == s.len() / 2,
        forall|k: int|
            0 <= k < s.len() / 2 ==> (#[trigger] iq_pairs(s)[k]) == (Complex16 {
                re: s[2 * k + 1],
                im: s[2 * k],
            }),
        forall|i: int|
            0 <= i < 2 * (s.len() / 2) ==> #[trigger] s[i] == (if i % 2 == 0 {
                iq_pairs(s)[i / 2].im
            } else {
                iq_pairs(s)[i / 2].re
            }),
{
    assert forall|i: int| 0 <= i < 2 * (s.len() / 2) implies #[trigger] s[i] == (if i % 2 == 0 {
        iq_pairs(s)[i / 2].im
    } else {
        iq_pairs(s)[i / 2].re
    }) by {
        let k = i / 2;
        assert(0 <= k < s.len() / 2);
        if i % 2 == 0 {
            assert(i == 2 * k);
        } else {
            assert(i == 2 * k + 1);
        }
    }
}

proof fn lemma_sum_step(w: Seq<Complex16>, p: int)
    requires
        0 <= p < w.len(),
    ensures
        re_sum(w.take(p + 1)) == re_sum(w.take(p)) + w[p].re,
        im_sum(w.take(p + 1)) == im_sum(w.take(p)) + w[p].im,
{
    assert(w.take(p + 1).drop_last() == w.take(p));
}

proof fn lemma_quotient_fits(sum: int)
    requires
        -327680 <= sum <= 327670,
    ensures
        fits_i16(trunc_div(sum, 10)),
{
    let a: int = if sum < 0 { -sum } else { sum };
    assert(a / 10 <= 32768) by (nonlinear_arith)
        requires
            0 <= a <= 327680,
    ;
    assert(a < 327680 ==> a / 10 <= 32767) by (nonlinear_arith)
        requires
            0 <= a,
    ;
}

/// Decimation averages each block over all ten of its samples: output `k`
/// is the sum of input samples `10k` to `10k + 9`, divided by ten and
/// rounded toward zero, part by part.
pub proof fn lemma_decimated_is_block_average(x: Seq<Complex16>, k: int)
    requires
        0 <= k < x.len() / 10,
    ensures
        decimated(x).len() == x.len() / 10,
        decimated(x)[k].re == trunc_div(x[10 * k].re + x[10 * k + 1].re + x[10 * k + 2].re + x[10 * k + 3].re + x[10 * k + 4].re + x[10 * k + 5].re + x[10 * k + 6].re + x[10 * k + 7].re + x[10 * k + 8].re + x[10 * k + 9].re, 10),
        decimated(x)[k].im == trunc_div(x[10 * k].im + x[10 * k + 1].im + x[10 * k + 2].im + x[10 * k + 3].im + x[10 * k + 4].im + x[10 * k + 5].im + x[10 * k + 6].im + x[10 * k + 7].im + x[10 * k + 8].im + x[10 * k + 9].im, 10),
{
    assert(10 * k + 10 <= x.len()) by (nonlinear_arith)
        requires
            0 <= k < x.len() / 10,
    ;
    let w = block(x, k);
    assert(w.len() == 10);
    assert(w.take(0) =~= Seq::<Complex16>::empty());
    lemma_sum_step(w, 0);
    lemma_sum_step(w, 1);
    lemma_sum_step(w, 2);
    lemma_sum_step(w, 3);
    lemma_sum_step(w, 4);
    lemma_sum_step(w, 5);
    lemma_sum_step(w, 6);
    lemma_sum_step(w, 7);
    lemma_sum_step(w, 8);
    lemma_sum_step(w, 9);
    assert(w.take(10) == w);
    assert(w[0] == x[10 * k]);
    assert(forall|i: int| 0 <= i < 10 ==> #[trigger] w[i] == x[10 * k + i]);
    lemma_quotient_fits(x[10 * k].re + x[10 * k + 1].re + x[10 * k + 2].re + x[10 * k + 3].re + x[10 * k + 4].re + x[10 * k + 5].re + x[10 * k + 6].re + x[10 * k + 7].re + x[10 * k + 8].re + x[10 * k + 9].re);
    lemma_quotient_fits(x[10 * k].im + x[10 * k + 1].im + x[10 * k + 2].im + x[10 * k + 3].im + x[10 * k + 4].im + x[10 * k + 5].im + x[10 * k + 6].im + x[10 * k + 7].im + x[10 * k + 8].im + x[10 * k + 9].im);
}

/// Decimation works block by block: decimating a signal that is split
/// after a whole number of blocks gives the two decimated halves, one after
/// the other.
pub proof fn lemma_decimated_concat(x: Seq<Complex16>, y: Seq<Complex16>)
    requires
        x.len() % 10 == 0,
    ensures
        decimated(x + y) == decimated(x) + decimated(y),
{
    let nx = x.len() / 10;
    let ny = y.len() / 10;
    assert((x.len() + y.len()) / 10 == nx + ny) by (nonlinear_arith)
        requires
            x.len() % 10 == 0,
            nx == x.len() / 10,
            ny == y.len() / 10,
    ;
    assert(x.len() == 10 * nx) by (nonlinear_arith)
        requires
            x.len() % 10 == 0,
            nx == x.len() / 10,
    ;
    assert forall|k: int| 0 <= k < nx + ny implies #[trigger] decimated(x + y)[k] == (decimated(x)
        + decimated(y))[k] by {
        if k < nx {
            assert(10 * k + 10 <= x.len()) by (nonlinear_arith)
                requires
                    0 <= k < nx,
                    x.len() == 10 * nx,
            ;
            assert(block(x + y, k) =~= block(x, k));
        } else {
            let j = k - nx;
            assert(10 * j + 10 <= y.len()) by (nonlinear_arith)
                requires
                    0 <= j < ny,
                    ny == y.len() / 10,
            ;
            assert(10 * k == x.len() + 10 * j);
            assert(block(x + y, k) =~= block(y, j));
        }
    }
    assert(decimated(x + y) =~= decimated(x) + decimated(y));
}

/// The level a raw byte stands for: `0` is `-1`, `254` and `255` are `1`,
/// and every byte in between is `0`.
pub open spec fn level(a: u8) -> int {
    if a == 0 {
        -1
    } else if a >= 254 {
        1
    } else {
        0
    }
}

/// Centring maps a byte to its level.
pub proof fn lemma_centred_is_level(a: u8)
    ensures
        centred(a) == level(a),
{
}

proof fn lemma_pair_level(raw: Seq<u8>, j: int)
    requires
        0 <= j < raw.len() / 2,
    ensures
        iq_pairs(raw.map_values(|a: u8| centred(a) as i16))[j].re == level(raw[2 * j + 1]),
        iq_pairs(raw.map_values(|a: u8| centred(a) as i16))[j].im == level(raw[2 * j]),
{
    lemma_centred_is_level(raw[2 * j + 1]);
    lemma_centred_is_level(raw[2 * j]);
}

/// The front end, in terms of the raw bytes: output `k` averages the
/// levels of bytes `20k` to `20k + 19`, the odd ones into the real part and
/// the even ones into the imaginary part.
pub proof fn lemma_baseband_from_bytes(raw: Seq<u8>, k: int)
    requires
        0 <= k < raw.len() / 20,
    ensures
        baseband(raw).len() == raw.len() / 20,
        baseband(raw)[k].re == trunc_div(level(raw[20 * k + 1]) + level(raw[20 * k + 3]) + level(raw[20 * k + 5]) + level(raw[20 * k + 7]) + level(raw[20 * k + 9]) + level(raw[20 * k + 11]) + level(raw[20 * k + 13]) + level(raw[20 * k + 15]) + level(raw[20 * k + 17]) + level(raw[20 * k + 19]), 10),
        baseband(raw)[k].im == trunc_div(level(raw[20 * k]) + level(raw[20 * k + 2]) + level(raw[20 * k + 4]) + level(raw[20 * k + 6]) + level(raw[20 * k + 8]) + level(raw[20 * k + 10]) + level(raw[20 * k + 12]) + level(raw[20 * k + 14]) + level(raw[20 * k + 16]) + level(raw[20 * k + 18]), 10),
{
    let signed = raw.map_values(|a: u8| centred(a) as i16);
    let x = iq_pairs(signed);
    assert(raw.len() / 2 / 10 == raw.len() / 20) by (nonlinear_arith)
        requires
            raw.len() >= 0,
    ;
    assert(10 * k + 10 <= x.len()) by (nonlinear_arith)
        requires
            0 <= k < raw.len() / 20,
            x.len() == raw.len() / 2,
    ;
    lemma_decimated_is_block_average(x, k);
    lemma_pair_level(raw, 10 * k + 0);
    lemma_pair_level(raw, 10 * k + 1);
    lemma_pair_level(raw, 10 * k + 2);
    lemma_pair_level(raw, 10 * k + 3);
    lemma_pair_level(raw, 10 * k + 4);
    lemma_pair_level(raw, 10 * k + 5);
    lemma_pair_level(raw, 10 * k + 6);
    lemma_pair_level(raw, 10 * k + 7);
    lemma_pair_level(raw, 10 * k + 8);
    lemma_pair_level(raw, 10 * k + 9);
    assert(10 * k + 0 == 10 * k);
}

/// A buffer of one repeated byte gives, in every output sample, that
/// byte's level in both parts: silence (any byte in `1..=253`) is all
/// zeros.
pub proof fn lemma_constant_buffer(raw: Seq<u8>, c: u8)
    requires
        forall|i: int| 0 <= i < raw.len() ==> #[trigger] raw[i] == c,
    ensures
        baseband(raw).len() == raw.len() / 20,
        forall|k: int|
            0 <= k < raw.len() / 20 ==> (#[trigger] baseband(raw)[k]).re == level(c)
                && baseband(raw)[k].im == level(c),
{
    assert(raw.len() / 2 / 10 == raw.len() / 20) by (nonlinear_arith)
        requires
            raw.len() >= 0,
    ;
    assert forall|k: int| 0 <= k < raw.len() / 20 implies (#[trigger] baseband(raw)[k]).re == level(c)
        && baseband(raw)[k].im == level(c) by {
        assert(20 * k + 20 <= raw.len()) by (nonlinear_arith)
            requires
                0 <= k < raw.len() / 20,
        ;
        lemma_baseband_from_bytes(raw, k);
        assert(trunc_div(10 * level(c), 10) == level(c));
    }
}

} // verus!
