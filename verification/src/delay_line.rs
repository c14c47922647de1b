//! The delay line of a streaming FIR filter: the samples that a block of
//! input needs from before its start.
//!
//! A filter with `n` taps keeps `n - 1` samples of history. Filtering a
//! block works on the window `history ++ block`, where output `i` combines
//! tap `j` with window element `i + (n - 1) - j`. After a block, the line
//! keeps the last `n - 1` samples of the slice it is advanced with (the
//! band-pass filter advances it with its own output), provided that slice
//! holds at least `n - 1` samples; a shorter slice leaves the history as it
//! was.
use vstd::prelude::*;

verus! {

/// The history kept after advancing a line with `taps` taps and history
/// `h` over the samples `s`.
pub open spec fn next_history<T>(h: Seq<T>, taps: nat, s: Seq<T>) -> Seq<T> {
    if s.len() + 1 >= taps {
        s.subrange(s.len() - (taps - 1), s.len() as int)
    } else {
        h
    }
}

/// The history of a streaming FIR filter with a fixed number of taps.
pub struct DelayLine<T> {
    history: Vec<T>,
    num_taps: usize,
}

impl<T> DelayLine<T> {
    #[verifier::type_invariant]
    spec fn inv(self) -> bool {
        &&& self.num_taps >= 1
        &&& self.history@.len() == self.num_taps - 1
    }

    /// The samples kept from before the next block, oldest first.
    pub closed spec fn history(self) -> Seq<T> {
        self.history@
    }

    /// The number of taps of the filter the line serves.
    pub closed spec fn taps(self) -> nat {
        self.num_taps as nat
    }
}

impl<T: Copy> DelayLine<T> {
    /// A line for a filter with `num_taps` taps, its history filled with
    /// `zero`.
    pub fn new(num_taps: usize, zero: T) -> (line: Self)
        requires
            num_taps >= 1,
        ensures
            line.taps() == num_taps,
            line.history() == Seq::new((num_taps - 1) as nat, |i: int| zero),
    {
        let mut history: Vec<T> = Vec::with_capacity(num_taps - 1);
        for i in 0..num_taps - 1
            invariant
                history@ == Seq::new(i as nat, |k: int| zero),
        {
            history.push(zero);
            assert(history@ == Seq::new((i + 1) as nat, |k: int| zero));
        }
        DelayLine { history, num_taps }
    }

    /// The number of taps of the filter the line serves.
    pub fn num_taps(&self) -> (n: usize)
        ensures
            n == self.taps(),
            n >= 1,
            self.history().len() == n - 1,
    {
        proof {
            use_type_invariant(self);
        }
        self.num_taps
    }

    /// The window that filtering `block` works on: the history followed by
    /// the block.
    pub fn window(&self, block: &[T]) -> (w: Vec<T>)
        ensures
            w@ == self.history() + block@,
    {
        let mut w: Vec<T> = Vec::new();
        for i in 0..self.history.len()
            invariant
                w@ == self.history@.take(i as int),
        {
            w.push(self.history[i]);
            assert(self.history@.take(i + 1) == self.history@.take(i as int).push(
                self.history@[i as int],
            ));
        }
        assert(self.history@.take(self.history@.len() as int) == self.history@);
        for i in 0..block.len()
            invariant
                w@ == self.history@ + block@.take(i as int),
        {
            w.push(block[i]);
            assert(block@.take(i + 1) == block@.take(i as int).push(block@[i as int]));
        }
        assert(block@.take(block@.len() as int) == block@);
        w
    }

    /// Moves the line past a block: keeps the last `taps() - 1` samples of
    /// `samples` when it holds that many, and otherwise leaves the history
    /// unchanged.
    pub fn advance(&mut self, samples: &[T])
        ensures
            final(self).taps() == old(self).taps(),
            final(self).history() == next_history(old(self).history(), old(self).taps(), samples@),
    {
        proof {
            use_type_invariant(&*self);
        }
        let keep = self.num_taps - 1;
        let len = samples.len();
        if len >= keep {
            let start = len - keep;
            let mut h: Vec<T> = Vec::with_capacity(keep);
            for i in 0..keep
                invariant
                    start + keep == len,
                    len == samples@.len(),
                    h@ == samples@.subrange(start as int, start + i),
            {
                h.push(samples[start + i]);
                assert(samples@.subrange(start as int, start + i + 1) == samples@.subrange(
                    start as int,
                    start + i,
                ).push(samples@[start + i]));
            }
            self.history = h;
        }
    }
}

/// Every index that filtering a block of `len` samples with `taps` taps
/// reads, `i + (taps - 1) - j` for output `i` and tap `j`, lies inside the
/// window of `taps - 1 + len` samples.
pub proof fn lemma_window_index_in_bounds(taps: nat, len: nat, i: nat, j: nat)
    requires
        taps >= 1,
        i < len,
        j < taps,
    ensures
        0 <= i + (taps - 1) - j < (taps - 1) + len,
{
}

/// The history the line keeps is the tail of everything it has seen, the
/// old history followed by the new samples, whenever the new samples are at
/// least `taps - 1` long. (With fewer, the line keeps its old history.)
pub proof fn lemma_history_is_tail<T>(h: Seq<T>, taps: nat, s: Seq<T>)
    requires
        taps >= 1,
        h.len() == taps - 1,
        s.len() + 1 >= taps,
    ensures
        next_history(h, taps, s) == (h + s).subrange((h + s).len() - (taps - 1), (h + s).len() as int),
        next_history(h, taps, s).len() == taps - 1,
{
    assert(next_history(h, taps, s) =~= (h + s).subrange(
        (h + s).len() - (taps - 1),
        (h + s).len() as int,
    ));
}

/// A slice shorter than the history leaves the history as it was.
pub proof fn lemma_short_block_keeps_history<T>(h: Seq<T>, taps: nat, s: Seq<T>)
    requires
        s.len() + 1 < taps,
    ensures
        next_history(h, taps, s) == h,
{
}

} // verus!
