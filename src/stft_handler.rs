//! The window scheduler: cuts the readable samples of a transport into
//! overlapping analysis windows, one step apart.
use crate::stft::{lemma_window_bounds, valid_sizes, window_at, window_count, STFT};
use crate::transport::{join_prefix, SampleSource};
use vstd::arithmetic::div_mod::lemma_fundamental_div_mod_converse;
use vstd::prelude::*;

verus! {

/// The contents of a list of windows.
pub open spec fn window_views(windows: Seq<Vec<u32>>) -> Seq<Seq<u32>> {
    windows.map_values(|w: Vec<u32>| w@)
}

/// `windows` are all the windows that `seen` holds, in order.
pub open spec fn windows_of(
    seen: Seq<u32>,
    windows: Seq<Seq<u32>>,
    window_size: int,
    step_size: int,
) -> bool {
    &&& windows.len() == window_count(seen.len() as int, window_size, step_size)
    &&& forall|k: int|
        0 <= k < windows.len() ==> #[trigger] windows[k] == window_at(
            seen,
            k,
            window_size,
            step_size,
        )
}

/// Cut from `window_size + 3 * step_size` samples, the windows are exactly
/// four; the fourth is the samples from `3 * step_size` on, and the
/// `window_size - step_size` samples after the fourth step are left over.
pub proof fn lemma_four_windows(
    seen: Seq<u32>,
    windows: Seq<Seq<u32>>,
    window_size: int,
    step_size: int,
)
    requires
        valid_sizes(window_size, step_size),
        seen.len() == window_size + 3 * step_size,
        windows_of(seen, windows, window_size, step_size),
    ensures
        windows.len() == 4,
        windows[3] == seen.subrange(3 * step_size, 3 * step_size + window_size),
        seen.len() - windows.len() * step_size == window_size - step_size,
{
    lemma_fundamental_div_mod_converse(3 * step_size, step_size, 3, 0);
    assert(windows[3] == window_at(seen, 3, window_size, step_size));
}

/// The windows of a sample sequence are determined by it: two runs that see
/// the same samples, wherever the buffer wraps, cut the same windows.
pub proof fn lemma_windows_determined(
    seen: Seq<u32>,
    a: Seq<Seq<u32>>,
    b: Seq<Seq<u32>>,
    window_size: int,
    step_size: int,
)
    requires
        windows_of(seen, a, window_size, step_size),
        windows_of(seen, b, window_size, step_size),
    ensures
        a == b,
{
    assert(a =~= b);
}

/// Reads a sample source and hands out each analysis window once it is
/// complete.
pub struct StftHandler<S: SampleSource> {
    source: S,
    stft: STFT,
}

impl<S: SampleSource> StftHandler<S> {
    /// The state of the sample source read from.
    pub closed spec fn source_state(&self) -> S {
        self.source
    }

    /// The sample source read from.
    pub fn source(&self) -> (r: &S)
        ensures
            *r == self.source_state(),
    {
        &self.source
    }

    pub closed spec fn window_size(&self) -> int {
        self.stft.window_size as int
    }

    pub closed spec fn step_size(&self) -> int {
        self.stft.step_size as int
    }

    pub closed spec fn wf(&self) -> bool {
        valid_sizes(self.window_size(), self.step_size())
    }

    /// A scheduler reading `source` with the sizes of `stft`.
    pub fn new(source: S, stft: STFT) -> (h: StftHandler<S>)
        requires
            stft.wf(),
        ensures
            h.wf(),
            h.source_state() == source,
            h.window_size() == stft.window_size,
            h.step_size() == stft.step_size,
    {
        StftHandler { source, stft }
    }

    /// The analysis parameters.
    pub fn stft(&self) -> (r: &STFT)
        ensures
            r.window_size == self.window_size(),
            r.step_size == self.step_size(),
            r.wf() == self.wf(),
    {
        &self.stft
    }

    /// Cuts every full window out of the first `available` readable samples;
    /// the read position advances one step per window, so the samples after
    /// the last step stay for the next call.
    pub fn take_windows(&mut self, available: usize) -> (r: Vec<Vec<u32>>)
        requires
            old(self).wf(),
            available <= old(self).source_state().readable().len(),
        ensures
            final(self).wf(),
            final(self).window_size() == old(self).window_size(),
            final(self).step_size() == old(self).step_size(),
            windows_of(
                old(self).source_state().readable().take(available as int),
                window_views(r@),
                old(self).window_size(),
                old(self).step_size(),
            ),
            old(self).source_state().readable().skip(r@.len() * old(self).step_size()).is_prefix_of(
                final(self).source_state().readable(),
            ),
            available - r@.len() * old(self).step_size() < old(self).window_size(),
            final(self).source_state().is_exclusive() == old(self).source_state().is_exclusive(),
            old(self).source_state().is_exclusive() ==> final(self).source_state().readable()
                == old(self).source_state().readable().skip(r@.len() * old(self).step_size()),
    {
        let ghost seen = self.source.readable();
        let ghost n = available as int;
        let ghost w = self.window_size();
        let ghost st = self.step_size();
        let window_size = self.stft.window_size;
        let step_size = self.stft.step_size;
        let count: usize = if available < window_size {
            0
        } else {
            (available - window_size) / step_size + 1
        };
        proof {
            lemma_window_bounds(n, w, st, 0);
        }
        let mut r: Vec<Vec<u32>> = Vec::with_capacity(count);
        let mut k: usize = 0;
        while k < count
            invariant
                valid_sizes(w, st),
                self.wf(),
                self.window_size() == w,
                self.step_size() == st,
                window_size == w,
                step_size == st,
                n <= seen.len(),
                count == window_count(n, w, st),
                k <= count,
                r@.len() == k,
                seen.skip(k * st).is_prefix_of(self.source.readable()),
                self.source.is_exclusive() == old(self).source_state().is_exclusive(),
                self.source.is_exclusive() ==> self.source.readable() == seen.skip(k * st),
                forall|j: int| 0 <= j < k ==> #[trigger] r@[j]@ == window_at(seen, j, w, st),
            decreases count - k,
        {
            proof {
                lemma_window_bounds(n, w, st, k as int);
                assert(k * st >= 0) by (nonlinear_arith)
                    requires
                        k >= 0,
                        st >= 1,
                ;
            }
            let (older, newer) = self.source.peek_contiguous();
            let ghost cur = self.source.readable();
            let window = join_prefix(older, newer, window_size);
            assert(window@ =~= window_at(seen, k as int, w, st));
            self.source.advance_read(step_size);
            proof {
                let next = self.source.readable();
                assert((k + 1) * st == k * st + st) by (nonlinear_arith);
                assert(seen.skip((k + 1) * st) =~= seen.skip(k * st).skip(st));
                assert(seen.skip((k + 1) * st) =~= cur.skip(st).take(seen.len() - (k + 1) * st));
                if self.source.is_exclusive() {
                    assert(seen.skip((k + 1) * st) =~= cur.skip(st));
                }
            }
            r.push(window);
            k = k + 1;
        }
        proof {
            lemma_window_bounds(n, w, st, 0);
            assert(forall|k: int|
                0 <= k < r@.len() ==> #[trigger] window_views(r@)[k] == window_at(
                    seen.take(n),
                    k,
                    w,
                    st,
                )) by {
                assert forall|k: int| 0 <= k < r@.len() implies #[trigger] window_views(r@)[k]
                    == window_at(seen.take(n), k, w, st) by {
                    lemma_window_bounds(n, w, st, k);
                    assert(k * st >= 0) by (nonlinear_arith)
                        requires
                            k >= 0,
                            st >= 1,
                    ;
                    assert(window_at(seen.take(n), k, w, st) =~= window_at(seen, k, w, st));
                }
            }
        }
        r
    }

    /// Hands out every window that the samples readable now complete.
    pub fn run(&mut self) -> (r: Vec<Vec<u32>>)
        requires
            old(self).wf(),
        ensures
            final(self).wf(),
            final(self).window_size() == old(self).window_size(),
            final(self).step_size() == old(self).step_size(),
            exists|seen: Seq<u32>|
                {
                    &&& old(self).source_state().readable().is_prefix_of(seen)
                    &&& windows_of(
                        seen,
                        window_views(r@),
                        old(self).window_size(),
                        old(self).step_size(),
                    )
                    &&& seen.skip(r@.len() * old(self).step_size()).is_prefix_of(
                        final(self).source_state().readable(),
                    )
                    &&& seen.len() - r@.len() * old(self).step_size() < old(self).window_size()
                },
            final(self).source_state().is_exclusive() == old(self).source_state().is_exclusive(),
            old(self).source_state().is_exclusive() ==> windows_of(
                old(self).source_state().readable(),
                window_views(r@),
                old(self).window_size(),
                old(self).step_size(),
            ),
            old(self).source_state().is_exclusive() ==> final(self).source_state().readable()
                == old(self).source_state().readable().skip(r@.len() * old(self).step_size()),
            old(self).source_state().is_exclusive() ==> old(self).source_state().readable().len()
                - r@.len() * old(self).step_size() < old(self).window_size(),
    {
        let available = self.source.available_len();
        let ghost seen = self.source.readable();
        let r = self.take_windows(available);
        assert(seen.take(available as int) =~= seen);
        assert(old(self).source_state().readable().is_prefix_of(seen));
        assert(windows_of(seen, window_views(r@), old(self).window_size(), old(self).step_size()));
        r
    }
}

} // verus!
