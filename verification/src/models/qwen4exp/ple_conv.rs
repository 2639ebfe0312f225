//! The state and the reads of the PLE block's dilated depthwise causal
//! convolution. Values are carried by their bit patterns: here they are only
//! moved, never combined.

use vstd::arithmetic::div_mod::{
    lemma_fundamental_div_mod, lemma_fundamental_div_mod_converse, lemma_mod_bound,
};
use vstd::arithmetic::mul::lemma_mul_inequality;
use vstd::prelude::*;

verus! {

/// The carried history for one generation: the last `cols` columns per
/// channel, oldest column first, zeros at sequence start.
///
/// Layout `[batch][channel][column]`: flat `col + cols·(channel +
/// channels·batch)`.
#[derive(Debug)]
pub struct PleConvState {
    pub hist: Vec<u32>,
    pub batch: usize,
    pub channels: usize,
    pub cols: usize,
}

/// The flat place of column `col` of channel `ch` of sequence `bi`.
pub open spec fn hist_at(channels: int, cols: int, bi: int, ch: int, col: int) -> int {
    (bi * channels + ch) * cols + col
}

/// The flat place of channel `ch` of token `ti` of sequence `bi`.
pub open spec fn input_at(tokens: int, channels: int, bi: int, ti: int, ch: int) -> int {
    (bi * tokens + ti) * channels + ch
}

/// `a < n` and `b < m` give a place below `n * m`.
proof fn lemma_flat_bound(a: int, b: int, n: int, m: int)
    requires
        0 <= a < n,
        0 <= b < m,
    ensures
        0 <= a * m + b < n * m,
{
    lemma_mul_inequality(a + 1, n, m);
    assert((a + 1) * m == a * m + m) by (nonlinear_arith);
    assert(0 <= a * m) by (nonlinear_arith)
        requires
            0 <= a,
            0 <= m,
    ;
}

/// Taking a flat place apart.
proof fn lemma_unflatten(k: int, n: int, m: int)
    requires
        0 <= k < n * m,
        0 < m,
    ensures
        0 <= k / m < n,
        0 <= k % m < m,
        k == (k / m) * m + k % m,
{
    lemma_fundamental_div_mod(k, m);
    lemma_mod_bound(k, m);
    assert(k / m * m == m * (k / m)) by (nonlinear_arith);
    assert(0 <= k / m < n) by (nonlinear_arith)
        requires
            0 <= k < n * m,
            k == (k / m) * m + k % m,
            0 <= k % m < m,
    ;
}

impl PleConvState {
    /// The history holds one column run per channel.
    pub open spec fn wf(self) -> bool {
        self.hist@.len() == self.batch * self.channels * self.cols
    }

    /// Column `col` of `[history (cols) | input (tokens)]`.
    pub open spec fn column(self, xs: Seq<u32>, tokens: int, bi: int, ch: int, col: int) -> u32 {
        if col < self.cols {
            self.hist@[hist_at(self.channels as int, self.cols as int, bi, ch, col)]
        } else {
            xs[input_at(tokens, self.channels as int, bi, col - self.cols, ch)]
        }
    }

    /// The history after `tokens` columns of input: the last `cols` columns.
    pub open spec fn next_hist(self, xs: Seq<u32>, tokens: int) -> Seq<u32> {
        let cols = self.cols as int;
        let channels = self.channels as int;
        Seq::new(
            (self.batch * channels * cols) as nat,
            |k: int|
                self.column(
                    xs,
                    tokens,
                    k / cols / channels,
                    k / cols % channels,
                    tokens + k % cols,
                ),
        )
    }

    /// What the convolution reads: for every output `[batch][token][channel]`
    /// its taps in order, tap `k` reading `(kernel-1-k)·dilation` columns
    /// back.
    pub open spec fn windows(self, xs: Seq<u32>, tokens: int, kernel: int, dilation: int) -> Seq<
        u32,
    > {
        let channels = self.channels as int;
        Seq::new(
            (self.batch * tokens * channels * kernel) as nat,
            |k: int|
                self.column(
                    xs,
                    tokens,
                    k / kernel / channels / tokens,
                    k / kernel % channels,
                    self.cols + k / kernel / channels % tokens - (kernel - 1 - k % kernel)
                        * dilation,
                ),
        )
    }

    /// A fresh (all-zero) history.
    pub fn zeros(batch: usize, channels: usize, cols: usize) -> (r: Self)
        requires
            batch * channels <= usize::MAX,
            batch * channels * cols <= usize::MAX,
        ensures
            r.wf(),
            r.batch == batch,
            r.channels == channels,
            r.cols == cols,
            forall|i: int| 0 <= i < r.hist@.len() ==> #[trigger] r.hist@[i] == 0,
    {
        let total: usize = batch * channels * cols;
        let mut hist: Vec<u32> = Vec::new();
        let mut i: usize = 0;
        while i < total
            invariant
                i <= total,
                hist@.len() == i,
                forall|k: int| 0 <= k < i ==> #[trigger] hist@[k] == 0,
            decreases total - i,
        {
            hist.push(0);
            i += 1;
        }
        PleConvState { hist, batch, channels, cols }
    }

    /// The raw history (see the type docs for the layout).
    pub fn history(&self) -> (r: &[u32])
        ensures
            r@ == self.hist@,
    {
        self.hist.as_slice()
    }

    /// Back to the sequence-start state.
    pub fn reset(&mut self)
        ensures
            final(self).hist@.len() == old(self).hist@.len(),
            forall|i: int|
                0 <= i < final(self).hist@.len() ==> #[trigger] final(self).hist@[i] == 0,
            final(self).batch == old(self).batch,
            final(self).channels == old(self).channels,
            final(self).cols == old(self).cols,
    {
        let n: usize = self.hist.len();
        let mut hist: Vec<u32> = Vec::new();
        let mut i: usize = 0;
        while i < n
            invariant
                i <= n,
                hist@.len() == i,
                forall|k: int| 0 <= k < i ==> #[trigger] hist@[k] == 0,
            decreases n - i,
        {
            hist.push(0);
            i += 1;
        }
        self.hist = hist;
    }

    /// Read column `col` of `[history | input]`.
    fn padded(&self, xs: &Vec<u32>, tokens: usize, bi: usize, ch: usize, col: usize) -> (r: u32)
        requires
            self.wf(),
            xs@.len() == self.batch * tokens * self.channels,
            bi < self.batch,
            ch < self.channels,
            col < self.cols + tokens,
        ensures
            r == self.column(xs@, tokens as int, bi as int, ch as int, col as int),
    {
        proof {
            assert(xs.len() == xs@.len());
            assert(self.hist.len() == self.hist@.len());
        }
        if col < self.cols {
            proof {
                lemma_flat_bound(bi as int, ch as int, self.batch as int, self.channels as int);
                let row = bi * self.channels + ch;
                lemma_flat_bound(
                    row,
                    col as int,
                    self.batch * self.channels,
                    self.cols as int,
                );
                assert(row <= row * self.cols) by (nonlinear_arith)
                    requires
                        0 <= row,
                        1 <= self.cols,
                ;
                assert(bi * self.channels <= row);
                assert(0 <= bi * self.channels) by (nonlinear_arith);
            }
            self.hist[(bi * self.channels + ch) * self.cols + col]
        } else {
            let ti: usize = col - self.cols;
            proof {
                lemma_flat_bound(bi as int, ti as int, self.batch as int, tokens as int);
                let row = bi * tokens + ti;
                lemma_flat_bound(row, ch as int, self.batch * tokens, self.channels as int);
                assert(row <= row * self.channels) by (nonlinear_arith)
                    requires
                        0 <= row,
                        1 <= self.channels,
                ;
                assert(0 <= bi * tokens) by (nonlinear_arith);
            }
            xs[(bi * tokens + ti) * self.channels + ch]
        }
    }

    /// Advance the history by `tokens` columns of input `[batch, tokens,
    /// channels]`: the new history is the last `cols` columns of what was
    /// carried and what came in.
    pub fn advance(&mut self, xs: &Vec<u32>, tokens: usize)
        requires
            old(self).wf(),
            xs@.len() == old(self).batch * tokens * old(self).channels,
            old(self).cols + tokens <= usize::MAX,
        ensures
            final(self).wf(),
            final(self).hist@ == old(self).next_hist(xs@, tokens as int),
            final(self).batch == old(self).batch,
            final(self).channels == old(self).channels,
            final(self).cols == old(self).cols,
    {
        let total: usize = self.hist.len();
        let mut next: Vec<u32> = Vec::new();
        let mut k: usize = 0;
        while k < total
            invariant
                k <= total,
                self.wf(),
                total == self.hist@.len(),
                xs@.len() == self.batch * tokens * self.channels,
                self.cols + tokens <= usize::MAX,
                next@.len() == k,
                forall|j: int|
                    0 <= j < k ==> (#[trigger] next@[j]) == self.next_hist(
                        xs@,
                        tokens as int,
                    )[j],
                *self == *old(self),
            decreases total - k,
        {
            proof {
                let cols = self.cols as int;
                let channels = self.channels as int;
                if cols == 0 {
                    assert(self.batch * channels * cols == 0) by (nonlinear_arith)
                        requires
                            cols == 0,
                    ;
                }
                lemma_unflatten(k as int, self.batch * channels, cols);
                if channels == 0 {
                    assert(self.batch * channels == 0) by (nonlinear_arith)
                        requires
                            channels == 0,
                    ;
                }
                lemma_unflatten(k as int / cols, self.batch as int, channels);
            }
            let row: usize = k / self.cols;
            let v: u32 = self.padded(
                xs,
                tokens,
                row / self.channels,
                row % self.channels,
                tokens + k % self.cols,
            );
            next.push(v);
            k += 1;
        }
        assert(next@ =~= self.next_hist(xs@, tokens as int));
        self.hist = next;
    }

    /// Everything the convolution of an input `[batch, tokens, channels]`
    /// reads, output by output, tap by tap (see [`Self::windows`]).
    pub fn conv_windows(
        &self,
        xs: &Vec<u32>,
        tokens: usize,
        kernel: usize,
        dilation: usize,
    ) -> (r: Vec<u32>)
        requires
            self.wf(),
            xs@.len() == self.batch * tokens * self.channels,
            1 <= kernel,
            self.cols == (kernel - 1) * dilation,
            self.cols + tokens <= usize::MAX,
            self.batch * tokens * self.channels * kernel <= usize::MAX,
        ensures
            r@ == self.windows(xs@, tokens as int, kernel as int, dilation as int),
    {
        let total: usize = xs.len() * kernel;
        let mut out: Vec<u32> = Vec::new();
        let mut k: usize = 0;
        while k < total
            invariant
                k <= total,
                self.wf(),
                xs@.len() == self.batch * tokens * self.channels,
                total == xs@.len() * kernel,
                1 <= kernel,
                self.cols == (kernel - 1) * dilation,
                self.cols + tokens <= usize::MAX,
                out@.len() == k,
                forall|j: int|
                    0 <= j < k ==> (#[trigger] out@[j]) == self.windows(
                        xs@,
                        tokens as int,
                        kernel as int,
                        dilation as int,
                    )[j],
            decreases total - k,
        {
            proof {
                let channels = self.channels as int;
                lemma_unflatten(k as int, xs@.len() as int, kernel as int);
                if channels == 0 {
                    assert(self.batch * tokens * channels == 0) by (nonlinear_arith)
                        requires
                            channels == 0,
                    ;
                }
                lemma_unflatten(k as int / kernel as int, self.batch * tokens, channels);
                if tokens == 0 {
                    assert(self.batch * tokens == 0) by (nonlinear_arith)
                        requires
                            tokens == 0,
                    ;
                }
                lemma_unflatten(
                    k as int / kernel as int / channels,
                    self.batch as int,
                    tokens as int,
                );
                lemma_mul_inequality(
                    kernel - 1 - k as int % kernel as int,
                    kernel - 1,
                    dilation as int,
                );
                assert(0 <= (kernel - 1 - k as int % kernel as int) * dilation)
                    by (nonlinear_arith)
                    requires
                        k as int % kernel as int <= kernel - 1,
                ;
            }
            let tap: usize = k % kernel;
            let row: usize = k / kernel;
            let ti: usize = row / self.channels % tokens;
            let reach: usize = (kernel - 1 - tap) * dilation;
            let v: u32 = self.padded(
                xs,
                tokens,
                row / self.channels / tokens,
                row % self.channels,
                self.cols + ti - reach,
            );
            out.push(v);
            k += 1;
        }
        assert(out@ =~= self.windows(xs@, tokens as int, kernel as int, dilation as int));
        out
    }
}

/// `all` is the input `first` followed in time by the input `second`,
/// sequence by sequence.
pub open spec fn joined(
    batch: int,
    channels: int,
    first: Seq<u32>,
    t1: int,
    second: Seq<u32>,
    t2: int,
    all: Seq<u32>,
) -> bool {
    forall|bi: int, ti: int, ch: int|
        0 <= bi < batch && 0 <= ti < t1 + t2 && 0 <= ch < channels ==> (#[trigger] all[input_at(
            t1 + t2,
            channels,
            bi,
            ti,
            ch,
        )]) == if ti < t1 {
            first[input_at(t1, channels, bi, ti, ch)]
        } else {
            second[input_at(t2, channels, bi, ti - t1, ch)]
        }
}

impl PleConvState {
    /// Splitting an input in time changes no column: the second call, on the
    /// history the first one left, sees every column the single call over
    /// both parts sees.
    pub proof fn split_input_keeps_columns(
        self,
        mid: PleConvState,
        first: Seq<u32>,
        t1: int,
        second: Seq<u32>,
        t2: int,
        all: Seq<u32>,
        bi: int,
        ch: int,
        col: int,
    )
        requires
            self.wf(),
            mid.batch == self.batch,
            mid.channels == self.channels,
            mid.cols == self.cols,
            mid.hist@ == self.next_hist(first, t1),
            0 <= t1,
            0 <= t2,
            joined(self.batch as int, self.channels as int, first, t1, second, t2, all),
            0 <= bi < self.batch,
            0 <= ch < self.channels,
            0 <= col < self.cols + t2,
        ensures
            mid.column(second, t2, bi, ch, col) == self.column(all, t1 + t2, bi, ch, t1 + col),
    {
        let cols = self.cols as int;
        let channels = self.channels as int;
        if col < cols {
            let k = hist_at(channels, cols, bi, ch, col);
            lemma_flat_bound(bi, ch, self.batch as int, channels);
            lemma_flat_bound(bi * channels + ch, col, self.batch * channels, cols);
            lemma_fundamental_div_mod_converse(k, cols, bi * channels + ch, col);
            lemma_fundamental_div_mod_converse(bi * channels + ch, channels, bi, ch);
            assert(mid.hist@[k] == self.column(first, t1, bi, ch, t1 + col));
            if t1 + col >= cols {
                let ti = t1 + col - cols;
                assert(all[input_at(t1 + t2, channels, bi, ti, ch)] == first[input_at(
                    t1,
                    channels,
                    bi,
                    ti,
                    ch,
                )]);
            }
        } else {
            let ti = t1 + col - cols;
            assert(all[input_at(t1 + t2, channels, bi, ti, ch)] == second[input_at(
                t2,
                channels,
                bi,
                ti - t1,
                ch,
            )]);
        }
    }

    /// Tap `tap` of the output of channel `ch` at token `ti` of sequence `bi`.
    pub open spec fn tap_at(
        self,
        xs: Seq<u32>,
        tokens: int,
        kernel: int,
        dilation: int,
        bi: int,
        ti: int,
        ch: int,
        tap: int,
    ) -> u32 {
        self.windows(xs, tokens, kernel, dilation)[((bi * tokens + ti) * self.channels + ch)
            * kernel + tap]
    }

    /// The tap's column.
    proof fn lemma_tap_at(
        self,
        xs: Seq<u32>,
        tokens: int,
        kernel: int,
        dilation: int,
        bi: int,
        ti: int,
        ch: int,
        tap: int,
    )
        requires
            0 <= bi < self.batch,
            0 <= ti < tokens,
            0 <= ch < self.channels,
            0 <= tap < kernel,
        ensures
            self.tap_at(xs, tokens, kernel, dilation, bi, ti, ch, tap) == self.column(
                xs,
                tokens,
                bi,
                ch,
                self.cols + ti - (kernel - 1 - tap) * dilation,
            ),
    {
        let channels = self.channels as int;
        let row = bi * tokens + ti;
        let out = row * channels + ch;
        let k = out * kernel + tap;
        lemma_flat_bound(bi, ti, self.batch as int, tokens);
        lemma_flat_bound(row, ch, self.batch * tokens, channels);
        lemma_flat_bound(out, tap, self.batch * tokens * channels, kernel);
        lemma_fundamental_div_mod_converse(k, kernel, out, tap);
        lemma_fundamental_div_mod_converse(out, channels, row, ch);
        lemma_fundamental_div_mod_converse(row, tokens, bi, ti);
    }

    /// Splitting an input in time changes no window: the outputs of the second
    /// call, on the history the first one left, read what the single call over
    /// both parts reads at the same positions.
    pub proof fn split_input_keeps_windows(
        self,
        mid: PleConvState,
        first: Seq<u32>,
        t1: int,
        second: Seq<u32>,
        t2: int,
        all: Seq<u32>,
        kernel: int,
        dilation: int,
        bi: int,
        ti: int,
        ch: int,
        tap: int,
    )
        requires
            self.wf(),
            mid.batch == self.batch,
            mid.channels == self.channels,
            mid.cols == self.cols,
            mid.hist@ == self.next_hist(first, t1),
            0 <= t1,
            joined(self.batch as int, self.channels as int, first, t1, second, t2, all),
            self.cols == (kernel - 1) * dilation,
            dilation >= 0,
            0 <= bi < self.batch,
            0 <= ti < t2,
            0 <= ch < self.channels,
            0 <= tap < kernel,
        ensures
            mid.tap_at(second, t2, kernel, dilation, bi, ti, ch, tap) == self.tap_at(
                all,
                t1 + t2,
                kernel,
                dilation,
                bi,
                t1 + ti,
                ch,
                tap,
            ),
    {
        mid.lemma_tap_at(second, t2, kernel, dilation, bi, ti, ch, tap);
        self.lemma_tap_at(all, t1 + t2, kernel, dilation, bi, t1 + ti, ch, tap);
        let back = (kernel - 1 - tap) * dilation;
        assert(0 <= back <= (kernel - 1) * dilation) by (nonlinear_arith)
            requires
                back == (kernel - 1 - tap) * dilation,
                0 <= tap < kernel,
                dilation >= 0,
        ;
        let col = self.cols + ti - back;
        self.split_input_keeps_columns(mid, first, t1, second, t2, all, bi, ch, col);
    }

    /// Advancing by two inputs in turn leaves the history that advancing by
    /// both at once leaves.
    pub proof fn advances_compose(
        self,
        mid: PleConvState,
        first: Seq<u32>,
        t1: int,
        second: Seq<u32>,
        t2: int,
        all: Seq<u32>,
    )
        requires
            self.wf(),
            mid.batch == self.batch,
            mid.channels == self.channels,
            mid.cols == self.cols,
            mid.hist@ == self.next_hist(first, t1),
            0 <= t1,
            0 <= t2,
            joined(self.batch as int, self.channels as int, first, t1, second, t2, all),
        ensures
            mid.next_hist(second, t2) == self.next_hist(all, t1 + t2),
    {
        let cols = self.cols as int;
        let channels = self.channels as int;
        let n = self.batch * channels * cols;
        assert forall|k: int| 0 <= k < n implies mid.next_hist(second, t2)[k] == self.next_hist(
            all,
            t1 + t2,
        )[k] by {
            if cols == 0 {
                assert(n == 0) by (nonlinear_arith)
                    requires
                        cols == 0,
                        n == self.batch * channels * cols,
                ;
            }
            lemma_unflatten(k, self.batch * channels, cols);
            if channels == 0 {
                assert(self.batch * channels == 0) by (nonlinear_arith)
                    requires
                        channels == 0,
                ;
            }
            lemma_unflatten(k / cols, self.batch as int, channels);
            self.split_input_keeps_columns(
                mid,
                first,
                t1,
                second,
                t2,
                all,
                k / cols / channels,
                k / cols % channels,
                t2 + k % cols,
            );
        }
        assert(mid.next_hist(second, t2) =~= self.next_hist(all, t1 + t2));
    }

    /// A single advance by no input changes nothing.
    pub proof fn advancing_by_nothing_changes_nothing(self)
        requires
            self.wf(),
        ensures
            self.next_hist(Seq::empty(), 0) == self.hist@,
    {
        let cols = self.cols as int;
        let channels = self.channels as int;
        let n = self.batch * channels * cols;
        assert forall|k: int| 0 <= k < n implies self.next_hist(Seq::empty(), 0)[k]
            == self.hist@[k] by {
            if cols == 0 {
                assert(n == 0) by (nonlinear_arith)
                    requires
                        cols == 0,
                        n == self.batch * channels * cols,
                ;
            }
            lemma_unflatten(k, self.batch * channels, cols);
            if channels == 0 {
                assert(self.batch * channels == 0) by (nonlinear_arith)
                    requires
                        channels == 0,
                ;
            }
            lemma_unflatten(k / cols, self.batch as int, channels);
        }
        assert(self.next_hist(Seq::empty(), 0) =~= self.hist@);
    }
}

} // verus!
