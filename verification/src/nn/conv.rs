//! The double-gated causal short convolution: its shape, and the rolling
//! state of the last `K - 1` gated inputs that makes a decode step cost `K`
//! products instead of the whole sequence.

use crate::models::qwen4exp::ple_conv::{joined, PleConvState};
use crate::nn::attention::Projection;
use vstd::prelude::*;

verus! {

/// Shape of a short convolution.
#[derive(Debug, Clone, Copy, PartialEq, Eq, Structural)]
pub struct ShortConvConfig {
    pub hidden_size: usize,
    /// Kernel length `K`.
    pub kernel_len: usize,
}

/// The projections and the depthwise kernel of a short convolution.
#[derive(Debug, Clone, Copy, PartialEq, Eq, Structural)]
pub struct ShortConvShape {
    /// To the input gate, the output gate and the value, side by side.
    pub in_proj: Projection,
    pub channels: usize,
    pub kernel: usize,
    /// Zeros on either side of the sequence.
    pub padding: usize,
    pub out_proj: Projection,
}

/// The rolling state: the last `K - 1` gated inputs of every channel, `None`
/// until the first forward.
pub struct ConvState {
    pub held: Option<PleConvState>,
}

impl ShortConvConfig {
    /// What is wrong with the shape.
    pub open spec fn flaw(self) -> Option<Seq<char>> {
        if self.hidden_size < 1 {
            Some("ShortConv: hidden_size must be >= 1"@)
        } else if self.kernel_len < 2 {
            Some("ShortConv: kernel_len must be >= 2 (a 1-tap conv is a no-op gate)"@)
        } else {
            None
        }
    }

    /// What is wrong with the shape.
    pub fn complaint(&self) -> (r: Option<String>)
        ensures
            match r {
                Some(m) => self.flaw() == Some(m@),
                None => self.flaw() is None,
            },
    {
        if self.hidden_size < 1 {
            return Some("ShortConv: hidden_size must be >= 1".to_owned());
        }
        if self.kernel_len < 2 {
            return Some(
                "ShortConv: kernel_len must be >= 2 (a 1-tap conv is a no-op gate)".to_owned(),
            );
        }
        None
    }

    /// The shapes of the module.
    pub fn init(&self) -> (r: ShortConvShape)
        requires
            self.flaw() is None,
            3 * self.hidden_size <= usize::MAX,
        ensures
            r == (ShortConvShape {
                in_proj: Projection {
                    inputs: self.hidden_size,
                    outputs: (3 * self.hidden_size) as usize,
                    bias: false,
                },
                channels: self.hidden_size,
                kernel: self.kernel_len,
                padding: (self.kernel_len - 1) as usize,
                out_proj: Projection {
                    inputs: self.hidden_size,
                    outputs: self.hidden_size,
                    bias: false,
                },
            }),
    {
        ShortConvShape {
            in_proj: Projection {
                inputs: self.hidden_size,
                outputs: 3 * self.hidden_size,
                bias: false,
            },
            channels: self.hidden_size,
            kernel: self.kernel_len,
            padding: self.kernel_len - 1,
            out_proj: Projection {
                inputs: self.hidden_size,
                outputs: self.hidden_size,
                bias: false,
            },
        }
    }
}

/// The history a state stands for: what it holds, or all zeros before the
/// first forward.
pub open spec fn stands_for(
    s: ConvState,
    batch: usize,
    channels: usize,
    kernel: usize,
    h: PleConvState,
) -> bool {
    &&& h.wf()
    &&& h.batch == batch
    &&& h.channels == channels
    &&& h.cols == kernel - 1
    &&& match s.held {
        Some(p) => h.hist@ == p.hist@ && p.wf() && p.batch == batch && p.channels == channels
            && p.cols == kernel - 1,
        None => forall|i: int| 0 <= i < h.hist@.len() ==> (#[trigger] h.hist@[i]) == 0,
    }
}

/// The past that `tokens` new inputs read: the held one for a decode step,
/// none for a prompt.
pub open spec fn read_from(s: ConvState, tokens: nat) -> ConvState {
    if tokens == 1 {
        s
    } else {
        ConvState { held: None }
    }
}

impl ConvState {
    /// The state before the first forward.
    pub fn new() -> (r: Self)
        ensures
            r.held is None,
    {
        ConvState { held: None }
    }

    /// Is the state empty or of this shape?
    pub open spec fn fits(self, batch: usize, channels: usize, kernel: usize) -> bool {
        self.held matches Some(p) ==> p.wf() && p.batch == batch && p.channels == channels
            && p.cols == kernel - 1
    }

    /// The windows of `kernel` gated inputs that end at each of the `tokens`
    /// new ones, and the state rolled forward: the last `kernel - 1` inputs.
    /// `gated` holds `[batch, tokens, channels]`. A single new input is a
    /// decode step and reads the held past; several are a prompt, read from
    /// its own start. A missing past reads as zeros.
    pub fn forward(
        &mut self,
        gated: &Vec<u32>,
        batch: usize,
        tokens: usize,
        channels: usize,
        kernel: usize,
    ) -> (r: Vec<u32>)
        requires
            kernel >= 2,
            tokens >= 1,
            old(self).fits(batch, channels, kernel),
            gated@.len() == batch * tokens * channels,
            kernel + tokens <= usize::MAX,
            batch * channels <= usize::MAX,
            batch * channels * (kernel - 1) <= usize::MAX,
            batch * tokens * channels * kernel <= usize::MAX,
        ensures
            final(self).fits(batch, channels, kernel),
            final(self).held is Some,
            exists|past: PleConvState, read: PleConvState|
                {
                    &&& #[trigger] stands_for(*old(self), batch, channels, kernel, past)
                    &&& #[trigger] stands_for(
                        read_from(*old(self), tokens as nat),
                        batch,
                        channels,
                        kernel,
                        read,
                    )
                    &&& r@ == read.windows(gated@, tokens as int, kernel as int, 1)
                    &&& final(self).held->0.hist@ == past.next_hist(gated@, tokens as int)
                },
    {
        let mut held: Option<PleConvState> = None;
        std::mem::swap(&mut held, &mut self.held);
        let mut h: PleConvState = match held {
            Some(p) => p,
            None => PleConvState::zeros(batch, channels, kernel - 1),
        };
        let ghost before = h;
        assert(stands_for(*old(self), batch, channels, kernel, before));
        assert((kernel - 1) * 1 == kernel - 1) by (nonlinear_arith);
        let windows: Vec<u32> = if tokens == 1 {
            assert(stands_for(
                read_from(*old(self), tokens as nat),
                batch,
                channels,
                kernel,
                before,
            ));
            h.conv_windows(gated, tokens, kernel, 1)
        } else {
            let fresh: PleConvState = PleConvState::zeros(batch, channels, kernel - 1);
            assert(stands_for(
                read_from(*old(self), tokens as nat),
                batch,
                channels,
                kernel,
                fresh,
            ));
            fresh.conv_windows(gated, tokens, kernel, 1)
        };
        h.advance(gated, tokens);
        self.held = Some(h);
        windows
    }
}

/// Decoding piece by piece rolls the state as one full prefill does: the
/// state after two pieces is the state after both at once.
pub proof fn rolling_in_pieces_is_rolling_at_once(
    h: PleConvState,
    mid: PleConvState,
    first: Seq<u32>,
    t1: int,
    second: Seq<u32>,
    t2: int,
    all: Seq<u32>,
)
    requires
        h.wf(),
        mid.batch == h.batch,
        mid.channels == h.channels,
        mid.cols == h.cols,
        mid.hist@ == h.next_hist(first, t1),
        t1 >= 0,
        t2 >= 0,
        joined(h.batch as int, h.channels as int, first, t1, second, t2, all),
    ensures
        mid.next_hist(second, t2) == h.next_hist(all, t1 + t2),
{
    h.advances_compose(mid, first, t1, second, t2, all);
}

/// A decode step reads what the whole prompt would read at that position: the
/// state after `t` inputs gives the next one the window that the full forward
/// gives it.
pub proof fn a_decode_step_reads_the_prompt_window(
    h: PleConvState,
    mid: PleConvState,
    first: Seq<u32>,
    t: int,
    token: Seq<u32>,
    all: Seq<u32>,
    kernel: int,
    bi: int,
    ch: int,
    tap: int,
)
    requires
        h.wf(),
        mid.batch == h.batch,
        mid.channels == h.channels,
        mid.cols == h.cols,
        mid.hist@ == h.next_hist(first, t),
        t >= 0,
        joined(h.batch as int, h.channels as int, first, t, token, 1, all),
        h.cols == kernel - 1,
        0 <= bi < h.batch,
        0 <= ch < h.channels,
        0 <= tap < kernel,
    ensures
        mid.tap_at(token, 1, kernel, 1, bi, 0, ch, tap) == h.tap_at(
            all,
            t + 1,
            kernel,
            1,
            bi,
            t,
            ch,
            tap,
        ),
{
    assert((kernel - 1) * 1 == kernel - 1) by (nonlinear_arith);
    h.split_input_keeps_windows(mid, first, t, token, 1, all, kernel, 1, bi, 0, ch, tap);
}

} // verus!
