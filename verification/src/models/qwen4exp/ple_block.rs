//! The PLE block: a row of the table, projected to a key per stream and one
//! value, gates the value into every stream, and a dilated depthwise causal
//! convolution runs over the gated values. Here: which shapes fit, and what the
//! convolution multiplies. The projections, the norms, the gates and the sums
//! are the caller's.

use crate::models::qwen4exp::hc::{
    groups_flaw, grouped_rms, linear3, projection_flaw, width_complaint, width_flaw, Dims3, Weight,
};
use crate::models::qwen4exp::ple_conv::PleConvState;
use vstd::prelude::*;

verus! {

/// The sizes of the six tensors of one block.
#[derive(Debug, Clone, Copy, PartialEq, Eq, Structural)]
pub struct PleWeights {
    /// `E_ple` to `H * E`.
    pub key: Weight,
    /// `E_ple` to `E`.
    pub value: Weight,
    /// The grouped norms' gammas, `H * E` values each, stream-major.
    pub norm_key: usize,
    pub norm_query: usize,
    pub norm_conv: usize,
    /// The depthwise kernel: tap `k` of channel `c` stands at `k + kernel * c`.
    pub conv: usize,
}

/// One block: the sizes of its weights, of its streams and of its convolution,
/// and the epsilon of its norms by bit pattern.
#[derive(Debug, Clone, Copy, PartialEq, Eq, Structural)]
pub struct PleBlock {
    pub weights: PleWeights,
    /// Width of one stream.
    pub hidden: usize,
    /// Number of residual streams.
    pub streams: usize,
    /// Taps of the convolution.
    pub kernel: usize,
    /// Columns from one tap to the next.
    pub dilation: usize,
    pub eps: u64,
}

/// What is wrong with a block's weights.
pub open spec fn block_flaw(
    weights: PleWeights,
    hidden: nat,
    streams: nat,
    kernel: nat,
    dilation: nat,
) -> Option<Seq<char>> {
    let width = hidden * streams;
    if weights.key.outputs != width {
        Some("ple key maps E_ple -> H*E"@)
    } else if weights.value.inputs != weights.key.inputs || weights.value.outputs != hidden {
        Some("ple value maps E_ple -> E"@)
    } else if weights.norm_key != width {
        Some("ple norm_key is [H*E]"@)
    } else if weights.norm_query != width {
        Some("ple norm_query is [H*E]"@)
    } else if weights.norm_conv != width {
        Some("ple norm_conv is [H*E]"@)
    } else if kernel < 1 || dilation < 1 {
        Some("degenerate conv"@)
    } else if weights.conv != kernel * width {
        Some("ple conv is [kernel*H*E]"@)
    } else {
        None
    }
}

/// One term of an output of the convolution: the value read, by its bit
/// pattern, and the place of the tap that it is multiplied by.
#[derive(Debug, Clone, Copy, PartialEq, Eq, Structural)]
pub struct Product {
    pub value: u32,
    pub tap: usize,
}

/// The place of tap `k` of channel `ch`.
pub open spec fn tap_place(k: int, ch: int, kernel: int) -> int {
    k + kernel * ch
}

/// What the convolution multiplies: for every output `[batch][token][channel]`
/// its terms in the order in which they are summed.
pub open spec fn products(
    state: PleConvState,
    xs: Seq<u32>,
    tokens: int,
    kernel: int,
    dilation: int,
) -> Seq<Product> {
    let read = state.windows(xs, tokens, kernel, dilation);
    Seq::new(
        read.len(),
        |i: int|
            Product {
                value: read[i],
                tap: tap_place(i % kernel, i / kernel % (state.channels as int), kernel) as usize,
            },
    )
}

/// What is wrong with a convolution state.
pub open spec fn state_flaw(state: PleConvState, batch: nat, channels: nat, cols: nat) -> Option<
    Seq<char>,
> {
    if state.batch != batch || state.channels != channels || state.cols != cols {
        Some("PLE conv state is [batch, channels, cols]"@)
    } else {
        None
    }
}

/// A tap's place lies in the kernel.
proof fn lemma_tap_place(k: int, ch: int, kernel: int, channels: int)
    requires
        0 <= k < kernel,
        0 <= ch < channels,
    ensures
        0 <= tap_place(k, ch, kernel) < kernel * channels,
{
    assert(0 <= k + kernel * ch < kernel * channels) by (nonlinear_arith)
        requires
            0 <= k < kernel,
            0 <= ch < channels,
    ;
}

impl PleBlock {
    /// The weights fit the streams and the convolution, and the sizes fit the
    /// machine.
    pub open spec fn wf(self) -> bool {
        &&& self.hidden * self.streams <= usize::MAX
        &&& self.kernel * (self.hidden * self.streams) <= usize::MAX
        &&& (self.kernel - 1) * self.dilation <= usize::MAX
        &&& block_flaw(
            self.weights,
            self.hidden as nat,
            self.streams as nat,
            self.kernel as nat,
            self.dilation as nat,
        ) is None
    }

    /// Columns of history that the convolution carries.
    pub open spec fn columns(self) -> int {
        (self.kernel - 1) * self.dilation
    }

    /// Assemble a block from its weights, or say which one does not fit.
    pub fn from_weights(
        weights: PleWeights,
        hidden: usize,
        streams: usize,
        kernel: usize,
        dilation: usize,
        eps: u64,
    ) -> (r: Result<Self, String>)
        requires
            hidden * streams <= usize::MAX,
            kernel * (hidden * streams) <= usize::MAX,
            (kernel - 1) * dilation <= usize::MAX,
        ensures
            match r {
                Ok(block) => block.wf() && block == (PleBlock {
                    weights,
                    hidden,
                    streams,
                    kernel,
                    dilation,
                    eps,
                }) && block_flaw(
                    weights,
                    hidden as nat,
                    streams as nat,
                    kernel as nat,
                    dilation as nat,
                ) is None,
                Err(e) => block_flaw(
                    weights,
                    hidden as nat,
                    streams as nat,
                    kernel as nat,
                    dilation as nat,
                ) == Some(e@),
            },
    {
        let width: usize = hidden * streams;
        if weights.key.outputs != width {
            return Err("ple key maps E_ple -> H*E".to_owned());
        }
        if weights.value.inputs != weights.key.inputs || weights.value.outputs != hidden {
            return Err("ple value maps E_ple -> E".to_owned());
        }
        if weights.norm_key != width {
            return Err("ple norm_key is [H*E]".to_owned());
        }
        if weights.norm_query != width {
            return Err("ple norm_query is [H*E]".to_owned());
        }
        if weights.norm_conv != width {
            return Err("ple norm_conv is [H*E]".to_owned());
        }
        if kernel < 1 || dilation < 1 {
            return Err("degenerate conv".to_owned());
        }
        if weights.conv != kernel * width {
            return Err("ple conv is [kernel*H*E]".to_owned());
        }
        Ok(PleBlock { weights, hidden, streams, kernel, dilation, eps })
    }

    /// Columns of history that the convolution carries:
    /// `(kernel - 1) * dilation`.
    pub fn history_len(&self) -> (r: usize)
        requires
            self.wf(),
        ensures
            r == self.columns(),
    {
        (self.kernel - 1) * self.dilation
    }

    /// A zero history for `batch` sequences.
    pub fn new_state(&self, batch: usize) -> (r: PleConvState)
        requires
            self.wf(),
            batch * (self.hidden * self.streams) <= usize::MAX,
            batch * (self.hidden * self.streams) * self.columns() <= usize::MAX,
        ensures
            r.wf(),
            r.batch == batch,
            r.channels == self.hidden * self.streams,
            r.cols == self.columns(),
            forall|i: int| 0 <= i < r.hist@.len() ==> #[trigger] r.hist@[i] == 0,
    {
        PleConvState::zeros(batch, self.hidden * self.streams, self.history_len())
    }

    /// What is wrong with running the block on a residual, the embedding of
    /// its tokens and a convolution state.
    pub open spec fn forward_flaw(self, res: Dims3, emb: Dims3, state: PleConvState) -> Option<
        Seq<char>,
    > {
        if width_flaw(res.width as nat, self.streams as nat, self.hidden as nat) is Some {
            width_flaw(res.width as nat, self.streams as nat, self.hidden as nat)
        } else if emb.batch != res.batch || emb.time != res.time {
            Some("PLE embedding batch/time must match the residual"@)
        } else if projection_flaw(self.weights.key, emb.width as nat) is Some {
            projection_flaw(self.weights.key, emb.width as nat)
        } else if groups_flaw(res.width as nat, self.streams as nat) is Some {
            groups_flaw(res.width as nat, self.streams as nat)
        } else {
            state_flaw(state, res.batch as nat, res.width as nat, self.columns() as nat)
        }
    }

    /// The shape that running the block gives, which is the residual's, or
    /// what is wrong with running it.
    pub fn forward(&self, res: Dims3, emb: Dims3, state: &PleConvState) -> (r: Result<
        Dims3,
        String,
    >)
        requires
            self.wf(),
        ensures
            match r {
                Ok(d) => self.forward_flaw(res, emb, *state) is None && d == res,
                Err(m) => self.forward_flaw(res, emb, *state) == Some(m@),
            },
    {
        assert(self.streams * self.hidden == self.hidden * self.streams) by (nonlinear_arith);
        match width_complaint(res.width, self.streams, self.hidden) {
            Some(m) => {
                return Err(m);
            },
            None => {},
        }
        if emb.batch != res.batch || emb.time != res.time {
            return Err("PLE embedding batch/time must match the residual".to_owned());
        }
        match linear3(self.weights.key, emb.batch, emb.time, emb.width) {
            Ok(_) => {},
            Err(m) => {
                return Err(m);
            },
        }
        match grouped_rms(res.width, self.streams) {
            Ok(_) => {},
            Err(m) => {
                return Err(m);
            },
        }
        if state.batch != res.batch || state.channels != res.width || state.cols
            != self.history_len() {
            return Err("PLE conv state is [batch, channels, cols]".to_owned());
        }
        Ok(res)
    }

    /// The dilated depthwise causal convolution over `[history | input]`: what
    /// each output sums, and the history moved on by the input. `xs` is the
    /// input `[batch][token][channel]`.
    pub fn conv_host(&self, xs: &Vec<u32>, tokens: usize, state: &mut PleConvState) -> (r: Vec<
        Product,
    >)
        requires
            self.wf(),
            old(state).wf(),
            state_flaw(
                *old(state),
                old(state).batch as nat,
                (self.hidden * self.streams) as nat,
                self.columns() as nat,
            ) is None,
            xs@.len() == old(state).batch * tokens * old(state).channels,
            old(state).cols + tokens <= usize::MAX,
            old(state).batch * tokens * old(state).channels * self.kernel <= usize::MAX,
        ensures
            r@ == products(
                *old(state),
                xs@,
                tokens as int,
                self.kernel as int,
                self.dilation as int,
            ),
            forall|i: int| 0 <= i < r@.len() ==> (#[trigger] r@[i]).tap < self.weights.conv,
            final(state).wf(),
            final(state).hist@ == old(state).next_hist(xs@, tokens as int),
            final(state).batch == old(state).batch,
            final(state).channels == old(state).channels,
            final(state).cols == old(state).cols,
    {
        let read: Vec<u32> = state.conv_windows(xs, tokens, self.kernel, self.dilation);
        let kernel: usize = self.kernel;
        let channels: usize = state.channels;
        let mut out: Vec<Product> = Vec::new();
        let mut i: usize = 0;
        while i < read.len()
            invariant
                self.wf(),
                kernel == self.kernel,
                channels == self.hidden * self.streams,
                channels == old(state).channels,
                *state == *old(state),
                i <= read@.len(),
                out@.len() == i,
                read@ == old(state).windows(
                    xs@,
                    tokens as int,
                    kernel as int,
                    self.dilation as int,
                ),
                read@.len() == old(state).batch * tokens * channels * kernel,
                forall|k: int|
                    0 <= k < i ==> #[trigger] out@[k] == products(
                        *old(state),
                        xs@,
                        tokens as int,
                        kernel as int,
                        self.dilation as int,
                    )[k],
                forall|k: int| 0 <= k < i ==> (#[trigger] out@[k]).tap < self.weights.conv,
            decreases read@.len() - i,
        {
            proof {
                let b: int = state.batch as int;
                if channels == 0 {
                    assert(b * tokens * channels * kernel == 0) by (nonlinear_arith)
                        requires
                            channels == 0,
                    ;
                }
                lemma_tap_place(
                    i as int % kernel as int,
                    i as int / kernel as int % channels as int,
                    kernel as int,
                    channels as int,
                );
                assert(0 <= kernel * (i as int / kernel as int % channels as int))
                    by (nonlinear_arith)
                    requires
                        kernel >= 0,
                        channels > 0,
                ;
            }
            out.push(Product { value: read[i], tap: i % kernel + kernel * (i / kernel % channels) });
            i += 1;
        }
        state.advance(xs, tokens);
        out
    }
}

/// Term `k` of output `p` is multiplied by tap `k` of the output's channel,
/// whatever its sequence and token: the kernel is depthwise and the same at
/// every position.
pub proof fn every_position_shares_the_kernel(
    state: PleConvState,
    xs: Seq<u32>,
    tokens: int,
    kernel: int,
    dilation: int,
    row: int,
    ch: int,
    k: int,
)
    requires
        0 <= row < state.batch * tokens,
        0 <= ch < state.channels,
        0 <= k < kernel,
        kernel * state.channels <= usize::MAX,
    ensures
        0 <= (row * state.channels + ch) * kernel + k < products(
            state,
            xs,
            tokens,
            kernel,
            dilation,
        ).len(),
        products(state, xs, tokens, kernel, dilation)[(row * state.channels + ch) * kernel + k].tap
            == tap_place(k, ch, kernel),
{
    let channels = state.channels as int;
    let p = row * channels + ch;
    vstd::arithmetic::div_mod::lemma_fundamental_div_mod_converse(p * kernel + k, kernel, p, k);
    vstd::arithmetic::div_mod::lemma_fundamental_div_mod_converse(p, channels, row, ch);
    lemma_tap_place(k, ch, kernel, channels);
    assert(0 <= p < state.batch * tokens * channels) by (nonlinear_arith)
        requires
            0 <= row < state.batch * tokens,
            0 <= ch < channels,
            p == row * channels + ch,
    ;
    assert(0 <= p * kernel + k < state.batch * tokens * channels * kernel) by (nonlinear_arith)
        requires
            0 <= p < state.batch * tokens * channels,
            0 <= k < kernel,
    ;
}

} // verus!
