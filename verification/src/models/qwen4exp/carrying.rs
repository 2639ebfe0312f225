//! What a pass reads and carries: which tokens a row's hash sees, which inputs
//! a convolution's taps read, where the streams of a residual lie, and when a
//! pass may run.

use crate::models::qwen4exp::config::{least_positive, least_positive_is_least, Qwen4expConfig};
use crate::models::qwen4exp::forward::{
    a_layer_mixes_tokens_before_experts, conv_columns, layer_caches, pass, pass_refusal, LayerCache,
    Qwen4expCache, Step,
};
use crate::models::qwen4exp::hc::{
    combine_flaw, groups_flaw, meeting, projection_flaw, stream_place, weights_flaw, width_flaw,
    Dims3, Weight,
};
use crate::models::qwen4exp::ple::{
    mixed, predecessor, predecessors, window_cut, window_token, PleHash,
};
use crate::models::qwen4exp::ple_block::{block_flaw, products, PleBlock, PleWeights};
use crate::models::qwen4exp::ple_conv::PleConvState;
use vstd::arithmetic::div_mod::lemma_fundamental_div_mod_converse;
use vstd::prelude::*;

verus! {

// ---- the hash --------------------------------------------------------------

/// A hash sees nothing behind a reset: two contexts that agree up to the first
/// reset token, or up to the start of the text, are the same to it.
pub proof fn nothing_is_seen_behind_a_reset(
    token: u32,
    a: Seq<Option<u32>>,
    b: Seq<Option<u32>>,
    multipliers: Seq<u64>,
    eos: u32,
    n: nat,
    reset: int,
)
    requires
        1 <= reset,
        forall|s: int| 1 <= s <= reset ==> #[trigger] predecessor(a, s) == predecessor(b, s),
        predecessor(a, reset) is None || predecessor(a, reset) == Some(eos),
    ensures
        mixed(token, a, multipliers, eos, n) == mixed(token, b, multipliers, eos, n),
    decreases n,
{
    if n > 1 {
        nothing_is_seen_behind_a_reset(
            token,
            a,
            b,
            multipliers,
            eos,
            (n - 1) as nat,
            reset,
        );
        let back = n - 1;
        if back >= reset {
            assert(predecessor(b, reset) == predecessor(a, reset));
            assert(window_cut(a, eos, back));
            assert(window_cut(b, eos, back));
        } else {
            if window_cut(a, eos, back) {
                let s = choose|s: int|
                    1 <= s <= back && ((#[trigger] predecessor(a, s)) is None || predecessor(a, s)
                        == Some(eos));
                assert(predecessor(b, s) == predecessor(a, s));
                assert(window_cut(b, eos, back));
            }
            if window_cut(b, eos, back) {
                let s = choose|s: int|
                    1 <= s <= back && ((#[trigger] predecessor(b, s)) is None || predecessor(b, s)
                        == Some(eos));
                assert(predecessor(b, s) == predecessor(a, s));
                assert(window_cut(a, eos, back));
            }
            assert(predecessor(a, back) == predecessor(b, back));
        }
    }
}

/// What a hash sees `back` tokens before the current one: the token that is
/// there, when neither it nor one nearer is a reset or before the text; the
/// reset token otherwise. The current token is seen as it is, a reset token
/// too.
pub proof fn a_window_shows_the_tokens_since_the_reset(
    token: u32,
    prev: Seq<Option<u32>>,
    eos: u32,
    back: int,
)
    requires
        0 <= back <= prev.len(),
    ensures
        back == 0 ==> window_token(token, prev, eos, back) == token,
        back > 0 && (forall|s: int|
            0 <= s < back ==> (#[trigger] prev[s]) is Some && prev[s] != Some(eos)) ==> Some(
            window_token(token, prev, eos, back),
        ) == prev[back - 1],
        back > 0 && (exists|s: int|
            0 <= s < back && ((#[trigger] prev[s]) is None || prev[s] == Some(eos)))
            ==> window_token(token, prev, eos, back) == eos,
{
    if back > 0 {
        if exists|s: int| 0 <= s < back && ((#[trigger] prev[s]) is None || prev[s] == Some(eos)) {
            let s = choose|s: int|
                0 <= s < back && ((#[trigger] prev[s]) is None || prev[s] == Some(eos));
            assert(predecessor(prev, s + 1) == prev[s]);
            assert(window_cut(prev, eos, back));
        } else {
            if window_cut(prev, eos, back) {
                let s = choose|s: int|
                    1 <= s <= back && ((#[trigger] predecessor(prev, s)) is None || predecessor(
                        prev,
                        s,
                    ) == Some(eos));
                assert(prev[s - 1] is None || prev[s - 1] == Some(eos));
            }
        }
    }
}

/// A hash of the `n` nearest tokens reads no others.
proof fn lemma_mixed_reads(
    token: u32,
    a: Seq<Option<u32>>,
    b: Seq<Option<u32>>,
    multipliers: Seq<u64>,
    eos: u32,
    n: nat,
)
    requires
        forall|s: int| 1 <= s < n ==> #[trigger] predecessor(a, s) == predecessor(b, s),
    ensures
        mixed(token, a, multipliers, eos, n) == mixed(token, b, multipliers, eos, n),
    decreases n,
{
    if n > 1 {
        lemma_mixed_reads(token, a, b, multipliers, eos, (n - 1) as nat);
        let back = n - 1;
        if window_cut(a, eos, back) {
            let s = choose|s: int|
                1 <= s <= back && ((#[trigger] predecessor(a, s)) is None || predecessor(a, s)
                    == Some(eos));
            assert(predecessor(b, s) == predecessor(a, s));
            assert(window_cut(b, eos, back));
        }
        if window_cut(b, eos, back) {
            let s = choose|s: int|
                1 <= s <= back && ((#[trigger] predecessor(b, s)) is None || predecessor(b, s)
                    == Some(eos));
            assert(predecessor(b, s) == predecessor(a, s));
            assert(window_cut(a, eos, back));
        }
        assert(predecessor(a, back) == predecessor(b, back));
    }
}

/// The first heads read the token and the one before it, and every further
/// `heads_per_ngram` heads one token more: a row is the same after any two
/// texts that end in the same so many tokens.
pub proof fn a_head_reads_its_own_order(
    hash: PleHash,
    a: Seq<u32>,
    b: Seq<u32>,
    token: u32,
    order: int,
    g: int,
)
    requires
        hash.wf(),
        0 <= order < hash.ngram_size - 1,
        0 <= g < hash.heads_per_ngram,
        a.len() > order,
        b.len() > order,
        forall|s: int|
            0 <= s <= order ==> #[trigger] a[a.len() - 1 - s] == b[b.len() - 1 - s],
    ensures
        hash.row_after(a, token, order * hash.heads_per_ngram + g) == hash.row_after(
            b,
            token,
            order * hash.heads_per_ngram + g,
        ),
{
    let per = hash.heads_per_ngram as int;
    lemma_fundamental_div_mod_converse(order * per + g, per, order, g);
    let n = (hash.ngram_size - 1) as nat;
    let pa = predecessors(a, n);
    let pb = predecessors(b, n);
    assert forall|s: int| 1 <= s < order + 2 implies #[trigger] predecessor(pa, s) == predecessor(
        pb,
        s,
    ) by {
        assert(a[a.len() - 1 - (s - 1)] == b[b.len() - 1 - (s - 1)]);
    }
    lemma_mixed_reads(token, pa, pb, hash.multipliers@, hash.eos, (order + 2) as nat);
}

/// What a history keeps: the last tokens, as many as a hash reads, in order.
pub proof fn a_history_keeps_the_last_tokens(hash: PleHash, history: Seq<u32>, tokens: Seq<u32>, i: int)
    requires
        hash.ngram_size > 0,
        0 <= i < hash.advanced(history, tokens).len(),
    ensures
        ({
            let all = history + tokens;
            let kept = hash.advanced(history, tokens);
            &&& kept.len() == if all.len() < hash.ngram_size - 1 {
                all.len() as int
            } else {
                hash.ngram_size - 1
            }
            &&& kept[kept.len() - 1 - i] == all[all.len() - 1 - i]
        }),
{
}

// ---- the convolution -------------------------------------------------------

/// Tap `k` of the window of token `t` reads the input `(kernel - 1 - k)`
/// dilations before `t`: of this input where it reaches so far back, and of
/// the history, whose last column is the nearest, where it does not. The last
/// tap reads the token itself, and none reads a later one.
pub proof fn a_tap_reads_its_own_distance(
    state: PleConvState,
    xs: Seq<u32>,
    tokens: int,
    kernel: int,
    dilation: int,
    bi: int,
    t: int,
    ch: int,
    k: int,
)
    requires
        0 <= bi < state.batch,
        0 <= t < tokens,
        0 <= ch < state.channels,
        0 <= k < kernel,
        dilation >= 1,
        state.cols == (kernel - 1) * dilation,
    ensures
        ({
            let back = (kernel - 1 - k) * dilation;
            let read = state.windows(xs, tokens, kernel, dilation)[((bi * tokens + t)
                * state.channels + ch) * kernel + k];
            read == if back <= t {
                xs[(bi * tokens + (t - back)) * state.channels + ch]
            } else {
                state.hist@[(bi * state.channels + ch) * state.cols + (state.cols - (back - t))]
            }
        }),
{
    let channels = state.channels as int;
    let row = bi * tokens + t;
    let p = row * channels + ch;
    let back = (kernel - 1 - k) * dilation;
    lemma_fundamental_div_mod_converse(p * kernel + k, kernel, p, k);
    lemma_fundamental_div_mod_converse(p, channels, row, ch);
    lemma_fundamental_div_mod_converse(row, tokens, bi, t);
    assert(0 <= row < state.batch * tokens) by (nonlinear_arith)
        requires
            row == bi * tokens + t,
            0 <= bi < state.batch,
            0 <= t < tokens,
    ;
    assert(0 <= p < state.batch * tokens * channels) by (nonlinear_arith)
        requires
            0 <= row < state.batch * tokens,
            0 <= ch < channels,
            p == row * channels + ch,
    ;
    assert(0 <= p * kernel + k < state.batch * tokens * channels * kernel) by (nonlinear_arith)
        requires
            0 <= p < state.batch * tokens * channels,
            0 <= k < kernel,
    ;
}

/// The history after an input: its last columns, of the input where that was
/// long enough, and of the history before it where it was not.
pub proof fn a_history_ends_with_the_input(
    state: PleConvState,
    xs: Seq<u32>,
    tokens: int,
    bi: int,
    ch: int,
    back: int,
)
    requires
        0 <= bi < state.batch,
        0 <= ch < state.channels,
        1 <= back <= state.cols,
        tokens >= 0,
    ensures
        ({
            let kept = state.next_hist(xs, tokens)[(bi * state.channels + ch) * state.cols + (
            state.cols - back)];
            kept == if back <= tokens {
                xs[(bi * tokens + (tokens - back)) * state.channels + ch]
            } else {
                state.hist@[(bi * state.channels + ch) * state.cols + (state.cols - (back
                    - tokens))]
            }
        }),
{
    let (channels, cols) = (state.channels as int, state.cols as int);
    let p = bi * channels + ch;
    let col = cols - back;
    lemma_fundamental_div_mod_converse(p * cols + col, cols, p, col);
    lemma_fundamental_div_mod_converse(p, channels, bi, ch);
    assert(0 <= p < state.batch * channels) by (nonlinear_arith)
        requires
            p == bi * channels + ch,
            0 <= bi < state.batch,
            0 <= ch < channels,
    ;
    assert(0 <= p * cols + col < state.batch * channels * cols) by (nonlinear_arith)
        requires
            0 <= p < state.batch * channels,
            0 <= col < cols,
    ;
}

/// A term multiplies what its tap reads by the weight of that tap of the
/// channel: the channel's kernel stands together, tap by tap.
pub proof fn a_term_multiplies_its_own_tap(
    state: PleConvState,
    xs: Seq<u32>,
    tokens: int,
    kernel: int,
    dilation: int,
    i: int,
)
    requires
        0 <= i < products(state, xs, tokens, kernel, dilation).len(),
        kernel > 0,
        state.channels > 0,
        kernel * state.channels <= usize::MAX,
    ensures
        ({
            let p = products(state, xs, tokens, kernel, dilation)[i];
            let ch = i / kernel % (state.channels as int);
            &&& p.value == state.windows(xs, tokens, kernel, dilation)[i]
            &&& p.tap == ch * kernel + i % kernel
        }),
{
    let ch = i / kernel % (state.channels as int);
    let k = i % kernel;
    assert(0 <= k < kernel && 0 <= ch < state.channels);
    assert(0 <= k + kernel * ch < kernel * state.channels) by (nonlinear_arith)
        requires
            0 <= k < kernel,
            0 <= ch < state.channels,
    ;
    assert(kernel * ch == ch * kernel) by (nonlinear_arith);
}

/// A block is accepted exactly when its projections, norms and kernel are as
/// wide as its streams together, the value projection as one stream, and the
/// convolution has a tap and a distance.
pub proof fn an_embedding_block_must_fit(
    w: PleWeights,
    hidden: nat,
    streams: nat,
    kernel: nat,
    dilation: nat,
)
    ensures
        block_flaw(w, hidden, streams, kernel, dilation) is None <==> {
            &&& w.key.outputs == hidden * streams
            &&& w.value.inputs == w.key.inputs
            &&& w.value.outputs == hidden
            &&& w.norm_key == hidden * streams
            &&& w.norm_query == hidden * streams
            &&& w.norm_conv == hidden * streams
            &&& kernel >= 1
            &&& dilation >= 1
            &&& w.conv == kernel * (hidden * streams)
        },
{
}

/// A block runs exactly on a residual of its streams, an embedding of as many
/// tokens of as many sequences that its key projection takes, and a history of
/// every channel that reaches back as far as the first tap.
pub proof fn an_embedding_block_runs_on_its_own_shapes(
    block: PleBlock,
    res: Dims3,
    emb: Dims3,
    state: PleConvState,
)
    requires
        block.wf(),
        block.streams > 0,
    ensures
        block.forward_flaw(res, emb, state) is None <==> {
            &&& res.width == block.streams * block.hidden
            &&& emb.batch == res.batch
            &&& emb.time == res.time
            &&& emb.width == block.weights.key.inputs
            &&& state.batch == res.batch
            &&& state.channels == res.width
            &&& state.cols == (block.kernel - 1) * block.dilation
        },
{
    assert(block.streams * block.hidden == block.hidden * block.streams) by (nonlinear_arith);
    if res.width == block.streams * block.hidden {
        vstd::arithmetic::div_mod::lemma_mod_multiples_basic(
            block.hidden as int,
            block.streams as int,
        );
    }
    assert(0 <= (block.kernel - 1) * block.dilation) by (nonlinear_arith)
        requires
            block.kernel >= 1,
            block.dilation >= 0,
    ;
}

/// A fresh generation's history is the one that the model's block runs on.
pub proof fn a_fresh_history_is_the_blocks(cfg: Qwen4expConfig, block: PleBlock)
    requires
        block.kernel == cfg.ple_conv_kernel,
        block.dilation == cfg.ple_ngram_size,
    ensures
        conv_columns(cfg) == block.columns(),
        conv_columns(cfg) == (block.kernel - 1) * block.dilation,
{
}

// ---- the streams -----------------------------------------------------------

/// Streams lie one after another in a row: element `e` of stream `s` of row
/// `row` is that far behind the streams before it and the rows before it.
pub proof fn streams_lie_one_after_another(
    row: int,
    s: int,
    e: int,
    streams: int,
    hidden: int,
)
    requires
        row >= 0,
        0 <= s < streams,
        0 <= e < hidden,
        row * hidden + e <= usize::MAX,
        row * streams + s <= usize::MAX,
    ensures
        stream_place(row, s, e, streams, hidden) == row * (streams * hidden) + s * hidden + e,
        meeting(row * (streams * hidden) + s * hidden + e, streams, hidden).output == row * hidden
            + e,
        meeting(row * (streams * hidden) + s * hidden + e, streams, hidden).inject == row * streams
            + s,
{
    assert((row * streams + s) * hidden + e == row * (streams * hidden) + s * hidden + e)
        by (nonlinear_arith);
    crate::models::qwen4exp::hc::every_stream_gains_the_output(row, s, e, streams, hidden);
}

/// Shapes fit exactly when they are what they are needed as: a projection
/// reads rows of its inputs, groups divide a row evenly, and a residual is its
/// streams side by side.
pub proof fn shapes_must_fit(w: Weight, d: nat, width: nat, groups: nat, streams: nat, hidden: nat)
    ensures
        projection_flaw(w, d) is None <==> w.inputs == d,
        groups_flaw(width, groups) is None <==> groups > 0 && width % groups == 0,
        width_flaw(width, streams, hidden) is None <==> width == streams * hidden,
{
}

/// An output is written back exactly where it is of the residual's sequences
/// and tokens, as wide as one of its streams, and comes with a weight for each.
pub proof fn an_output_must_fit_the_streams(
    res: Dims3,
    block: Dims3,
    inject: Dims3,
    streams: nat,
)
    ensures
        combine_flaw(res, block, inject, streams) is None <==> {
            &&& block.batch == res.batch
            &&& block.time == res.time
            &&& res.width == streams * block.width
            &&& inject.batch == res.batch
            &&& inject.time == res.time
            &&& inject.width == streams
        },
{
}

/// A mixer is accepted exactly when it norms and projects all streams, down to
/// its rank and back, and injects, if it does, one weight for each stream.
pub proof fn a_mixer_must_fit(
    norm: nat,
    down: Weight,
    up: Weight,
    inject: Option<Weight>,
    hidden: nat,
    streams: nat,
)
    ensures
        weights_flaw(norm, down, up, inject, hidden, streams) is None <==> {
            &&& norm == hidden * streams
            &&& down.inputs == hidden * streams
            &&& up.inputs == down.outputs
            &&& up.outputs == hidden * streams
            &&& inject matches Some(i) ==> i.inputs == hidden * streams && i.outputs == streams
        },
{
}

// ---- the pass --------------------------------------------------------------

/// A pass may run exactly when there is something to run, the caches are as
/// many as the layers, it follows what was consumed, and no layer of sparse
/// attention would have to leave out a cached token.
pub proof fn a_pass_runs_where_dense_attention_is_exact(
    cfg: Qwen4expConfig,
    cache: Qwen4expCache,
    t: nat,
    past: nat,
)
    ensures
        pass_refusal(cfg, cache, t, past) is None <==> {
            &&& t > 0
            &&& cache.layers@.len() == cfg.num_layers
            &&& past == cache.position
            &&& forall|l: int|
                0 <= l < cfg.attention_compress_ratios@.len()
                    && #[trigger] cfg.attention_compress_ratios@[l] > 0 ==> past + t
                    <= cfg.indexer_top_k + cfg.attention_compress_ratios@[l] - 1
        },
{
    let ratios = cfg.attention_compress_ratios@;
    least_positive_is_least(ratios);
    if let Some(m) = least_positive(ratios) {
        let l = choose|l: int| 0 <= l < ratios.len() && ratios[l] == m;
        assert(ratios[l] > 0);
    }
}

/// A layer carries what its token mixer needs: a layer has a key/value cache
/// exactly when a pass runs attention in it, and a DeltaNet state when it runs
/// DeltaNet.
pub proof fn a_layer_carries_what_its_mixer_needs(
    cfg: Qwen4expConfig,
    need_logits: bool,
    layer: usize,
)
    requires
        layer < cfg.num_layers,
    ensures
        layer_caches(cfg).len() == cfg.num_layers,
        layer_caches(cfg)[layer as int] == LayerCache::Attn <==> pass(cfg, need_logits).contains(
            Step::Attention { layer },
        ),
        layer_caches(cfg)[layer as int] == LayerCache::Delta <==> pass(cfg, need_logits).contains(
            Step::DeltaNet { layer },
        ),
{
    let s = pass(cfg, need_logits);
    a_layer_mixes_tokens_before_experts(cfg, need_logits, layer);
    let attends = cfg.full_attention_interval > 0 && (layer + 1)
        % cfg.full_attention_interval as int == 0;
    let mixer = if attends {
        Step::Attention { layer }
    } else {
        Step::DeltaNet { layer }
    };
    let i = choose|i: int| 0 <= i < s.len() && #[trigger] s[i] == mixer;
    assert(s.contains(mixer));
}

} // verus!
