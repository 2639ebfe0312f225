//! The control of a forward pass: when it may run, which operations it is
//! made of, and what a generation carries from one pass to the next.

use crate::models::qwen4exp::config::{
    attention_at, least_positive, least_positive_is_least, Qwen4expConfig,
};
use crate::models::qwen4exp::ple::PleHash;
use crate::models::qwen4exp::ple_conv::PleConvState;
use crate::models::qwen4exp::trunk::{has_ple, is_ple_layer, ple_blocks};
use crate::text::{decimal, push_decimal};
use vstd::prelude::*;

verus! {

/// What a layer carries between passes: a key/value cache or a DeltaNet
/// state.
#[derive(Debug, Clone, Copy, PartialEq, Eq, Structural)]
pub enum LayerCache {
    Attn,
    Delta,
}

/// Per-generation state: one cache per layer, the PLE conv history, the last
/// token ids the PLE hash reads, and how many tokens have been consumed.
#[derive(Debug)]
pub struct Qwen4expCache {
    pub layers: Vec<LayerCache>,
    pub ple_conv: Option<PleConvState>,
    pub ple_history: Vec<u32>,
    pub position: usize,
}

/// One operation of a forward pass.
#[derive(Debug, Clone, Copy, PartialEq, Eq, Structural)]
pub enum Step {
    /// Embed the tokens and copy the embedding into every stream.
    Embed,
    /// The PLE block.
    Ple { layer: usize },
    /// Mix the streams into the token mixer's input.
    MixAttn { layer: usize },
    /// Gated attention.
    Attention { layer: usize },
    /// Gated DeltaNet.
    DeltaNet { layer: usize },
    /// Write the token mixer's output back into the streams.
    CombineAttn { layer: usize },
    /// Mix the streams into the feed-forward input.
    MixFfn { layer: usize },
    /// Routed experts and the shared expert.
    Moe { layer: usize },
    /// Write the feed-forward output back into the streams.
    CombineFfn { layer: usize },
    /// Mix the last token's streams: the final norm.
    OutputMix,
    /// Project to the vocabulary.
    Head,
}

/// The operations of block `l`.
pub open spec fn block_steps(cfg: Qwen4expConfig, l: nat) -> Seq<Step> {
    let layer = l as usize;
    (if has_ple(cfg, l as int) {
        seq![Step::Ple { layer }]
    } else {
        Seq::empty()
    }) + seq![
        Step::MixAttn { layer },
        if attention_at(cfg.full_attention_interval as nat, l) {
            Step::Attention { layer }
        } else {
            Step::DeltaNet { layer }
        },
        Step::CombineAttn { layer },
        Step::MixFfn { layer },
        Step::Moe { layer },
        Step::CombineFfn { layer },
    ]
}

/// The embedding and the operations of the first `n` blocks.
pub open spec fn steps_upto(cfg: Qwen4expConfig, n: nat) -> Seq<Step>
    decreases n,
{
    if n == 0 {
        seq![Step::Embed]
    } else {
        steps_upto(cfg, (n - 1) as nat) + block_steps(cfg, (n - 1) as nat)
    }
}

/// The operations of a forward pass.
pub open spec fn pass(cfg: Qwen4expConfig, need_logits: bool) -> Seq<Step> {
    steps_upto(cfg, cfg.num_layers as nat) + (if need_logits {
        seq![Step::OutputMix, Step::Head]
    } else {
        Seq::empty()
    })
}

/// Why a pass over `t` tokens after `past` may not run.
pub open spec fn pass_refusal(
    cfg: Qwen4expConfig,
    cache: Qwen4expCache,
    t: nat,
    past: nat,
) -> Option<Seq<char>> {
    if t == 0 {
        Some("qwen4exp forward: need at least one token"@)
    } else if cache.layers@.len() != cfg.num_layers {
        Some("qwen4exp forward: cache has the wrong layer count"@)
    } else if past != cache.position {
        Some(
            "qwen4exp forward: past "@ + decimal(past) + " but the cache holds "@ + decimal(
                cache.position as nat,
            ) + " tokens"@,
        )
    } else {
        match least_positive(cfg.attention_compress_ratios@) {
            None => None,
            Some(ratio) => {
                let limit = (cfg.indexer_top_k + ratio - 1) as nat;
                if past + t > limit {
                    Some(
                        "qwen4exp forward: "@ + decimal(past) + "+"@ + decimal(t)
                            + " tokens exceed "@ + decimal(limit)
                            + ", the longest context where dense attention equals the model's sparse (QSA) attention; the QSA indexer is not implemented, so this would compute a different model"@,
                    )
                } else {
                    None
                }
            },
        }
    }
}

/// May a pass over `t` tokens after `past` run? The PLE hash and conv history
/// are positional state, so `past` must be what the cache consumed; and past
/// the dense-attention bound the pass would compute a different model.
pub fn check_forward(
    cfg: &Qwen4expConfig,
    cache: &Qwen4expCache,
    t: usize,
    past: usize,
) -> (r: Result<(), String>)
    requires
        match least_positive(cfg.attention_compress_ratios@) {
            Some(m) => cfg.indexer_top_k + m - 1 <= usize::MAX,
            None => true,
        },
    ensures
        match r {
            Ok(_) => pass_refusal(*cfg, *cache, t as nat, past as nat) is None,
            Err(e) => pass_refusal(*cfg, *cache, t as nat, past as nat) == Some(e@),
        },
{
    if t == 0 {
        return Err("qwen4exp forward: need at least one token".to_owned());
    }
    if cache.layers.len() != cfg.num_layers {
        return Err("qwen4exp forward: cache has the wrong layer count".to_owned());
    }
    if past != cache.position {
        let mut m: String = String::new();
        m.append("qwen4exp forward: past ");
        push_decimal(&mut m, past as u64);
        m.append(" but the cache holds ");
        push_decimal(&mut m, cache.position as u64);
        m.append(" tokens");
        return Err(m);
    }
    proof {
        least_positive_is_least(cfg.attention_compress_ratios@);
    }
    match cfg.dense_attention_limit() {
        None => Ok(()),
        Some(limit) => {
            if past > limit || t > limit - past {
                let mut m: String = String::new();
                m.append("qwen4exp forward: ");
                push_decimal(&mut m, past as u64);
                m.append("+");
                push_decimal(&mut m, t as u64);
                m.append(" tokens exceed ");
                push_decimal(&mut m, limit as u64);
                m.append(
                    ", the longest context where dense attention equals the model's sparse (QSA) attention; the QSA indexer is not implemented, so this would compute a different model",
                );
                return Err(m);
            }
            Ok(())
        },
    }
}

/// The operations of a forward pass, in order.
pub fn forward_steps(cfg: &Qwen4expConfig, need_logits: bool) -> (r: Vec<Step>)
    ensures
        r@ == pass(*cfg, need_logits),
{
    let mut out: Vec<Step> = Vec::new();
    out.push(Step::Embed);
    let mut layer: usize = 0;
    assert(out@ =~= steps_upto(*cfg, 0));
    while layer < cfg.num_layers
        invariant
            layer <= cfg.num_layers,
            out@ == steps_upto(*cfg, layer as nat),
        decreases cfg.num_layers - layer,
    {
        let ghost before = out@;
        if is_ple_layer(cfg, layer) {
            out.push(Step::Ple { layer });
        }
        out.push(Step::MixAttn { layer });
        if cfg.is_attention(layer) {
            out.push(Step::Attention { layer });
        } else {
            out.push(Step::DeltaNet { layer });
        }
        out.push(Step::CombineAttn { layer });
        out.push(Step::MixFfn { layer });
        out.push(Step::Moe { layer });
        out.push(Step::CombineFfn { layer });
        assert(out@ =~= before + block_steps(*cfg, layer as nat));
        layer += 1;
    }
    let ghost before = out@;
    if need_logits {
        out.push(Step::OutputMix);
        out.push(Step::Head);
    }
    assert(out@ =~= pass(*cfg, need_logits));
    out
}

/// A pass is the embedding, six operations a block, one more on each PLE
/// block, and the output mixer with the head where logits are asked for.
pub proof fn pass_length(cfg: Qwen4expConfig, need_logits: bool)
    ensures
        pass(cfg, need_logits).len() == 1 + 6 * cfg.num_layers + ple_blocks(
            cfg,
            cfg.num_layers as nat,
        ) + if need_logits {
            2int
        } else {
            0int
        },
{
    lemma_steps_len(cfg, cfg.num_layers as nat);
}

/// How many operations the first `n` blocks make.
proof fn lemma_steps_len(cfg: Qwen4expConfig, n: nat)
    ensures
        steps_upto(cfg, n).len() == 1 + 6 * n + ple_blocks(cfg, n),
    decreases n,
{
    if n > 0 {
        lemma_steps_len(cfg, (n - 1) as nat);
    }
}

/// Do both operations occur, and every occurrence of the first before every
/// occurrence of the second?
pub open spec fn precedes(steps: Seq<Step>, first: Step, second: Step) -> bool {
    &&& exists|i: int| 0 <= i < steps.len() && #[trigger] steps[i] == first
    &&& exists|j: int| 0 <= j < steps.len() && #[trigger] steps[j] == second
    &&& forall|i: int, j: int|
        0 <= i < steps.len() && 0 <= j < steps.len() && #[trigger] steps[i] == first
            && #[trigger] steps[j] == second ==> i < j
}

/// In every layer the token mixer runs between the mix and the combine around
/// it, and only then the experts between theirs; a PLE block runs before all
/// of that. Which mixer it is goes by the layer's number, and only that one
/// runs.
pub proof fn a_layer_mixes_tokens_before_experts(
    cfg: Qwen4expConfig,
    need_logits: bool,
    layer: usize,
)
    requires
        layer < cfg.num_layers,
    ensures
        ({
            let s = pass(cfg, need_logits);
            let attends = cfg.full_attention_interval > 0 && (layer + 1)
                % cfg.full_attention_interval as int == 0;
            let mixer = if attends {
                Step::Attention { layer }
            } else {
                Step::DeltaNet { layer }
            };
            let other = if attends {
                Step::DeltaNet { layer }
            } else {
                Step::Attention { layer }
            };
            &&& precedes(s, Step::Embed, Step::MixAttn { layer })
            &&& precedes(s, Step::MixAttn { layer }, mixer)
            &&& precedes(s, mixer, Step::CombineAttn { layer })
            &&& precedes(s, Step::CombineAttn { layer }, Step::MixFfn { layer })
            &&& precedes(s, Step::MixFfn { layer }, Step::Moe { layer })
            &&& precedes(s, Step::Moe { layer }, Step::CombineFfn { layer })
            &&& forall|i: int| 0 <= i < s.len() ==> #[trigger] s[i] != other
            &&& if cfg.ple_layers@.contains(layer) {
                precedes(s, Step::Embed, Step::Ple { layer }) && precedes(
                    s,
                    Step::Ple { layer },
                    Step::MixAttn { layer },
                )
            } else {
                forall|i: int| 0 <= i < s.len() ==> #[trigger] s[i] != (Step::Ple { layer })
            }
        }),
{
    let s = pass(cfg, need_logits);
    let n = cfg.num_layers as nat;
    let l = layer as nat;
    let start = start_of(cfg, l);
    lemma_block_stands(cfg, n, l);
    let p: int = if has_ple(cfg, layer as int) {
        1
    } else {
        0
    };
    let b = block_steps(cfg, l);
    assert(b.len() == 6 + p);
    assert(steps_upto(cfg, n)[start + p] == b[p]);
    assert(steps_upto(cfg, n)[start + p + 1] == b[p + 1]);
    assert(steps_upto(cfg, n)[start + p + 2] == b[p + 2]);
    assert(steps_upto(cfg, n)[start + p + 3] == b[p + 3]);
    assert(steps_upto(cfg, n)[start + p + 4] == b[p + 4]);
    assert(steps_upto(cfg, n)[start + p + 5] == b[p + 5]);
    assert(steps_upto(cfg, n)[start] == b[0]);
    assert(s[start + p] == Step::MixAttn { layer });
    assert(s[start + p + 2] == Step::CombineAttn { layer });
    assert(s[start + p + 3] == Step::MixFfn { layer });
    assert(s[start + p + 4] == Step::Moe { layer });
    assert(s[start + p + 5] == Step::CombineFfn { layer });
    assert(s[start + p + 1] == b[p + 1]);
    lemma_starts_grow(cfg, 0, l);
    lemma_embeds_first(cfg, n);
    assert(s[0] == Step::Embed);
    if cfg.ple_layers@.contains(layer) {
        let i = choose|i: int| 0 <= i < cfg.ple_layers@.len() && cfg.ple_layers@[i] == layer;
        assert(has_ple(cfg, layer as int));
        assert(s[start] == Step::Ple { layer });
    } else {
        assert(p == 0);
    }
    assert forall|i: int| 0 <= i < s.len() implies stands_right(cfg, #[trigger] s[i], i) by {
        lemma_stands_right(cfg, need_logits, i);
    }
}

/// A layer is done before the next begins.
pub proof fn layers_run_one_after_another(
    cfg: Qwen4expConfig,
    need_logits: bool,
    layer: usize,
    later: usize,
)
    requires
        layer < later < cfg.num_layers,
    ensures
        ({
            let s = pass(cfg, need_logits);
            &&& precedes(s, Step::CombineFfn { layer }, Step::MixAttn { layer: later })
            &&& cfg.ple_layers@.contains(later) ==> precedes(
                s,
                Step::CombineFfn { layer },
                Step::Ple { layer: later },
            )
        }),
{
    let s = pass(cfg, need_logits);
    let n = cfg.num_layers as nat;
    let l = layer as nat;
    a_layer_mixes_tokens_before_experts(cfg, need_logits, layer);
    a_layer_mixes_tokens_before_experts(cfg, need_logits, later);
    lemma_starts_grow(cfg, l + 1, later as nat);
    lemma_steps_len(cfg, l);
    lemma_steps_len(cfg, l + 1);
    assert forall|i: int| 0 <= i < s.len() implies stands_right(cfg, #[trigger] s[i], i) by {
        lemma_stands_right(cfg, need_logits, i);
    }
}

/// A pass starts with the embedding; where logits are asked for it ends with
/// the output mix and the head, and otherwise has neither. No operation runs
/// twice, and none of a layer that the model does not have.
pub proof fn a_pass_runs_each_operation_once(cfg: Qwen4expConfig, need_logits: bool)
    ensures
        ({
            let s = pass(cfg, need_logits);
            &&& s.len() > 0 && s[0] == Step::Embed
            &&& if need_logits {
                s.len() > 2 && s[s.len() - 2] == Step::OutputMix && s[s.len() - 1] == Step::Head
            } else {
                forall|i: int|
                    0 <= i < s.len() ==> #[trigger] s[i] != Step::OutputMix && s[i] != Step::Head
            }
            &&& forall|i: int, j: int|
                0 <= i < j < s.len() ==> #[trigger] s[i] != #[trigger] s[j]
            &&& forall|i: int|
                0 <= i < s.len() ==> match #[trigger] s[i] {
                    Step::Embed | Step::OutputMix | Step::Head => true,
                    Step::Ple { layer } => layer < cfg.num_layers,
                    Step::MixAttn { layer } => layer < cfg.num_layers,
                    Step::Attention { layer } => layer < cfg.num_layers,
                    Step::DeltaNet { layer } => layer < cfg.num_layers,
                    Step::CombineAttn { layer } => layer < cfg.num_layers,
                    Step::MixFfn { layer } => layer < cfg.num_layers,
                    Step::Moe { layer } => layer < cfg.num_layers,
                    Step::CombineFfn { layer } => layer < cfg.num_layers,
                }
        }),
{
    let s = pass(cfg, need_logits);
    lemma_embeds_first(cfg, cfg.num_layers as nat);
    assert forall|i: int| 0 <= i < s.len() implies stands_right(cfg, #[trigger] s[i], i) by {
        lemma_stands_right(cfg, need_logits, i);
    }
}

/// Asking for logits adds to a pass and changes nothing before.
pub proof fn logits_come_after_the_trunk(cfg: Qwen4expConfig)
    ensures
        pass(cfg, true).take(pass(cfg, false).len() as int) == pass(cfg, false),
        pass(cfg, true).len() == pass(cfg, false).len() + 2,
{
    assert(pass(cfg, true).take(pass(cfg, false).len() as int) =~= pass(cfg, false));
}

/// Where block `l` starts in a pass.
spec fn start_of(cfg: Qwen4expConfig, l: nat) -> int {
    (1 + 6 * l + ple_blocks(cfg, l)) as int
}

/// Is `i` the one place of this operation?
spec fn stands_right(cfg: Qwen4expConfig, step: Step, i: int) -> bool {
    let n = cfg.num_layers;
    match step {
        Step::Embed => i == 0,
        Step::Ple { layer } => layer < n && has_ple(cfg, layer as int) && i == start_of(
            cfg,
            layer as nat,
        ),
        Step::MixAttn { layer } => layer < n && i == start_of(cfg, (layer + 1) as nat) - 6,
        Step::Attention { layer } => layer < n && attention_at(
            cfg.full_attention_interval as nat,
            layer as nat,
        ) && i == start_of(cfg, (layer + 1) as nat) - 5,
        Step::DeltaNet { layer } => layer < n && !attention_at(
            cfg.full_attention_interval as nat,
            layer as nat,
        ) && i == start_of(cfg, (layer + 1) as nat) - 5,
        Step::CombineAttn { layer } => layer < n && i == start_of(cfg, (layer + 1) as nat) - 4,
        Step::MixFfn { layer } => layer < n && i == start_of(cfg, (layer + 1) as nat) - 3,
        Step::Moe { layer } => layer < n && i == start_of(cfg, (layer + 1) as nat) - 2,
        Step::CombineFfn { layer } => layer < n && i == start_of(cfg, (layer + 1) as nat) - 1,
        Step::OutputMix => i == start_of(cfg, n as nat),
        Step::Head => i == start_of(cfg, n as nat) + 1,
    }
}

/// Later blocks start later.
proof fn lemma_starts_grow(cfg: Qwen4expConfig, l: nat, m: nat)
    requires
        l <= m,
    ensures
        start_of(cfg, l) + 6 * (m - l) <= start_of(cfg, m),
    decreases m,
{
    if l < m {
        lemma_starts_grow(cfg, l, (m - 1) as nat);
    }
}

/// The embedding comes first.
proof fn lemma_embeds_first(cfg: Qwen4expConfig, n: nat)
    ensures
        steps_upto(cfg, n).len() > 0,
        steps_upto(cfg, n)[0] == Step::Embed,
    decreases n,
{
    if n > 0 {
        lemma_embeds_first(cfg, (n - 1) as nat);
    }
}

/// The operations of block `l` stand where it starts.
proof fn lemma_block_stands(cfg: Qwen4expConfig, n: nat, l: nat)
    requires
        l < n,
    ensures
        start_of(cfg, l) + block_steps(cfg, l).len() <= steps_upto(cfg, n).len(),
        forall|i: int|
            start_of(cfg, l) <= i < start_of(cfg, l) + block_steps(cfg, l).len()
                ==> #[trigger] steps_upto(cfg, n)[i] == block_steps(cfg, l)[i - start_of(cfg, l)],
    decreases n,
{
    lemma_steps_len(cfg, (n - 1) as nat);
    if l < n - 1 {
        lemma_block_stands(cfg, (n - 1) as nat, l);
        assert forall|i: int|
            start_of(cfg, l) <= i < start_of(cfg, l) + block_steps(
                cfg,
                l,
            ).len() implies #[trigger] steps_upto(cfg, n)[i] == block_steps(cfg, l)[i - start_of(
            cfg,
            l,
        )] by {
            assert(steps_upto(cfg, (n - 1) as nat)[i] == steps_upto(cfg, n)[i]);
        }
    }
}

/// Every operation of a pass stands in its one place.
proof fn lemma_stands_right(cfg: Qwen4expConfig, need_logits: bool, i: int)
    requires
        0 <= i < pass(cfg, need_logits).len(),
    ensures
        stands_right(cfg, pass(cfg, need_logits)[i], i),
{
    let n = cfg.num_layers as nat;
    lemma_steps_len(cfg, n);
    if i < steps_upto(cfg, n).len() {
        lemma_trunk_stands_right(cfg, n, i);
    }
}

/// Every operation of the first `n` blocks stands in its one place.
proof fn lemma_trunk_stands_right(cfg: Qwen4expConfig, n: nat, i: int)
    requires
        n <= cfg.num_layers,
        0 <= i < steps_upto(cfg, n).len(),
    ensures
        stands_right(cfg, steps_upto(cfg, n)[i], i),
        !(steps_upto(cfg, n)[i] is OutputMix),
        !(steps_upto(cfg, n)[i] is Head),
    decreases n,
{
    if n > 0 {
        let m = (n - 1) as nat;
        let before = steps_upto(cfg, m);
        lemma_steps_len(cfg, m);
        if i < before.len() {
            lemma_trunk_stands_right(cfg, m, i);
        } else {
            let k = i - before.len();
            assert(steps_upto(cfg, n)[i] == block_steps(cfg, m)[k]);
            assert(start_of(cfg, n) == start_of(cfg, m) + 6 + if has_ple(cfg, m as int) {
                1int
            } else {
                0int
            });
        }
    }
}

/// What each layer carries: the kind of its token mixer.
pub open spec fn layer_caches(cfg: Qwen4expConfig) -> Seq<LayerCache> {
    Seq::new(
        cfg.num_layers as nat,
        |l: int|
            if attention_at(cfg.full_attention_interval as nat, l as nat) {
                LayerCache::Attn
            } else {
                LayerCache::Delta
            },
    )
}

/// Columns of history the PLE conv carries: `(kernel-1)·ngram_size`.
pub open spec fn conv_columns(cfg: Qwen4expConfig) -> int {
    (cfg.ple_conv_kernel - 1) * cfg.ple_ngram_size
}

/// A fresh generation's state: empty caches, a zero conv history where the
/// model has a PLE block, no token consumed.
pub fn new_cache(cfg: &Qwen4expConfig) -> (r: Qwen4expCache)
    requires
        cfg.ple_conv_kernel >= 1,
        cfg.hidden_size * cfg.hyper_connection_count <= usize::MAX,
        conv_columns(*cfg) <= usize::MAX,
        cfg.hidden_size * cfg.hyper_connection_count * conv_columns(*cfg) <= usize::MAX,
    ensures
        r.layers@ == layer_caches(*cfg),
        r.ple_history@.len() == 0,
        r.position == 0,
        (r.ple_conv is Some) == (exists|l: int| 0 <= l < cfg.num_layers && has_ple(*cfg, l)),
        r.ple_conv matches Some(s) ==> {
            &&& s.wf()
            &&& s.batch == 1
            &&& s.channels == cfg.hidden_size * cfg.hyper_connection_count
            &&& s.cols == conv_columns(*cfg)
            &&& forall|i: int| 0 <= i < s.hist@.len() ==> #[trigger] s.hist@[i] == 0
        },
{
    let mut layers: Vec<LayerCache> = Vec::new();
    let mut ple: bool = false;
    let mut l: usize = 0;
    while l < cfg.num_layers
        invariant
            l <= cfg.num_layers,
            layers@.len() == l,
            forall|k: int| 0 <= k < l ==> (#[trigger] layers@[k]) == layer_caches(*cfg)[k],
            ple == (exists|k: int| 0 <= k < l && has_ple(*cfg, k)),
        decreases cfg.num_layers - l,
    {
        if cfg.is_attention(l) {
            layers.push(LayerCache::Attn);
        } else {
            layers.push(LayerCache::Delta);
        }
        let here: bool = is_ple_layer(cfg, l);
        proof {
            if here {
                assert(has_ple(*cfg, l as int));
            }
            if ple {
                let k = choose|k: int| 0 <= k < l && has_ple(*cfg, k);
                assert(0 <= k < l + 1 && has_ple(*cfg, k));
            }
        }
        ple = ple || here;
        l += 1;
    }
    assert(layers@ =~= layer_caches(*cfg));
    let ple_conv: Option<PleConvState> = if ple {
        proof {
            assert(1 * (cfg.hidden_size * cfg.hyper_connection_count) == cfg.hidden_size
                * cfg.hyper_connection_count);
        }
        let cols: usize = (cfg.ple_conv_kernel - 1) * cfg.ple_ngram_size;
        Some(PleConvState::zeros(1, cfg.hidden_size * cfg.hyper_connection_count, cols))
    } else {
        None
    };
    Qwen4expCache { layers, ple_conv, ple_history: Vec::new(), position: 0 }
}

/// Does `after` carry a generation past a pass over `ids`: that many more
/// tokens consumed, the token window moved on where there is a PLE store, and
/// the rest as it was?
pub open spec fn carries(
    before: Qwen4expCache,
    hash: Option<&PleHash>,
    ids: Seq<u32>,
    after: Qwen4expCache,
) -> bool {
    &&& after.position == before.position + ids.len()
    &&& after.ple_history@ == (match hash {
        Some(h) => h.advanced(before.ple_history@, ids),
        None => before.ple_history@,
    })
    &&& after.layers == before.layers
    &&& after.ple_conv == before.ple_conv
}

/// Carry the state past a pass over `ids`: the tokens are consumed, and where
/// the model has a PLE store its token window moves on.
pub fn finish_forward(cache: &mut Qwen4expCache, hash: Option<&PleHash>, ids: &[u32])
    requires
        old(cache).position + ids@.len() <= usize::MAX,
        hash matches Some(h) ==> h.ngram_size > 0,
    ensures
        carries(*old(cache), hash, ids@, *final(cache)),
{
    match hash {
        Some(h) => {
            h.advance_history(&mut cache.ple_history, ids);
        },
        None => {},
    }
    cache.position = cache.position + ids.len();
}

/// A prompt may run in two chunks exactly when it may run whole: the limit
/// counts tokens, not passes.
pub proof fn a_prompt_runs_in_chunks_as_it_runs_whole(
    cfg: Qwen4expConfig,
    cache: Qwen4expCache,
    between: Qwen4expCache,
    hash: Option<&PleHash>,
    first: Seq<u32>,
    second: Seq<u32>,
    past: nat,
)
    requires
        first.len() > 0,
        second.len() > 0,
        carries(cache, hash, first, between),
    ensures
        (pass_refusal(cfg, cache, first.len(), past) is None && pass_refusal(
            cfg,
            between,
            second.len(),
            past + first.len(),
        ) is None) == (pass_refusal(cfg, cache, (first + second).len(), past) is None),
{
    least_positive_is_least(cfg.attention_compress_ratios@);
}

/// Two passes carry a generation where one pass over both chunks carries it.
pub proof fn chunks_carry_as_one_pass(
    cache: Qwen4expCache,
    between: Qwen4expCache,
    after: Qwen4expCache,
    whole: Qwen4expCache,
    hash: Option<&PleHash>,
    first: Seq<u32>,
    second: Seq<u32>,
)
    requires
        hash matches Some(h) ==> h.ngram_size > 0,
        carries(cache, hash, first, between),
        carries(between, hash, second, after),
        carries(cache, hash, first + second, whole),
    ensures
        after.position == whole.position,
        after.ple_history@ == whole.ple_history@,
        after.layers == whole.layers,
        after.ple_conv == whole.ple_conv,
{
    if let Some(h) = hash {
        h.advances_compose(cache.ple_history@, first, second);
    }
}

/// Does this token end a generation: the tokenizer EOS or the PLE reset
/// token?
pub fn is_eos(cfg: &Qwen4expConfig, id: u32) -> (r: bool)
    ensures
        r == (id == cfg.eos_token_id || id == cfg.ple_eos_token_id),
{
    id == cfg.eos_token_id || id == cfg.ple_eos_token_id
}

/// The named intermediates of an operation that can be compared, in the order
/// in which they arise, each with the occurrence of its name in the pass.
pub open spec fn probe_names(step: Step) -> Seq<(Seq<char>, usize)> {
    match step {
        Step::Embed => seq![("model.input_embed"@, 0usize)],
        Step::Ple { layer } => seq![
            ("ple_embd"@, 0usize),
            ("ple_out-"@ + decimal(layer as nat), 0usize),
        ],
        Step::MixAttn { layer } => seq![
            ("hc_mixed-"@ + decimal(layer as nat), 0usize),
            ("hc_inject-"@ + decimal(layer as nat), 0usize),
        ],
        Step::Attention { layer } => seq![("attn_output-"@ + decimal(layer as nat), 0usize)],
        Step::DeltaNet { layer } => seq![("linear_attn_out-"@ + decimal(layer as nat), 0usize)],
        Step::CombineAttn { layer } => seq![("hc_combine-"@ + decimal(layer as nat), 0usize)],
        Step::MixFfn { layer } => seq![
            ("hc_mixed-"@ + decimal(layer as nat), 1usize),
            ("hc_inject-"@ + decimal(layer as nat), 1usize),
        ],
        Step::Moe { layer } => seq![
            ("ffn_moe_logits-"@ + decimal(layer as nat), 0usize),
            ("shared_expert_gate_sigmoid-"@ + decimal(layer as nat), 0usize),
            ("ffn_moe_out-"@ + decimal(layer as nat), 0usize),
            ("ffn_shexp_gated-"@ + decimal(layer as nat), 0usize),
            ("ffn_out-"@ + decimal(layer as nat), 0usize),
        ],
        Step::CombineFfn { layer } => seq![("l_last-"@ + decimal(layer as nat), 0usize)],
        Step::OutputMix => seq![("result_norm"@, 0usize)],
        Step::Head => seq![("result_output"@, 0usize)],
    }
}

/// The names and occurrences of a list of probes.
pub open spec fn probe_views(v: Seq<(String, usize)>) -> Seq<(Seq<char>, usize)> {
    Seq::new(v.len(), |i: int| (v[i].0@, v[i].1))
}

/// A name with a layer number.
fn layer_name(stem: &str, layer: usize) -> (r: String)
    ensures
        r@ == stem@ + decimal(layer as nat),
{
    let mut s: String = stem.to_owned();
    push_decimal(&mut s, layer as u64);
    s
}

/// The named intermediates of an operation that can be compared, in order.
pub fn probes(step: Step) -> (r: Vec<(String, usize)>)
    ensures
        probe_views(r@) == probe_names(step),
{
    let mut out: Vec<(String, usize)> = Vec::new();
    match step {
        Step::Embed => {
            out.push(("model.input_embed".to_owned(), 0));
        },
        Step::Ple { layer } => {
            out.push(("ple_embd".to_owned(), 0));
            out.push((layer_name("ple_out-", layer), 0));
        },
        Step::MixAttn { layer } => {
            out.push((layer_name("hc_mixed-", layer), 0));
            out.push((layer_name("hc_inject-", layer), 0));
        },
        Step::Attention { layer } => {
            out.push((layer_name("attn_output-", layer), 0));
        },
        Step::DeltaNet { layer } => {
            out.push((layer_name("linear_attn_out-", layer), 0));
        },
        Step::CombineAttn { layer } => {
            out.push((layer_name("hc_combine-", layer), 0));
        },
        Step::MixFfn { layer } => {
            out.push((layer_name("hc_mixed-", layer), 1));
            out.push((layer_name("hc_inject-", layer), 1));
        },
        Step::Moe { layer } => {
            out.push((layer_name("ffn_moe_logits-", layer), 0));
            out.push((layer_name("shared_expert_gate_sigmoid-", layer), 0));
            out.push((layer_name("ffn_moe_out-", layer), 0));
            out.push((layer_name("ffn_shexp_gated-", layer), 0));
            out.push((layer_name("ffn_out-", layer), 0));
        },
        Step::CombineFfn { layer } => {
            out.push((layer_name("l_last-", layer), 0));
        },
        Step::OutputMix => {
            out.push(("result_norm".to_owned(), 0));
        },
        Step::Head => {
            out.push(("result_output".to_owned(), 0));
        },
    }
    assert(probe_views(out@) =~= probe_names(step));
    out
}

} // verus!
