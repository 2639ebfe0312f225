//! How the trunk's tensors fit one another: what one writes, another reads.
//!
//! The tensors are found by their names, as a file's are.

use crate::models::qwen4exp::config::{attention_at, Qwen4expConfig};
use crate::models::qwen4exp::trunk::{
    a_block_name_is_a_blocks_tensor, a_blocks_tensors_stand_together, all_fields, block_name,
    block_specs, block_start, field_names_are_distinct, field_slot, has_ple, shapes_fit, specs_upto,
    trunk_names_are_distinct, Kind, TrunkModel,
};
use vstd::prelude::*;

verus! {

/// Is a tensor of this name required?
pub open spec fn required(s: Seq<TrunkModel>, name: Seq<char>) -> bool {
    exists|i: int| 0 <= i < s.len() && (#[trigger] s[i]).name == name
}

/// Is a tensor of this name required, and every one of that name a vector of
/// this length?
pub open spec fn is_vector(s: Seq<TrunkModel>, name: Seq<char>, n: int) -> bool {
    &&& required(s, name)
    &&& forall|i: int|
        0 <= i < s.len() && (#[trigger] s[i]).name == name ==> {
            &&& s[i].ne.len() == 1
            &&& s[i].ne[0] == n
            &&& s[i].kind == Kind::Vector
        }
}

/// Is a tensor of this name required, and every one of that name a matrix of
/// this width and height, taken in this way?
pub open spec fn is_matrix(s: Seq<TrunkModel>, name: Seq<char>, a: int, b: int, kind: Kind) -> bool {
    &&& required(s, name)
    &&& forall|i: int|
        0 <= i < s.len() && (#[trigger] s[i]).name == name ==> {
            &&& s[i].ne.len() == 2
            &&& s[i].ne[0] == a
            &&& s[i].ne[1] == b
            &&& s[i].kind == kind
        }
}

/// Is a tensor of this name required, and every one of that name a projection
/// of `inputs` values to `outputs`?
pub open spec fn projects(s: Seq<TrunkModel>, name: Seq<char>, inputs: int, outputs: int) -> bool {
    is_matrix(s, name, inputs, outputs, Kind::Linear)
}

/// The tensor of slot `k` of block `l` is the only one of its name.
proof fn lemma_only(cfg: Qwen4expConfig, l: nat, k: int)
    requires
        l < cfg.num_layers,
        0 <= k < block_specs(cfg, l).len(),
    ensures
        ({
            let s = specs_upto(cfg, cfg.num_layers as nat);
            let t = block_specs(cfg, l)[k];
            &&& required(s, t.name)
            &&& forall|i: int| 0 <= i < s.len() && (#[trigger] s[i]).name == t.name ==> s[i] == t
        }),
{
    let n = cfg.num_layers as nat;
    let s = specs_upto(cfg, n);
    let t = block_specs(cfg, l)[k];
    a_blocks_tensors_stand_together(cfg, n, l, k);
    let at = block_start(cfg, l) + k;
    assert(s[at].name == t.name);
    assert forall|i: int| 0 <= i < s.len() && (#[trigger] s[i]).name == t.name implies s[i] == t by {
        if i < at {
            trunk_names_are_distinct(cfg, n, i, at);
        } else if at < i {
            trunk_names_are_distinct(cfg, n, at, i);
        }
    }
}

/// No tensor of block `l` is named after a field that the block has no slot
/// for.
proof fn lemma_none(cfg: Qwen4expConfig, l: nat, place: int)
    requires
        l < cfg.num_layers,
        0 <= place < all_fields().len(),
        forall|k: int|
            0 <= k < block_specs(cfg, l).len() ==> #[trigger] field_slot(
                attention_at(cfg.full_attention_interval as nat, l),
                k,
            ) != place,
    ensures
        !required(specs_upto(cfg, cfg.num_layers as nat), block_name(l, all_fields()[place])),
{
    let n = cfg.num_layers as nat;
    let s = specs_upto(cfg, n);
    let field = all_fields()[place];
    if required(s, block_name(l, field)) {
        let i = choose|i: int| 0 <= i < s.len() && (#[trigger] s[i]).name == block_name(l, field);
        let k = a_block_name_is_a_blocks_tensor(cfg, n, i, l, field);
        let slot = field_slot(attention_at(cfg.full_attention_interval as nat, l), k);
        if slot < place {
            field_names_are_distinct(slot, place);
        } else {
            field_names_are_distinct(place, slot);
        }
    }
}

/// Gated attention: the query projection writes a query and a gate for every
/// value that the output projection reads, keys and values are as wide as the
/// key/value heads together, and the norms as one head. The layer has no
/// DeltaNet.
pub proof fn attention_widths_fit(cfg: Qwen4expConfig, layer: nat)
    requires
        shapes_fit(cfg),
        layer < cfg.num_layers,
        cfg.full_attention_interval > 0,
        (layer + 1) % cfg.full_attention_interval as nat == 0,
    ensures
        ({
            let s = specs_upto(cfg, cfg.num_layers as nat);
            let e = cfg.hidden_size as int;
            let heads = cfg.num_attention_heads * cfg.head_dim;
            let kv = cfg.num_key_value_heads * cfg.head_dim;
            &&& projects(s, block_name(layer, "attn_output.weight"@), heads, e)
            &&& projects(s, block_name(layer, "attn_q.weight"@), e, heads + heads)
            &&& projects(s, block_name(layer, "attn_k.weight"@), e, kv)
            &&& projects(s, block_name(layer, "attn_v.weight"@), e, kv)
            &&& is_vector(s, block_name(layer, "attn_q_norm.weight"@), cfg.head_dim as int)
            &&& is_vector(s, block_name(layer, "attn_k_norm.weight"@), cfg.head_dim as int)
            &&& !required(s, block_name(layer, "attn_qkv.weight"@))
            &&& !required(s, block_name(layer, "attn_gate.weight"@))
            &&& !required(s, block_name(layer, "ssm_conv1d.weight"@))
            &&& !required(s, block_name(layer, "ssm_out.weight"@))
        }),
{
    assert(attention_at(cfg.full_attention_interval as nat, layer));
    lemma_only(cfg, layer, 13);
    lemma_only(cfg, layer, 14);
    lemma_only(cfg, layer, 15);
    lemma_only(cfg, layer, 16);
    lemma_only(cfg, layer, 17);
    lemma_only(cfg, layer, 18);
    lemma_none(cfg, layer, 19);
    lemma_none(cfg, layer, 20);
    lemma_none(cfg, layer, 21);
    lemma_none(cfg, layer, 27);
}

/// What the query projection writes is twice what the output projection
/// reads, by whatever tensors of those names are required.
pub proof fn a_query_comes_with_its_gate(cfg: Qwen4expConfig, layer: nat, q: int, o: int)
    requires
        shapes_fit(cfg),
        layer < cfg.num_layers,
        0 <= q < specs_upto(cfg, cfg.num_layers as nat).len(),
        0 <= o < specs_upto(cfg, cfg.num_layers as nat).len(),
        specs_upto(cfg, cfg.num_layers as nat)[q].name == block_name(layer, "attn_q.weight"@),
        specs_upto(cfg, cfg.num_layers as nat)[o].name == block_name(
            layer,
            "attn_output.weight"@,
        ),
    ensures
        ({
            let s = specs_upto(cfg, cfg.num_layers as nat);
            &&& s[q].ne.len() == 2 && s[o].ne.len() == 2
            &&& s[q].ne[1] == 2 * s[o].ne[0]
            &&& s[q].ne[0] == s[o].ne[1]
        }),
{
    if !attention_at(cfg.full_attention_interval as nat, layer) {
        assert(all_fields()[13] == "attn_q.weight"@);
        lemma_none(cfg, layer, 13);
    }
    lemma_only(cfg, layer, 13);
    lemma_only(cfg, layer, 16);
}

/// Gated DeltaNet: the mixed projection writes query, key and value side by
/// side, as many channels as the convolution has; its gating is as wide as what
/// the output projection reads; steps and decays have one value for each value
/// head, and the norm one for each state. The layer has no attention.
pub proof fn delta_widths_fit(cfg: Qwen4expConfig, layer: nat)
    requires
        shapes_fit(cfg),
        layer < cfg.num_layers,
        cfg.full_attention_interval > 0 ==> (layer + 1) % cfg.full_attention_interval as nat != 0,
    ensures
        ({
            let s = specs_upto(cfg, cfg.num_layers as nat);
            let e = cfg.hidden_size as int;
            let keys = cfg.n_k_heads * cfg.d_state;
            let values = cfg.d_inner as int;
            let channels = keys + keys + values;
            let heads = cfg.n_v_heads as int;
            &&& projects(s, block_name(layer, "attn_qkv.weight"@), e, channels)
            &&& is_matrix(
                s,
                block_name(layer, "ssm_conv1d.weight"@),
                cfg.conv_kernel as int,
                channels,
                Kind::DeltaConv,
            )
            &&& projects(s, block_name(layer, "attn_gate.weight"@), e, values)
            &&& projects(s, block_name(layer, "ssm_out.weight"@), values, e)
            &&& projects(s, block_name(layer, "ssm_beta.weight"@), e, heads)
            &&& projects(s, block_name(layer, "ssm_alpha.weight"@), e, heads)
            &&& is_vector(s, block_name(layer, "ssm_dt.bias"@), heads)
            &&& is_vector(s, block_name(layer, "ssm_a"@), heads)
            &&& is_vector(s, block_name(layer, "ssm_norm.weight"@), cfg.d_state as int)
            &&& !required(s, block_name(layer, "attn_q.weight"@))
            &&& !required(s, block_name(layer, "attn_k.weight"@))
            &&& !required(s, block_name(layer, "attn_v.weight"@))
            &&& !required(s, block_name(layer, "attn_output.weight"@))
        }),
{
    assert(!attention_at(cfg.full_attention_interval as nat, layer));
    lemma_only(cfg, layer, 13);
    lemma_only(cfg, layer, 14);
    lemma_only(cfg, layer, 15);
    lemma_only(cfg, layer, 16);
    lemma_only(cfg, layer, 17);
    lemma_only(cfg, layer, 18);
    lemma_only(cfg, layer, 19);
    lemma_only(cfg, layer, 20);
    lemma_only(cfg, layer, 21);
    lemma_none(cfg, layer, 13);
    lemma_none(cfg, layer, 14);
    lemma_none(cfg, layer, 15);
    lemma_none(cfg, layer, 16);
}

/// The mixers around the token mixer and around the experts: all streams are
/// normed and projected down to the low rank and back up, and one injection
/// weight is made for each stream.
pub proof fn mixer_widths_fit(cfg: Qwen4expConfig, layer: nat)
    requires
        shapes_fit(cfg),
        layer < cfg.num_layers,
    ensures
        ({
            let s = specs_upto(cfg, cfg.num_layers as nat);
            let streams = cfg.hyper_connection_count as int;
            let all = streams * cfg.hidden_size;
            let rank = cfg.hyper_connection_low_rank as int;
            &&& is_vector(s, block_name(layer, "hc_attn_norm.weight"@), all)
            &&& projects(s, block_name(layer, "hc_attn_down.weight"@), all, rank)
            &&& projects(s, block_name(layer, "hc_attn_up.weight"@), rank, all)
            &&& projects(s, block_name(layer, "hc_attn_inject.weight"@), all, streams)
            &&& is_vector(s, block_name(layer, "hc_ffn_norm.weight"@), all)
            &&& projects(s, block_name(layer, "hc_ffn_down.weight"@), all, rank)
            &&& projects(s, block_name(layer, "hc_ffn_up.weight"@), rank, all)
            &&& projects(s, block_name(layer, "hc_ffn_inject.weight"@), all, streams)
        }),
{
    lemma_only(cfg, layer, 0);
    lemma_only(cfg, layer, 1);
    lemma_only(cfg, layer, 2);
    lemma_only(cfg, layer, 3);
    lemma_only(cfg, layer, 4);
    lemma_only(cfg, layer, 5);
    lemma_only(cfg, layer, 6);
    lemma_only(cfg, layer, 7);
}

/// The router scores every expert, and the shared expert's gate and up
/// projections write what its down projection reads.
pub proof fn expert_widths_fit(cfg: Qwen4expConfig, layer: nat)
    requires
        shapes_fit(cfg),
        layer < cfg.num_layers,
    ensures
        ({
            let s = specs_upto(cfg, cfg.num_layers as nat);
            let e = cfg.hidden_size as int;
            let shared = cfg.expert_shared_ffn_size as int;
            &&& projects(s, block_name(layer, "ffn_gate_inp.weight"@), e, cfg.expert_count as int)
            &&& is_vector(s, block_name(layer, "ffn_gate_inp_shexp.weight"@), e)
            &&& projects(s, block_name(layer, "ffn_gate_shexp.weight"@), e, shared)
            &&& projects(s, block_name(layer, "ffn_up_shexp.weight"@), e, shared)
            &&& projects(s, block_name(layer, "ffn_down_shexp.weight"@), shared, e)
        }),
{
    lemma_only(cfg, layer, 8);
    lemma_only(cfg, layer, 9);
    lemma_only(cfg, layer, 10);
    lemma_only(cfg, layer, 11);
    lemma_only(cfg, layer, 12);
}

/// Embeddings: keys are made for every stream and values for one, both from
/// the whole embedding; the kernel and the norms are as wide as the streams
/// together. A layer without embeddings has none of it.
pub proof fn embedding_widths_fit(cfg: Qwen4expConfig, layer: nat)
    requires
        shapes_fit(cfg),
        layer < cfg.num_layers,
    ensures
        ({
            let s = specs_upto(cfg, cfg.num_layers as nat);
            let e = cfg.hidden_size as int;
            let all = cfg.hyper_connection_count * cfg.hidden_size;
            let orders = if cfg.ple_ngram_size == 0 {
                0
            } else {
                cfg.ple_ngram_size - 1
            };
            let wide = orders * cfg.ple_heads_per_ngram * cfg.ple_row_width;
            if cfg.ple_layers@.contains(layer as usize) {
                &&& projects(s, block_name(layer, "ple_key.weight"@), wide, all)
                &&& projects(s, block_name(layer, "ple_value.weight"@), wide, e)
                &&& is_matrix(
                    s,
                    block_name(layer, "ple_conv1d.weight"@),
                    cfg.ple_conv_kernel as int,
                    all,
                    Kind::FlatKernel,
                )
                &&& is_vector(s, block_name(layer, "ple_norm_key.weight"@), all)
                &&& is_vector(s, block_name(layer, "ple_norm_query.weight"@), all)
                &&& is_vector(s, block_name(layer, "ple_norm_conv.weight"@), all)
            } else {
                &&& !required(s, block_name(layer, "ple_key.weight"@))
                &&& !required(s, block_name(layer, "ple_value.weight"@))
                &&& !required(s, block_name(layer, "ple_conv1d.weight"@))
            }
        }),
{
    let at = attention_at(cfg.full_attention_interval as nat, layer);
    if cfg.ple_layers@.contains(layer as usize) {
        let i = choose|i: int|
            0 <= i < cfg.ple_layers@.len() && cfg.ple_layers@[i] == layer as usize;
        assert(has_ple(cfg, layer as int));
        let first: int = if at {
            19
        } else {
            22
        };
        lemma_only(cfg, layer, first);
        lemma_only(cfg, layer, first + 1);
        lemma_only(cfg, layer, first + 2);
        lemma_only(cfg, layer, first + 3);
        lemma_only(cfg, layer, first + 4);
        lemma_only(cfg, layer, first + 5);
    } else {
        assert(!has_ple(cfg, layer as int));
        lemma_none(cfg, layer, 28);
        lemma_none(cfg, layer, 29);
        lemma_none(cfg, layer, 30);
    }
}

/// The tensors outside the blocks: the embedding and the head are as wide as
/// one stream and as tall as the vocabulary, and the output mixer reads all
/// streams and injects nothing.
pub proof fn head_widths_fit(cfg: Qwen4expConfig)
    requires
        shapes_fit(cfg),
    ensures
        ({
            let s = specs_upto(cfg, cfg.num_layers as nat);
            let e = cfg.hidden_size as int;
            let all = cfg.hyper_connection_count * cfg.hidden_size;
            let rank = cfg.hyper_connection_low_rank as int;
            &&& is_matrix(
                s,
                "token_embd.weight"@,
                e,
                cfg.vocab_size as int,
                Kind::Embedding,
            )
            &&& projects(s, "output.weight"@, e, cfg.vocab_size as int)
            &&& is_vector(s, "output_hc_norm.weight"@, all)
            &&& projects(s, "output_hc_down.weight"@, all, rank)
            &&& projects(s, "output_hc_up.weight"@, rank, all)
        }),
{
    lemma_head_only(cfg, 0);
    lemma_head_only(cfg, 1);
    lemma_head_only(cfg, 2);
    lemma_head_only(cfg, 3);
    lemma_head_only(cfg, 4);
}

/// The tensors outside the blocks come first.
proof fn lemma_head_first(cfg: Qwen4expConfig, n: nat)
    ensures
        specs_upto(cfg, n).len() >= 5,
        specs_upto(cfg, n).take(5) == specs_upto(cfg, 0),
    decreases n,
{
    assert(specs_upto(cfg, 0).len() == 5);
    if n > 0 {
        lemma_head_first(cfg, (n - 1) as nat);
        assert(specs_upto(cfg, n).take(5) =~= specs_upto(cfg, (n - 1) as nat).take(5));
    } else {
        assert(specs_upto(cfg, 0).take(5) =~= specs_upto(cfg, 0));
    }
}

/// A tensor outside the blocks is the only one of its name.
proof fn lemma_head_only(cfg: Qwen4expConfig, k: int)
    requires
        0 <= k < 5,
    ensures
        ({
            let s = specs_upto(cfg, cfg.num_layers as nat);
            let t = specs_upto(cfg, 0)[k];
            &&& required(s, t.name)
            &&& forall|i: int| 0 <= i < s.len() && (#[trigger] s[i]).name == t.name ==> s[i] == t
        }),
{
    let n = cfg.num_layers as nat;
    let s = specs_upto(cfg, n);
    lemma_head_first(cfg, n);
    let t = specs_upto(cfg, 0)[k];
    assert(s.take(5)[k] == s[k]);
    assert(s[k].name == t.name);
    assert forall|i: int| 0 <= i < s.len() && (#[trigger] s[i]).name == t.name implies s[i] == t by {
        if i < k {
            trunk_names_are_distinct(cfg, n, i, k);
        } else if k < i {
            trunk_names_are_distinct(cfg, n, k, i);
        }
    }
}

/// A layer requires nothing but its mixers, its experts, its one token mixer
/// and its embeddings: every required tensor is named outside the blocks or
/// after a layer of the model.
pub proof fn nothing_else_is_required(cfg: Qwen4expConfig, layer: nat, field: Seq<char>)
    requires
        layer <= usize::MAX,
        required(specs_upto(cfg, cfg.num_layers as nat), block_name(layer, field)),
    ensures
        layer < cfg.num_layers,
        all_fields().contains(field),
{
    let n = cfg.num_layers as nat;
    let s = specs_upto(cfg, n);
    let i = choose|i: int| 0 <= i < s.len() && (#[trigger] s[i]).name == block_name(layer, field);
    let k = a_block_name_is_a_blocks_tensor(cfg, n, i, layer, field);
}

} // verus!
