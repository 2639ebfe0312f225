//! What callers of the model's functions are given: the laws of the model, of
//! what the functions return and leave behind.

use crate::gguf::{dims_product, uint_array, F32Bits, GgmlType, GgufFile, GgufValue};
use crate::models::qwen35::{EosIds, GdnGate, GdnL2, Qwen35Config};
use crate::models::qwen4exp::assemble::{
    assemble, leftovers, taken, takes, wanted, wants, ExpertShape, PleShape, Wanted,
};
use crate::models::qwen4exp::carrying::{
    a_history_keeps_the_last_tokens, a_pass_runs_where_dense_attention_is_exact,
    a_term_multiplies_its_own_tap, an_embedding_block_must_fit,
    an_embedding_block_runs_on_its_own_shapes,
};
use crate::models::qwen4exp::complete::{
    a_slot_holds_what_was_wanted, ingested_values_keep_their_places, leftovers_are_the_unwanted,
    what_is_no_trunk_tensor,
};
use crate::models::qwen4exp::config::{
    attention_count_is_a_quotient, compress_ratios, header_fits, least_positive,
    least_positive_is_least, listed_ple_layers, meta_f32, meta_u64_array, meta_usize,
    ple_hash_arrays, ple_layers, sections_of, text_degenerate, text_rope_dim, PleHashArrays,
    Qwen4expConfig,
};
use crate::models::qwen4exp::experts::{LayerExperts, RoutedExperts, WeightSource};
use crate::models::qwen4exp::forward::{
    a_layer_mixes_tokens_before_experts, a_pass_runs_each_operation_once, check_forward,
    finish_forward, forward_steps, is_eos, layers_run_one_after_another, new_cache, precedes,
    probe_views, probes, LayerCache, Qwen4expCache, Step,
};
use crate::models::qwen4exp::hc::{grouped_rms, linear3, Dims3, HyperConnection, Weight};
use crate::models::qwen4exp::header::{
    carries_number, carries_numbers, carries_single, lemma_carries_numbers,
    the_blocks_have_the_models_shapes,
};
use crate::models::qwen4exp::load::{ingest, IngestShape};
use crate::models::qwen4exp::matvec::{ffn, FfnEmulation};
use crate::models::qwen4exp::ple::{vocab_sum, PleHash};
use crate::models::qwen4exp::ple_block::{PleBlock, PleWeights, Product};
use crate::models::qwen4exp::ple_conv::PleConvState;
use crate::models::qwen4exp::shapes::{attention_widths_fit, projects};
use crate::models::qwen4exp::teacher::teach_ple_out;
use crate::models::qwen4exp::trunk::{
    block_field, block_name, is_ple_layer, models, non_trunk, shapes_fit, specs_upto, trunk_specs,
    Kind, NonTrunk, TrunkSpec,
};
use crate::text::decimal;
use vstd::prelude::*;

verus! {

/// The steps of a pass: embedded first; in every layer the embeddings of its
/// own, then its token mixer between mix and combine, then its experts between
/// theirs; a layer after all of the one before; logits, where they are asked
/// for, last.
pub proof fn steps_come_in_the_models_order(
    cfg: Qwen4expConfig,
    need_logits: bool,
    r: Vec<Step>,
    layer: usize,
)
    requires
        call_ensures(forward_steps, (&cfg, need_logits), r),
        layer < cfg.num_layers,
    ensures
        ({
            let attends = cfg.full_attention_interval > 0 && (layer + 1)
                % cfg.full_attention_interval as int == 0;
            let mixer = if attends {
                Step::Attention { layer }
            } else {
                Step::DeltaNet { layer }
            };
            &&& r@[0] == Step::Embed
            &&& precedes(r@, Step::MixAttn { layer }, mixer)
            &&& precedes(r@, mixer, Step::CombineAttn { layer })
            &&& precedes(r@, Step::CombineAttn { layer }, Step::MixFfn { layer })
            &&& precedes(r@, Step::MixFfn { layer }, Step::Moe { layer })
            &&& precedes(r@, Step::Moe { layer }, Step::CombineFfn { layer })
            &&& cfg.ple_layers@.contains(layer) ==> precedes(
                r@,
                Step::Ple { layer },
                Step::MixAttn { layer },
            )
            &&& layer > 0 ==> precedes(
                r@,
                Step::CombineFfn { layer: (layer - 1) as usize },
                Step::MixAttn { layer },
            )
            &&& layer > 0 && cfg.ple_layers@.contains(layer) ==> precedes(
                r@,
                Step::CombineFfn { layer: (layer - 1) as usize },
                Step::Ple { layer },
            )
            &&& need_logits ==> r@[r@.len() - 2] == Step::OutputMix && r@[r@.len() - 1]
                == Step::Head
            &&& forall|i: int, j: int|
                0 <= i < j < r@.len() ==> #[trigger] r@[i] != #[trigger] r@[j]
        }),
{
    a_layer_mixes_tokens_before_experts(cfg, need_logits, layer);
    a_pass_runs_each_operation_once(cfg, need_logits);
    if layer > 0 {
        layers_run_one_after_another(cfg, need_logits, (layer - 1) as usize, layer);
    }
}

/// A pass is allowed exactly when there is something to run, the caches are as
/// many as the layers, it follows what was consumed, and no layer of sparse
/// attention would have to leave out a cached token.
pub proof fn a_pass_is_allowed_where_it_is_exact(
    cfg: Qwen4expConfig,
    cache: Qwen4expCache,
    t: usize,
    past: usize,
    r: Result<(), String>,
)
    requires
        call_ensures(check_forward, (&cfg, &cache, t, past), r),
    ensures
        r is Ok <==> {
            &&& t > 0
            &&& cache.layers@.len() == cfg.num_layers
            &&& past == cache.position
            &&& forall|l: int|
                0 <= l < cfg.attention_compress_ratios@.len()
                    && #[trigger] cfg.attention_compress_ratios@[l] > 0 ==> past + t
                    <= cfg.indexer_top_k + cfg.attention_compress_ratios@[l] - 1
        },
{
    a_pass_runs_where_dense_attention_is_exact(cfg, cache, t as nat, past as nat);
}

/// A fresh cache has consumed nothing, holds a key/value cache for every layer
/// of attention and a state for every other, and, where a layer has embeddings
/// of its own, a history of nothing that reaches as far back as their
/// convolution does.
pub proof fn a_fresh_cache_holds_nothing(cfg: Qwen4expConfig, r: Qwen4expCache, layer: int)
    requires
        call_ensures(new_cache, (&cfg,), r),
        0 <= layer < cfg.num_layers,
    ensures
        r.position == 0,
        r.ple_history@.len() == 0,
        r.layers@.len() == cfg.num_layers,
        r.layers@[layer] == if cfg.full_attention_interval > 0 && (layer + 1)
            % cfg.full_attention_interval as int == 0 {
            LayerCache::Attn
        } else {
            LayerCache::Delta
        },
        cfg.ple_layers@.contains(layer as usize) ==> r.ple_conv is Some,
        r.ple_conv matches Some(s) ==> {
            &&& s.batch == 1
            &&& s.channels == cfg.hidden_size * cfg.hyper_connection_count
            &&& s.cols == (cfg.ple_conv_kernel - 1) * cfg.ple_ngram_size
            &&& forall|i: int| 0 <= i < s.hist@.len() ==> #[trigger] s.hist@[i] == 0
        },
{
    if cfg.ple_layers@.contains(layer as usize) {
        assert(crate::models::qwen4exp::trunk::has_ple(cfg, layer));
    }
}

/// After a pass its tokens are consumed: the position is that much further,
/// and the window holds the last tokens that the hash reads; the layers' caches
/// are the caller's.
pub proof fn a_finished_pass_is_consumed(
    cache: &mut Qwen4expCache,
    hash: Option<&PleHash>,
    ids: &[u32],
    i: int,
)
    requires
        call_ensures(finish_forward, (cache, hash, ids), ()),
        hash matches Some(h) ==> h.ngram_size > 0,
    ensures
        final(cache).position == old(cache).position + ids@.len(),
        final(cache).layers == old(cache).layers,
        final(cache).ple_conv == old(cache).ple_conv,
        hash is None ==> final(cache).ple_history@ == old(cache).ple_history@,
        hash matches Some(h) ==> {
            let all = old(cache).ple_history@ + ids@;
            let kept = final(cache).ple_history@;
            &&& kept.len() == if all.len() < h.ngram_size - 1 {
                all.len() as int
            } else {
                h.ngram_size - 1
            }
            &&& 0 <= i < kept.len() ==> kept[kept.len() - 1 - i] == all[all.len() - 1 - i]
        },
{
    if let Some(h) = hash {
        if 0 <= i < h.advanced(old(cache).ple_history@, ids@).len() {
            a_history_keeps_the_last_tokens(*h, old(cache).ple_history@, ids@, i);
        }
    }
}

/// Either end-of-text token ends a generation, and no other.
pub proof fn a_generation_ends_at_either_token(cfg: Qwen4expConfig, id: u32, r: bool)
    requires
        call_ensures(is_eos, (&cfg, id), r),
    ensures
        r <==> id == cfg.eos_token_id || id == cfg.ple_eos_token_id,
{
}

/// The tensors that a file must have, by name: in a layer of attention the query
/// projection writes every head twice over, query and gating, and the output
/// projection reads every head once.
pub proof fn the_required_query_is_two_heads_wide(
    cfg: Qwen4expConfig,
    r: Vec<TrunkSpec>,
    layer: nat,
)
    requires
        shapes_fit(cfg),
        call_ensures(trunk_specs, (&cfg,), r),
        layer < cfg.num_layers,
        cfg.full_attention_interval > 0,
        (layer + 1) % cfg.full_attention_interval as nat == 0,
    ensures
        ({
            let e = cfg.hidden_size as int;
            let heads = cfg.num_attention_heads * cfg.head_dim;
            let kv = cfg.num_key_value_heads * cfg.head_dim;
            &&& projects(models(r@), block_name(layer, "attn_q.weight"@), e, 2 * heads)
            &&& projects(models(r@), block_name(layer, "attn_k.weight"@), e, kv)
            &&& projects(models(r@), block_name(layer, "attn_v.weight"@), e, kv)
            &&& projects(models(r@), block_name(layer, "attn_output.weight"@), heads, e)
            &&& models(r@) == specs_upto(cfg, cfg.num_layers as nat)
        }),
{
    attention_widths_fit(cfg, layer);
}

// ---- sizes -----------------------------------------------------------------

/// Every so many layers one is of attention, the last of each run; keys are as
/// wide as their heads together, and the convolution takes query, key and value
/// side by side.
pub proof fn the_sizes_of_a_layer(
    cfg: Qwen4expConfig,
    layer: usize,
    attends: bool,
    key: usize,
    conv: usize,
    width: usize,
)
    requires
        call_ensures(Qwen4expConfig::is_attention, (&cfg, layer), attends),
        call_ensures(Qwen4expConfig::key_dim, (&cfg,), key),
        call_ensures(Qwen4expConfig::conv_dim, (&cfg,), conv),
        call_ensures(Qwen4expConfig::ple_embed_width, (&cfg,), width),
        cfg.ple_ngram_size >= 1,
    ensures
        cfg.full_attention_interval > 0 ==> (attends <==> (layer + 1)
            % cfg.full_attention_interval as int == 0),
        cfg.full_attention_interval == 0 ==> !attends,
        key == cfg.n_k_heads * cfg.d_state,
        conv == key + key + cfg.d_inner,
        width == (cfg.ple_ngram_size - 1) * cfg.ple_heads_per_ngram * cfg.ple_row_width,
{
}

/// Dense attention is exact up to the selected tokens and the least of the
/// ratios, one less; where no layer compresses, it always is.
pub proof fn dense_attention_has_a_limit(cfg: Qwen4expConfig, r: Option<usize>, l: int)
    requires
        match least_positive(cfg.attention_compress_ratios@) {
            Some(m) => cfg.indexer_top_k + m - 1 <= usize::MAX,
            None => true,
        },
        call_ensures(Qwen4expConfig::dense_attention_limit, (&cfg,), r),
        0 <= l < cfg.attention_compress_ratios@.len(),
        cfg.attention_compress_ratios@[l] > 0,
    ensures
        r is Some,
        r->0 < cfg.indexer_top_k + cfg.attention_compress_ratios@[l],
        exists|k: int|
            0 <= k < cfg.attention_compress_ratios@.len()
                && #[trigger] cfg.attention_compress_ratios@[k] > 0 && r->0 + 1 == cfg.indexer_top_k
                + cfg.attention_compress_ratios@[k],
{
    let ratios = cfg.attention_compress_ratios@;
    least_positive_is_least(ratios);
    let m = least_positive(ratios)->0;
    let k = choose|k: int| 0 <= k < ratios.len() && ratios[k] == m;
    assert(ratios[k] > 0);
}

/// A size is read where the header carries an unsigned number under the key,
/// and a single where it carries one.
pub proof fn a_header_number_is_read_as_it_stands(
    f: GgufFile,
    key: &str,
    r: Result<usize, String>,
    s: Result<F32Bits, String>,
)
    requires
        header_fits(f),
        call_ensures(meta_usize, (&f, key), r),
        call_ensures(meta_f32, (&f, key), s),
    ensures
        r matches Ok(n) ==> carries_number(f, key@, n as int),
        r is Err ==> !(f.value(key@) matches Some(v) && v.unsigned() is Some),
        s matches Ok(b) ==> carries_single(f, key@, b),
        s is Err ==> !(f.value(key@) matches Some(GgufValue::F32(b))),
{
    if r is Ok {
        let v = f.value(key@)->0;
        assert(v.unsigned() is Some);
    }
}

// ---- the load --------------------------------------------------------------

/// What a name outside the trunk is: the banks of the experts and the table of
/// embeddings are served, the indexer's tensors of a layer of attention are
/// skipped, and nothing else is known.
pub proof fn a_name_outside_the_trunk_is_served_or_skipped(
    cfg: Qwen4expConfig,
    name: &str,
    r: Option<NonTrunk>,
    layer: nat,
    field: Seq<char>,
)
    requires
        call_ensures(non_trunk, (name, &cfg), r),
        layer <= usize::MAX,
        name@ == block_name(layer, field),
    ensures
        r == if layer >= cfg.num_layers {
            None
        } else if field == "ffn_gate_exps.weight"@ || field == "ffn_up_exps.weight"@ || field
            == "ffn_down_exps.weight"@ {
            Some(NonTrunk::Served)
        } else if (field == "indexer.q_proj.weight"@ || field == "indexer.k_proj.weight"@ || field
            == "indexer.q_norm.weight"@ || field == "indexer.k_norm.weight"@)
            && cfg.full_attention_interval > 0 && (layer + 1) % cfg.full_attention_interval as nat
            == 0 {
            Some(NonTrunk::SkippedIndexer)
        } else {
            None
        },
{
    what_is_no_trunk_tensor(cfg, layer, field);
}

/// A tensor of a block is named by the block's number and its field.
pub proof fn a_blocks_tensor_is_named_by_its_number(l: usize, field: &str, r: String)
    requires
        call_ensures(block_field, (l, field), r),
    ensures
        r@ == "blk."@ + decimal(l as nat) + "."@ + field@,
{
}

/// A trunk tensor is taken as its kind asks: a vector as it is, a linear weight
/// transposed, an embedding by rows, a kernel flat or by channel.
pub proof fn a_trunk_tensor_is_taken_as_its_kind(
    spec: TrunkSpec,
    values: usize,
    r: Result<IngestShape, String>,
)
    requires
        call_ensures(ingest, (&spec, values), r),
        spec.ne@.len() == 2,
        spec.ne@[0] <= usize::MAX,
        spec.ne@[1] <= usize::MAX,
        dims_product(spec.ne@) <= usize::MAX,
    ensures
        r is Ok ==> values == dims_product(spec.ne@),
        r matches Ok(IngestShape::T2 { rows, cols, transpose }) ==> rows == spec.ne@[1] && cols
            == spec.ne@[0] && (transpose <==> spec.kind == Kind::Linear),
        r matches Ok(IngestShape::T3 { a, b, c }) ==> spec.kind == Kind::DeltaConv && a
            == spec.ne@[1] && b == 1 && c == spec.ne@[0],
        r matches Ok(IngestShape::T1 { len }) ==> spec.kind == Kind::FlatKernel && len == values,
        spec.kind == Kind::Linear && values == dims_product(spec.ne@) ==> r is Ok,
{
    ingested_values_keep_their_places(spec@, values as nat, 0, 0);
}

/// What an assembly takes is the list of the model, by name and rank.
pub proof fn an_assembly_takes_the_models_list(cfg: Qwen4expConfig, r: Vec<Wanted>)
    requires
        call_ensures(wanted, (&cfg,), r),
    ensures
        wants(r@) == takes(cfg),
{
}

/// An assembled slot holds the loaded tensor of the wanted name and rank, and
/// nothing that was loaded is left over.
pub proof fn an_assembled_slot_holds_what_was_wanted(
    cfg: Qwen4expConfig,
    loaded: Vec<Wanted>,
    experts: ExpertShape,
    ple: Option<PleShape>,
    blocks: Result<(), String>,
    r: Result<Vec<usize>, String>,
    i: int,
    name: Seq<char>,
)
    requires
        call_ensures(assemble, (&cfg, &loaded, &experts, &ple, blocks), r),
        r is Ok,
        0 <= i < takes(cfg).len(),
    ensures
        r->Ok_0@.len() == takes(cfg).len(),
        r->Ok_0@[i] < loaded@.len(),
        wants(loaded@)[r->Ok_0@[i] as int] == takes(cfg)[i],
        (exists|k: int|
            0 <= k < wants(loaded@).len() && (#[trigger] wants(loaded@)[k]).0 == name) ==> exists|
            j: int,
        |
            0 <= j < takes(cfg).len() && (#[trigger] takes(cfg)[j]).0 == name,
{
    let have = wants(loaded@);
    a_slot_holds_what_was_wanted(have, takes(cfg)[i]);
    leftovers_are_the_unwanted(have, takes(cfg), name);
    assert(taken(have, takes(cfg)[i]) == Ok::<int, Seq<char>>(r->Ok_0@[i] as int));
    if exists|k: int| 0 <= k < have.len() && (#[trigger] have[k]).0 == name {
        let left = leftovers(have, takes(cfg), have.len());
        assert(left.len() == 0);
        assert(!left.contains(name));
    }
}

// ---- experts ---------------------------------------------------------------

/// Where an expert's weights come from: nowhere for no rows; as they are stored
/// while the arithmetic is emulated or nothing is kept; else from the cache, or
/// dequantized for it.
pub proof fn an_experts_weights_come_from_the_cache(
    store: &mut RoutedExperts,
    layer: usize,
    expert: usize,
    values: usize,
    n: usize,
    emulating: bool,
    r: Result<WeightSource, String>,
)
    requires
        call_ensures(RoutedExperts::expert_ffn, (store, layer, expert, values, n, emulating), r),
    ensures
        r is Ok <==> layer < old(store).layers@.len() && expert < old(store).n_experts && values
            == n * old(store).hidden,
        r is Ok && n == 0 ==> r->Ok_0 == WeightSource::Nothing,
        r is Ok && n > 0 && (emulating || old(store).cache is None) ==> r->Ok_0
            == WeightSource::Quantized,
        r is Ok && n > 0 && !emulating ==> (old(store).cache matches Some(c) ==> {
            let bytes = old(store).hidden * old(store).ffn * 12;
            let held = exists|i: int|
                0 <= i < c.entries@.len() && (#[trigger] c.entries@[i]).layer == layer
                    && c.entries@[i].expert == expert;
            r->Ok_0 == if bytes > c.capacity_bytes {
                WeightSource::Quantized
            } else if held {
                WeightSource::Cached
            } else {
                WeightSource::Dequantize
            }
        }),
{
    let s = *old(store);
    assert(3 * (s.hidden * s.ffn) * 4 == s.hidden * s.ffn * 12) by (nonlinear_arith);
}

/// Activations are rounded only where stored weights are emulated: each on the
/// grid of the bank that reads them, with the minima rounded where the last
/// bank has them.
pub proof fn stored_banks_are_emulated(
    layer: LayerExperts,
    source: WeightSource,
    emulating: bool,
    r: FfnEmulation,
)
    requires
        call_ensures(ffn, (&layer, source, emulating), r),
    ensures
        ({
            let on = emulating && source == WeightSource::Quantized;
            &&& r.gate is Some <==> on
            &&& r.up is Some <==> on
            &&& r.down is Some <==> on
            &&& on ==> r.gate->0.width == layer.gate.in_dim && r.gate->0.dtype == layer.gate.dtype
            &&& on ==> r.up->0.width == layer.up.in_dim && r.up->0.dtype == layer.up.dtype
            &&& on ==> r.down->0.width == layer.down.in_dim && r.down->0.dtype == layer.down.dtype
            &&& r.min_rounding <==> on && layer.down.dtype == GgmlType::Q51
        }),
{
}

// ---- mixers ----------------------------------------------------------------

/// A projection gives its outputs for each row of its inputs; groups divide a
/// row; a mixer takes all streams to one and, where it injects, to a weight for
/// each.
pub proof fn a_mixer_takes_all_streams_to_one(
    w: Weight,
    b: usize,
    t: usize,
    d_in: usize,
    rows: Result<(usize, usize, usize), String>,
    hc: HyperConnection,
    width: usize,
    r: Result<(usize, Option<usize>), String>,
)
    requires
        call_ensures(linear3, (w, b, t, d_in), rows),
        call_ensures(HyperConnection::mix, (&hc, width), r),
    ensures
        rows is Ok <==> w.inputs == d_in,
        rows matches Ok(d) ==> d.0 == b && d.1 == t && d.2 == w.outputs,
        r is Ok <==> width == hc.streams * hc.hidden,
        r matches Ok(d) ==> d.0 == hc.hidden && (d.1 is Some <==> hc.inject is Some) && (
        d.1 is Some ==> d.1 == Some(hc.streams)),
{
}

/// Groups divide a row evenly.
pub proof fn groups_divide_a_row(width: usize, groups: usize, r: Result<usize, String>)
    requires
        call_ensures(grouped_rms, (width, groups), r),
    ensures
        r is Ok <==> groups > 0 && width as int % groups as int == 0,
        r matches Ok(e) ==> e * groups == width,
{
}

/// An output is combined exactly where it fits the residual's streams.
pub proof fn an_output_is_combined_where_it_fits(
    hc: HyperConnection,
    res: Dims3,
    block: Dims3,
    inject: Dims3,
    r: Option<String>,
)
    requires
        call_ensures(HyperConnection::combine, (&hc, res, block, inject), r),
    ensures
        r is None <==> {
            &&& block.batch == res.batch
            &&& block.time == res.time
            &&& res.width == hc.streams * block.width
            &&& inject.batch == res.batch
            &&& inject.time == res.time
            &&& inject.width == hc.streams
        },
{
}

/// A mixer is made exactly of weights that fit, and of those.
pub proof fn a_mixer_is_made_of_weights_that_fit(
    norm: usize,
    down: Weight,
    up: Weight,
    inject: Option<Weight>,
    hidden: usize,
    streams: usize,
    eps: u64,
    r: Result<HyperConnection, String>,
)
    requires
        call_ensures(HyperConnection::from_weights, (norm, down, up, inject, hidden, streams, eps), r),
    ensures
        r is Ok <==> {
            &&& norm == hidden * streams
            &&& down.inputs == hidden * streams
            &&& up.inputs == down.outputs
            &&& up.outputs == hidden * streams
            &&& inject matches Some(i) ==> i.inputs == hidden * streams && i.outputs == streams
        },
        r matches Ok(hc) ==> hc.norm == norm && hc.down == down && hc.up == up && hc.inject
            == inject && hc.hidden == hidden && hc.streams == streams && hc.eps == eps,
{
}

/// An embedding block is made exactly of weights that fit, and runs exactly on
/// shapes that do, giving the residual's shape.
pub proof fn an_embedding_block_keeps_the_residual(
    block: PleBlock,
    res: Dims3,
    emb: Dims3,
    state: PleConvState,
    r: Result<Dims3, String>,
)
    requires
        block.wf(),
        block.streams > 0,
        call_ensures(PleBlock::forward, (&block, res, emb, &state), r),
    ensures
        r is Ok <==> {
            &&& res.width == block.streams * block.hidden
            &&& emb.batch == res.batch
            &&& emb.time == res.time
            &&& emb.width == block.weights.key.inputs
            &&& state.batch == res.batch
            &&& state.channels == res.width
            &&& state.cols == (block.kernel - 1) * block.dilation
        },
        r matches Ok(d) ==> d == res,
{
    an_embedding_block_runs_on_its_own_shapes(block, res, emb, state);
}

/// An embedding block is made exactly of weights that fit, and of those.
pub proof fn an_embedding_block_is_made_of_weights_that_fit(
    w: PleWeights,
    hidden: usize,
    streams: usize,
    kernel: usize,
    dilation: usize,
    eps: u64,
    r: Result<PleBlock, String>,
)
    requires
        call_ensures(PleBlock::from_weights, (w, hidden, streams, kernel, dilation, eps), r),
    ensures
        r is Ok <==> {
            &&& w.key.outputs == hidden * streams
            &&& w.value.inputs == w.key.inputs
            &&& w.value.outputs == hidden
            &&& w.norm_key == hidden * streams
            &&& w.norm_query == hidden * streams
            &&& w.norm_conv == hidden * streams
            &&& kernel >= 1
            &&& dilation >= 1
            &&& w.conv == kernel * (hidden * streams)
        },
        r matches Ok(b) ==> b.weights == w && b.hidden == hidden && b.streams == streams && b.kernel
            == kernel && b.dilation == dilation && b.eps == eps,
{
    an_embedding_block_must_fit(
        w,
        hidden as nat,
        streams as nat,
        kernel as nat,
        dilation as nat,
    );
}

/// A block's convolution multiplies what each tap reads by that tap of the
/// channel, and carries the history on.
pub proof fn a_blocks_convolution_multiplies_its_taps(
    block: PleBlock,
    xs: Vec<u32>,
    tokens: usize,
    state: &mut PleConvState,
    r: Vec<Product>,
    i: int,
)
    requires
        block.wf(),
        call_ensures(PleBlock::conv_host, (&block, &xs, tokens, state), r),
        0 <= i < r@.len(),
        block.kernel > 0,
        old(state).channels > 0,
        block.kernel * old(state).channels <= usize::MAX,
    ensures
        r@[i].value == old(state).windows(
            xs@,
            tokens as int,
            block.kernel as int,
            block.dilation as int,
        )[i],
        r@[i].tap == (i / block.kernel as int % old(state).channels as int) * block.kernel + i
            % block.kernel as int,
        final(state).hist@ == old(state).next_hist(xs@, tokens as int),
{
    a_term_multiplies_its_own_tap(
        *old(state),
        xs@,
        tokens as int,
        block.kernel as int,
        block.dilation as int,
        i,
    );
}

// ---- names -----------------------------------------------------------------

/// The intermediates of an operation are named after it and its layer; those
/// of the two mixes of a layer have the same names, the second's a second time.
pub proof fn intermediates_are_named_after_their_operation(step: Step, r: Vec<(String, usize)>)
    requires
        call_ensures(probes, (step,), r),
    ensures
        step matches Step::Embed ==> r@.len() == 1 && r@[0].0@ == "model.input_embed"@,
        step matches Step::Ple { layer } ==> r@.len() == 2 && r@[0].0@ == "ple_embd"@ && r@[1].0@
            == "ple_out-"@ + decimal(layer as nat),
        step matches Step::MixAttn { layer } ==> r@.len() == 2 && r@[0].0@ == "hc_mixed-"@ + decimal(
            layer as nat,
        ) && r@[1].0@ == "hc_inject-"@ + decimal(layer as nat),
        step matches Step::MixFfn { layer } ==> r@.len() == 2 && r@[0].0@ == "hc_mixed-"@ + decimal(
            layer as nat,
        ) && r@[1].0@ == "hc_inject-"@ + decimal(layer as nat),
        step matches Step::Attention { layer } ==> r@.len() == 1 && r@[0].0@ == "attn_output-"@
            + decimal(layer as nat),
        step matches Step::DeltaNet { layer } ==> r@.len() == 1 && r@[0].0@ == "linear_attn_out-"@
            + decimal(layer as nat),
        step matches Step::CombineAttn { layer } ==> r@.len() == 1 && r@[0].0@ == "hc_combine-"@
            + decimal(layer as nat),
        step matches Step::Moe { layer } ==> r@.len() == 5 && r@[0].0@ == "ffn_moe_logits-"@
            + decimal(layer as nat) && r@[1].0@ == "shared_expert_gate_sigmoid-"@ + decimal(
            layer as nat,
        ) && r@[2].0@ == "ffn_moe_out-"@ + decimal(layer as nat) && r@[3].0@ == "ffn_shexp_gated-"@
            + decimal(layer as nat) && r@[4].0@ == "ffn_out-"@ + decimal(layer as nat),
        step matches Step::CombineFfn { layer } ==> r@.len() == 1 && r@[0].0@ == "l_last-"@
            + decimal(layer as nat),
        step is OutputMix ==> r@.len() == 1 && r@[0].0@ == "result_norm"@,
        step is Head ==> r@.len() == 1 && r@[0].0@ == "result_output"@,
        forall|i: int|
            0 <= i < r@.len() ==> (#[trigger] r@[i]).1 == if step is MixFfn {
                1usize
            } else {
                0usize
            },
{
    let v = probe_views(r@);
    assert(v.len() == r@.len());
    assert forall|i: int| 0 <= i < r@.len() implies (#[trigger] r@[i]).0@ == v[i].0 && r@[i].1
        == v[i].1 by {}
    if r@.len() >= 1 {
        assert(r@[0].0@ == v[0].0);
    }
    if r@.len() >= 2 {
        assert(r@[1].0@ == v[1].0);
    }
    if r@.len() >= 5 {
        assert(r@[2].0@ == v[2].0 && r@[3].0@ == v[3].0 && r@[4].0@ == v[4].0);
    }
}

/// A layer's embeddings are compared with the residual that the layer before
/// left, the gated value and the convolution of the layer.
pub proof fn a_layers_embeddings_have_three_references(layer: usize, r: (String, String, String))
    requires
        call_ensures(teach_ple_out, (layer,), r),
    ensures
        layer == 0 ==> r.0@ == "hc_init"@,
        layer > 0 ==> r.0@ == "l_last-"@ + decimal((layer - 1) as nat),
        r.1@ == "ple_gated_value-"@ + decimal(layer as nat),
        r.2@ == "ple_conv_out-"@ + decimal(layer as nat),
{
}

// ---- lists of the header ---------------------------------------------------

/// A list is read as it stands under its key.
pub proof fn a_header_list_is_read_as_it_stands(
    f: GgufFile,
    key: &str,
    r: Result<Vec<u64>, String>,
)
    requires
        call_ensures(meta_u64_array, (&f, key), r),
        r is Ok,
    ensures
        carries_numbers(f, key@, r->Ok_0@),
        r->Ok_0@.len() <= 1024,
{
    lemma_carries_numbers(f, key@, " holds a non-integer or negative entry"@);
}

/// There is one compression ratio for each layer, as the header carries them.
pub proof fn a_layer_has_one_ratio(
    f: GgufFile,
    num_layers: usize,
    r: Result<Vec<usize>, String>,
)
    requires
        call_ensures(compress_ratios, (&f, num_layers), r),
        r is Ok,
    ensures
        r->Ok_0@.len() == num_layers,
        carries_numbers(
            f,
            "qwen4exp.attention.compress_ratios"@,
            Seq::new(r->Ok_0@.len(), |i: int| r->Ok_0@[i] as u64),
        ),
{
    let key = "qwen4exp.attention.compress_ratios"@;
    let complaint = " holds a non-integer or negative entry"@;
    lemma_carries_numbers(f, key, complaint);
    let v = uint_array(f, key, complaint)->Ok_0;
    let sizes = Seq::new(r->Ok_0@.len(), |i: int| r->Ok_0@[i] as u64);
    assert forall|i: int| 0 <= i < v.len() implies v[i] == sizes[i] by {
        assert(!(v[i] > usize::MAX));
    }
    assert(v =~= sizes);
}

/// The hash's lists are each of its own key, with an offset for every
/// vocabulary.
pub proof fn the_hash_lists_are_their_keys(f: GgufFile, r: Result<PleHashArrays, String>)
    requires
        call_ensures(ple_hash_arrays, (&f,), r),
        r is Ok,
    ensures
        carries_numbers(f, "qwen4exp.ple.layer_multipliers"@, r->Ok_0.multipliers@),
        carries_numbers(f, "qwen4exp.ple.head_offsets"@, r->Ok_0.head_offsets@),
        carries_numbers(f, "qwen4exp.ple.head_vocab_sizes"@, r->Ok_0.head_vocab_sizes@),
        r->Ok_0.head_offsets@.len() == r->Ok_0.head_vocab_sizes@.len(),
{
    let complaint = " holds a non-integer or negative entry"@;
    lemma_carries_numbers(f, "qwen4exp.ple.layer_multipliers"@, complaint);
    lemma_carries_numbers(f, "qwen4exp.ple.head_offsets"@, complaint);
    lemma_carries_numbers(f, "qwen4exp.ple.head_vocab_sizes"@, complaint);
}

/// At most one layer has embeddings of its own, and it is one of the model's.
pub proof fn one_layer_has_its_own_embeddings(
    f: GgufFile,
    num_layers: usize,
    r: Result<Vec<usize>, String>,
)
    requires
        call_ensures(ple_layers, (&f, num_layers), r),
    ensures
        r matches Ok(v) ==> v@.len() <= 1 && v@ == listed_ple_layers(f) && (v@.len() == 1 ==> v@[0]
            < num_layers),
        r is Err ==> listed_ple_layers(f).len() > 1 || (listed_ple_layers(f).len() == 1
            && listed_ple_layers(f)[0] >= num_layers),
{
}

/// The rotated width is the header's, and its sections cover it with the three
/// that stand for a text's position.
pub proof fn the_rotated_width_is_the_headers(f: GgufFile, r: Result<usize, String>)
    requires
        header_fits(f),
        call_ensures(text_rope_dim, (&f,), r),
        r is Ok,
    ensures
        carries_number(f, "qwen4exp.rope.dimension_count"@, r->Ok_0 as int),
        exists|s: Seq<u64>|
            #[trigger] text_degenerate(s, r->Ok_0 as int) && s.len() == 4 && s[3] == 0 && 2 * (s[0]
                + s[1] + s[2]) == r->Ok_0,
{
    let v = f.value("qwen4exp.rope.dimension_sections"@)->0->Array_0;
    assert(text_degenerate(sections_of(v@), r->Ok_0 as int));
    let n = f.value("qwen4exp.rope.dimension_count"@)->0;
    assert(n.unsigned() is Some);
}

/// One layer in every interval is of attention; the shared blocks have the
/// model's shapes.
pub proof fn one_layer_in_an_interval_attends(
    cfg: Qwen4expConfig,
    n: usize,
    b: Qwen35Config,
    rows: u64,
)
    requires
        cfg.full_attention_interval > 0,
        call_ensures(Qwen4expConfig::attention_layers, (&cfg,), n),
        call_ensures(Qwen4expConfig::blocks_config, (&cfg,), b),
        call_ensures(Qwen4expConfig::ple_total_rows, (&cfg,), rows),
    ensures
        n as nat == cfg.num_layers as nat / cfg.full_attention_interval as nat,
        b.hidden_size == cfg.hidden_size && b.num_layers == cfg.num_layers && b.head_dim
            == cfg.head_dim,
        b.num_attention_heads == cfg.num_attention_heads && b.num_key_value_heads
            == cfg.num_key_value_heads,
        b.full_attention_interval == cfg.full_attention_interval && b.vocab_size == cfg.vocab_size,
        b.conv_kernel == cfg.conv_kernel && b.d_inner == cfg.d_inner && b.d_state == cfg.d_state,
        b.n_k_heads == cfg.n_k_heads && b.n_v_heads == cfg.n_v_heads && b.rope_dim == cfg.rope_dim,
        b.rope_theta == cfg.rope_theta && b.rms_norm_eps == cfg.rms_norm_eps,
        b.gdn_gate == GdnGate::Sigmoid && b.gdn_l2 == GdnL2::AddEps,
        b.eos_token_id == EosIds::One(cfg.eos_token_id),
        rows == vocab_sum(cfg.ple_head_vocab_sizes@),
{
    attention_count_is_a_quotient(
        cfg.full_attention_interval as nat,
        cfg.num_layers as nat,
    );
    the_blocks_have_the_models_shapes(cfg);
}

/// A layer has embeddings of its own where it is listed.
pub proof fn a_listed_layer_has_its_own_embeddings(cfg: Qwen4expConfig, l: usize, r: bool)
    requires
        call_ensures(is_ple_layer, (&cfg, l), r),
    ensures
        r <==> cfg.ple_layers@.contains(l),
{
}

} // verus!
