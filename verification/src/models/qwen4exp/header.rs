//! What a configuration, and the hash beside it, hold of the header they were
//! read from.

use crate::gguf::{
    all_uints, non_negative_of, tensor_from_is_a_hit, uint_array, uints_of, F32Bits, GgufFile,
    GgufValue,
};
use crate::models::qwen35::{EosIds, GdnGate, GdnL2};
use crate::models::qwen4exp::config::{
    attention_at, first_attention_ple, first_stray_ratio, header_fits, layer_numbers,
    listed_ple_layers, sections_of, token_ids_of, vocab_fits, Qwen4expConfig,
};
use crate::models::qwen4exp::ple::{header_params, PleHash};
use vstd::prelude::*;

verus! {

/// Is the value this integer, of whatever width and sign it is stored?
pub open spec fn is_number(v: GgufValue, n: int) -> bool {
    match v {
        GgufValue::U8(x) => x == n,
        GgufValue::U16(x) => x == n,
        GgufValue::U32(x) => x == n,
        GgufValue::U64(x) => x == n,
        GgufValue::I8(x) => x == n,
        GgufValue::I16(x) => x == n,
        GgufValue::I32(x) => x == n,
        GgufValue::I64(x) => x == n,
        _ => false,
    }
}

/// Does the header carry this integer under the key?
pub open spec fn carries_number(f: GgufFile, key: Seq<char>, n: int) -> bool {
    f.value(key) matches Some(v) && is_number(v, n)
}

/// Does the header carry these integers under the key, in order?
pub open spec fn carries_numbers(f: GgufFile, key: Seq<char>, list: Seq<u64>) -> bool {
    f.value(key) matches Some(GgufValue::Array(v)) && v@.len() == list.len() && forall|i: int|
        0 <= i < list.len() ==> is_number(#[trigger] v@[i], list[i] as int)
}

/// Does the header carry this single-precision value under the key?
pub open spec fn carries_single(f: GgufFile, key: Seq<char>, bits: F32Bits) -> bool {
    f.value(key) == Some(GgufValue::F32(bits))
}

/// Does a configuration hold what the header carries under each of its keys?
pub open spec fn is_of_header(f: GgufFile, cfg: Qwen4expConfig) -> bool {
    &&& carries_number(f, "qwen4exp.block_count"@, cfg.num_layers as int)
    &&& carries_number(f, "qwen4exp.embedding_length"@, cfg.hidden_size as int)
    &&& carries_number(f, "qwen4exp.attention.head_count"@, cfg.num_attention_heads as int)
    &&& carries_number(f, "qwen4exp.attention.head_count_kv"@, cfg.num_key_value_heads as int)
    &&& carries_number(f, "qwen4exp.attention.key_length"@, cfg.head_dim as int)
    &&& carries_single(f, "qwen4exp.attention.layer_norm_rms_epsilon"@, cfg.rms_norm_eps)
    &&& carries_single(f, "qwen4exp.rope.freq_base"@, cfg.rope_theta)
    &&& carries_number(f, "qwen4exp.rope.dimension_count"@, cfg.rope_dim as int)
    &&& carries_number(f, "qwen4exp.full_attention_interval"@, cfg.full_attention_interval as int)
    &&& carries_number(f, "qwen4exp.ssm.conv_kernel"@, cfg.conv_kernel as int)
    &&& carries_number(f, "qwen4exp.ssm.inner_size"@, cfg.d_inner as int)
    &&& carries_number(f, "qwen4exp.ssm.state_size"@, cfg.d_state as int)
    &&& carries_number(f, "qwen4exp.ssm.group_count"@, cfg.n_k_heads as int)
    &&& carries_number(f, "qwen4exp.ssm.time_step_rank"@, cfg.n_v_heads as int)
    &&& carries_number(f, "qwen4exp.expert_count"@, cfg.expert_count as int)
    &&& carries_number(f, "qwen4exp.expert_used_count"@, cfg.expert_used_count as int)
    &&& carries_number(f, "qwen4exp.expert_feed_forward_length"@, cfg.expert_ffn_size as int)
    &&& carries_number(
        f,
        "qwen4exp.expert_shared_feed_forward_length"@,
        cfg.expert_shared_ffn_size as int,
    )
    &&& carries_number(f, "qwen4exp.hyper_connection.count"@, cfg.hyper_connection_count as int)
    &&& carries_number(
        f,
        "qwen4exp.hyper_connection.low_rank"@,
        cfg.hyper_connection_low_rank as int,
    )
    &&& carries_number(f, "qwen4exp.attention.indexer.head_count"@, cfg.indexer_head_count as int)
    &&& carries_number(f, "qwen4exp.attention.indexer.key_length"@, cfg.indexer_key_length as int)
    &&& carries_number(f, "qwen4exp.attention.indexer.top_k"@, cfg.indexer_top_k as int)
    &&& carries_number(f, "qwen4exp.ple.ngram_size"@, cfg.ple_ngram_size as int)
    &&& carries_number(f, "qwen4exp.ple.heads_per_ngram"@, cfg.ple_heads_per_ngram as int)
    &&& carries_number(f, "qwen4exp.ple.conv_kernel"@, cfg.ple_conv_kernel as int)
    &&& carries_number(
        f,
        "qwen4exp.embedding_length_per_layer_input"@,
        cfg.ple_row_width as int,
    )
    &&& carries_number(f, "qwen4exp.ple.eos_token_id"@, cfg.ple_eos_token_id as int)
    &&& carries_number(f, "tokenizer.ggml.eos_token_id"@, cfg.eos_token_id as int)
    &&& cfg.ple_image_token_id matches Some(id) ==> carries_number(
        f,
        "qwen4exp.ple.image_token_id"@,
        id as int,
    )
    &&& carries_numbers(f, "qwen4exp.ple.layer_multipliers"@, cfg.ple_layer_multipliers@)
    &&& carries_numbers(f, "qwen4exp.ple.head_offsets"@, cfg.ple_head_offsets@)
    &&& carries_numbers(f, "qwen4exp.ple.head_vocab_sizes"@, cfg.ple_head_vocab_sizes@)
}

/// Every size of a configuration is what the header carries under the size's
/// own key.
pub proof fn every_size_is_its_keys(f: GgufFile, cfg: Qwen4expConfig)
    requires
        header_fits(f),
        cfg.reads_header(f),
    ensures
        carries_number(f, "qwen4exp.block_count"@, cfg.num_layers as int),
        carries_number(f, "qwen4exp.embedding_length"@, cfg.hidden_size as int),
        carries_number(f, "qwen4exp.attention.head_count"@, cfg.num_attention_heads as int),
        carries_number(f, "qwen4exp.attention.head_count_kv"@, cfg.num_key_value_heads as int),
        carries_number(f, "qwen4exp.attention.key_length"@, cfg.head_dim as int),
        carries_single(f, "qwen4exp.attention.layer_norm_rms_epsilon"@, cfg.rms_norm_eps),
        carries_single(f, "qwen4exp.rope.freq_base"@, cfg.rope_theta),
        carries_number(f, "qwen4exp.rope.dimension_count"@, cfg.rope_dim as int),
        carries_number(f, "qwen4exp.full_attention_interval"@, cfg.full_attention_interval as int),
        carries_number(f, "qwen4exp.ssm.conv_kernel"@, cfg.conv_kernel as int),
        carries_number(f, "qwen4exp.ssm.inner_size"@, cfg.d_inner as int),
        carries_number(f, "qwen4exp.ssm.state_size"@, cfg.d_state as int),
        carries_number(f, "qwen4exp.ssm.group_count"@, cfg.n_k_heads as int),
        carries_number(f, "qwen4exp.ssm.time_step_rank"@, cfg.n_v_heads as int),
        carries_number(f, "qwen4exp.expert_count"@, cfg.expert_count as int),
        carries_number(f, "qwen4exp.expert_used_count"@, cfg.expert_used_count as int),
        carries_number(f, "qwen4exp.expert_feed_forward_length"@, cfg.expert_ffn_size as int),
        carries_number(
            f,
            "qwen4exp.expert_shared_feed_forward_length"@,
            cfg.expert_shared_ffn_size as int,
        ),
        carries_number(f, "qwen4exp.hyper_connection.count"@, cfg.hyper_connection_count as int),
        carries_number(
            f,
            "qwen4exp.hyper_connection.low_rank"@,
            cfg.hyper_connection_low_rank as int,
        ),
        carries_number(f, "qwen4exp.attention.indexer.head_count"@, cfg.indexer_head_count as int),
        carries_number(f, "qwen4exp.attention.indexer.key_length"@, cfg.indexer_key_length as int),
        carries_number(f, "qwen4exp.attention.indexer.top_k"@, cfg.indexer_top_k as int),
        carries_number(f, "qwen4exp.ple.ngram_size"@, cfg.ple_ngram_size as int),
        carries_number(f, "qwen4exp.ple.heads_per_ngram"@, cfg.ple_heads_per_ngram as int),
        carries_number(f, "qwen4exp.ple.conv_kernel"@, cfg.ple_conv_kernel as int),
        carries_number(
            f,
            "qwen4exp.embedding_length_per_layer_input"@,
            cfg.ple_row_width as int,
        ),
{
    assert(f.value("qwen4exp.block_count"@)->0.unsigned() is Some);
    assert(f.value("qwen4exp.embedding_length"@)->0.unsigned() is Some);
    assert(f.value("qwen4exp.attention.head_count"@)->0.unsigned() is Some);
    assert(f.value("qwen4exp.attention.head_count_kv"@)->0.unsigned() is Some);
    assert(f.value("qwen4exp.attention.key_length"@)->0.unsigned() is Some);
    assert(f.value("qwen4exp.rope.dimension_count"@)->0.unsigned() is Some);
    assert(f.value("qwen4exp.full_attention_interval"@)->0.unsigned() is Some);
    assert(f.value("qwen4exp.expert_count"@)->0.unsigned() is Some);
    assert(f.value("qwen4exp.expert_used_count"@)->0.unsigned() is Some);
}

/// The window-reset token is the one the header gives the embeddings, and the
/// end-of-text token the one it gives the tokenizer; they are not each
/// other's.
pub proof fn every_token_id_is_its_keys(f: GgufFile, cfg: Qwen4expConfig)
    requires
        cfg.reads_header(f),
    ensures
        carries_number(f, "qwen4exp.ple.eos_token_id"@, cfg.ple_eos_token_id as int),
        carries_number(f, "tokenizer.ggml.eos_token_id"@, cfg.eos_token_id as int),
        match cfg.ple_image_token_id {
            Some(id) => carries_number(f, "qwen4exp.ple.image_token_id"@, id as int),
            None => forall|n: int|
                n >= 0 ==> !#[trigger] carries_number(f, "qwen4exp.ple.image_token_id"@, n),
        },
{
    assert(token_ids_of(f) is Ok);
}

/// A list of integers read from the header is what it carries.
pub proof fn lemma_carries_numbers(f: GgufFile, key: Seq<char>, complaint: Seq<char>)
    requires
        uint_array(f, key, complaint) is Ok,
    ensures
        carries_numbers(f, key, uint_array(f, key, complaint)->Ok_0),
{
    if let Some(GgufValue::Array(v)) = f.value(key) {
        assert(all_uints(v@));
        assert forall|i: int| 0 <= i < v@.len() implies is_number(
            #[trigger] v@[i],
            uints_of(v@)[i] as int,
        ) by {
            assert(non_negative_of(v@[i]) is Some);
        }
    }
}

/// The hash's lists and the compress ratios are what the header carries under
/// their own keys: one ratio for each layer, and one offset for each
/// vocabulary.
pub proof fn every_list_is_its_keys(f: GgufFile, cfg: Qwen4expConfig)
    requires
        cfg.reads_header(f),
    ensures
        carries_numbers(f, "qwen4exp.ple.layer_multipliers"@, cfg.ple_layer_multipliers@),
        carries_numbers(f, "qwen4exp.ple.head_offsets"@, cfg.ple_head_offsets@),
        carries_numbers(f, "qwen4exp.ple.head_vocab_sizes"@, cfg.ple_head_vocab_sizes@),
        cfg.ple_head_offsets@.len() == cfg.ple_head_vocab_sizes@.len(),
        carries_numbers(
            f,
            "qwen4exp.attention.compress_ratios"@,
            Seq::new(
                cfg.attention_compress_ratios@.len(),
                |i: int| cfg.attention_compress_ratios@[i] as u64,
            ),
        ),
        cfg.attention_compress_ratios@.len() == cfg.num_layers,
{
    let complaint = " holds a non-integer or negative entry"@;
    lemma_carries_numbers(f, "qwen4exp.ple.layer_multipliers"@, complaint);
    lemma_carries_numbers(f, "qwen4exp.ple.head_offsets"@, complaint);
    lemma_carries_numbers(f, "qwen4exp.ple.head_vocab_sizes"@, complaint);
    lemma_carries_numbers(f, "qwen4exp.attention.compress_ratios"@, complaint);
    let v = uint_array(f, "qwen4exp.attention.compress_ratios"@, complaint)->Ok_0;
    let sizes = Seq::new(
        cfg.attention_compress_ratios@.len(),
        |i: int| cfg.attention_compress_ratios@[i] as u64,
    );
    assert forall|i: int| 0 <= i < v.len() implies v[i] == sizes[i] by {
        assert(!(v[i] > usize::MAX));
    }
    assert(v =~= sizes);
}

/// The vocabulary is the second dimension of the token embedding, which has
/// two.
pub proof fn the_vocabulary_is_the_embeddings(f: GgufFile, cfg: Qwen4expConfig)
    requires
        vocab_fits(f),
        cfg.reads_header(f),
    ensures
        exists|i: int|
            0 <= i < f.tensors@.len() && (#[trigger] f.tensors@[i]).name@ == "token_embd.weight"@
                && f.tensors@[i].dims@.len() == 2 && f.tensors@[i].dims@[1] == cfg.vocab_size,
        f.value("general.architecture"@) matches Some(GgufValue::Str(s)) && s@ == "qwen4exp"@,
{
    let name = "token_embd.weight"@;
    assert(f.index_of(name) is Some);
    tensor_from_is_a_hit(f.tensors@, name, 0);
    let i = f.index_of(name)->0;
    assert(f.tensors@[i].name@ == name);
    reveal_strlit("<missing>");
    reveal_strlit("qwen4exp");
    assert("<missing>"@.len() != "qwen4exp"@.len());
}

/// The rotated width is covered twice over by the first three rope sections,
/// and the fourth is empty.
pub proof fn the_rope_sections_cover_the_rotated_width(f: GgufFile, cfg: Qwen4expConfig)
    requires
        cfg.reads_header(f),
    ensures
        exists|s: Seq<u64>|
            #[trigger] carries_numbers(f, "qwen4exp.rope.dimension_sections"@, s) && s.len() == 4
                && s[3] == 0 && 2 * (s[0] + s[1] + s[2]) == cfg.rope_dim,
{
    if let Some(GgufValue::Array(v)) = f.value("qwen4exp.rope.dimension_sections"@) {
        let s = sections_of(v@);
        assert forall|i: int| 0 <= i < s.len() implies is_number(#[trigger] v@[i], s[i] as int) by {
            assert(v@[i].signed() is Some && 0 <= v@[i].signed()->0 <= usize::MAX);
        }
        assert(carries_numbers(f, "qwen4exp.rope.dimension_sections"@, s));
    }
}

/// The layer numbers of a list are those of its non-negative signed integers.
proof fn lemma_layer_numbers(vals: Seq<GgufValue>, x: usize)
    ensures
        layer_numbers(vals).contains(x) <==> exists|i: int|
            0 <= i < vals.len() && #[trigger] vals[i].signed() == Some(x as i64) && x
                <= i64::MAX,
    decreases vals.len(),
{
    if vals.len() > 0 {
        let init = vals.drop_last();
        let rest = layer_numbers(init);
        let all = layer_numbers(vals);
        let last = vals.last().signed();
        lemma_layer_numbers(init, x);
        let pushed = last is Some && 0 <= last->0 <= usize::MAX;
        if all.contains(x) {
            let j = choose|j: int| 0 <= j < all.len() && all[j] == x;
            if pushed && j == all.len() - 1 {
                assert(vals[vals.len() - 1].signed() == Some(x as i64) && x <= i64::MAX);
            } else {
                assert(rest[j] == x);
                let i = choose|i: int|
                    0 <= i < init.len() && #[trigger] init[i].signed() == Some(x as i64) && x
                        <= i64::MAX;
                assert(vals[i].signed() == Some(x as i64));
            }
        }
        if exists|i: int|
            0 <= i < vals.len() && #[trigger] vals[i].signed() == Some(x as i64) && x
                <= i64::MAX {
            let i = choose|i: int|
                0 <= i < vals.len() && #[trigger] vals[i].signed() == Some(x as i64) && x
                    <= i64::MAX;
            if i < init.len() {
                assert(init[i].signed() == Some(x as i64));
                let j = choose|j: int| 0 <= j < rest.len() && rest[j] == x;
                assert(all[j] == x);
            } else {
                assert(all[all.len() - 1] == x);
            }
        }
    }
}

/// The layers with embeddings are those that the header lists: at most one,
/// and one that the model has.
pub proof fn the_embedding_layers_are_the_listed_ones(
    f: GgufFile,
    cfg: Qwen4expConfig,
    layer: usize,
)
    requires
        cfg.reads_header(f),
    ensures
        cfg.ple_layers@.len() <= 1,
        cfg.ple_layers@.contains(layer) ==> layer < cfg.num_layers,
        cfg.ple_layers@.contains(layer) <==> (f.value("qwen4exp.ple.layers"@) matches Some(
            GgufValue::Array(v),
        ) && exists|i: int|
            0 <= i < v@.len() && #[trigger] v@[i].signed() == Some(layer as i64) && layer
                <= i64::MAX),
{
    assert(cfg.ple_layers@ == listed_ple_layers(f));
    if let Some(GgufValue::Array(v)) = f.value("qwen4exp.ple.layers"@) {
        lemma_layer_numbers(v@, layer);
    }
}

/// A hash read from the same header hashes with the configuration's numbers:
/// the same window, the same reset token, the same lists, and as many heads
/// as the embedding is wide in rows.
pub proof fn the_hash_is_the_configurations(f: GgufFile, cfg: Qwen4expConfig, hash: PleHash)
    requires
        header_fits(f),
        cfg.reads_header(f),
        hash.wf(),
        header_params(f) == Ok::<_, Seq<char>>(
            (
                hash.ngram_size,
                hash.heads_per_ngram,
                hash.multipliers@,
                hash.head_vocab_sizes@,
                hash.head_offsets@,
                hash.eos,
            ),
        ),
    ensures
        hash.eos == cfg.ple_eos_token_id,
        hash.ngram_size == cfg.ple_ngram_size,
        hash.heads_per_ngram == cfg.ple_heads_per_ngram,
        hash.multipliers@ == cfg.ple_layer_multipliers@,
        hash.head_vocab_sizes@ == cfg.ple_head_vocab_sizes@,
        hash.head_offsets@ == cfg.ple_head_offsets@,
        carries_number(f, "qwen4exp.ple.eos_token_id"@, hash.eos as int),
        carries_numbers(f, "qwen4exp.ple.layer_multipliers"@, hash.multipliers@),
        carries_numbers(f, "qwen4exp.ple.head_vocab_sizes"@, hash.head_vocab_sizes@),
        carries_numbers(f, "qwen4exp.ple.head_offsets"@, hash.head_offsets@),
        cfg.embed_width() == hash.head_vocab_sizes@.len() * cfg.ple_row_width,
{
    every_size_is_its_keys(f, cfg);
    every_token_id_is_its_keys(f, cfg);
    every_list_is_its_keys(f, cfg);
    hash.wf_bounds();
    let complaint = " holds a non-integer entry"@;
    lemma_carries_numbers(f, "qwen4exp.ple.layer_multipliers"@, complaint);
    lemma_carries_numbers(f, "qwen4exp.ple.head_vocab_sizes"@, complaint);
    lemma_carries_numbers(f, "qwen4exp.ple.head_offsets"@, complaint);
}

/// A configuration is accepted exactly when its rules hold: at least two
/// streams of some rank, a routing of some but not more experts than there
/// are, embeddings only on DeltaNet layers and then of some width, and compress
/// ratios only on attention layers.
pub proof fn an_accepted_configuration_is_sound(cfg: Qwen4expConfig)
    requires
        cfg.full_attention_interval > 0,
    ensures
        cfg.refusal() is None <==> {
            let interval = cfg.full_attention_interval as int;
            &&& cfg.hyper_connection_count >= 2
            &&& cfg.hyper_connection_low_rank > 0
            &&& 0 < cfg.expert_used_count <= cfg.expert_count
            &&& forall|i: int|
                0 <= i < cfg.ple_layers@.len() ==> ((#[trigger] cfg.ple_layers@[i]) + 1) % interval
                    != 0
            &&& cfg.ple_layers@.len() > 0 ==> cfg.ple_ngram_size > 1 && cfg.ple_heads_per_ngram
                > 0 && cfg.ple_row_width > 0
            &&& forall|l: int|
                0 <= l < cfg.attention_compress_ratios@.len()
                    && #[trigger] cfg.attention_compress_ratios@[l] > 0 ==> (l + 1) % interval == 0
        },
{
    lemma_attention_ple(cfg.ple_layers@, cfg.full_attention_interval as nat, 0);
    lemma_stray_ratio(cfg.attention_compress_ratios@, cfg.full_attention_interval as nat, 0);
    let a = if cfg.ple_ngram_size == 0 {
        0
    } else {
        (cfg.ple_ngram_size - 1) as nat
    };
    let b = cfg.ple_heads_per_ngram as nat;
    let c = cfg.ple_row_width as nat;
    assert((a * b * c == 0) == (a == 0 || b == 0 || c == 0)) by (nonlinear_arith);
}

/// No embedding layer from `from` on attends.
proof fn lemma_attention_ple(layers: Seq<usize>, interval: nat, from: int)
    requires
        0 <= from,
    ensures
        first_attention_ple(layers, interval, from) is None <==> forall|i: int|
            from <= i < layers.len() ==> !attention_at(
                interval,
                (#[trigger] layers[i]) as nat,
            ),
    decreases layers.len() - from,
{
    if from < layers.len() {
        lemma_attention_ple(layers, interval, from + 1);
    }
}

/// Every ratio from `from` on is an attention layer's.
proof fn lemma_stray_ratio(ratios: Seq<usize>, interval: nat, from: int)
    requires
        0 <= from,
    ensures
        first_stray_ratio(ratios, interval, from) is None <==> forall|i: int|
            from <= i < ratios.len() && #[trigger] ratios[i] > 0 ==> attention_at(
                interval,
                i as nat,
            ),
    decreases ratios.len() - from,
{
    if from < ratios.len() {
        lemma_stray_ratio(ratios, interval, from + 1);
    }
}

/// The shared blocks are given the configuration's own shapes, with the
/// sigmoid output gate and the epsilon added under the root.
pub proof fn the_blocks_have_the_models_shapes(cfg: Qwen4expConfig)
    ensures
        ({
            let b = cfg.blocks();
            &&& b.vocab_size == cfg.vocab_size
            &&& b.hidden_size == cfg.hidden_size
            &&& b.num_layers == cfg.num_layers
            &&& b.full_attention_interval == cfg.full_attention_interval
            &&& b.num_attention_heads == cfg.num_attention_heads
            &&& b.num_key_value_heads == cfg.num_key_value_heads
            &&& b.head_dim == cfg.head_dim
            &&& b.rope_dim == cfg.rope_dim
            &&& b.rope_theta == cfg.rope_theta
            &&& b.rms_norm_eps == cfg.rms_norm_eps
            &&& b.conv_kernel == cfg.conv_kernel
            &&& b.d_inner == cfg.d_inner
            &&& b.d_state == cfg.d_state
            &&& b.n_k_heads == cfg.n_k_heads
            &&& b.n_v_heads == cfg.n_v_heads
            &&& b.gdn_gate == GdnGate::Sigmoid
            &&& b.gdn_l2 == GdnL2::AddEps
            &&& b.eos_token_id == EosIds::One(cfg.eos_token_id)
        }),
{
}

/// A configuration that is read from a header is of that header.
pub proof fn a_configuration_is_of_its_header(f: GgufFile, cfg: Qwen4expConfig)
    requires
        header_fits(f),
        cfg.reads_header(f),
    ensures
        is_of_header(f, cfg),
{
    every_size_is_its_keys(f, cfg);
    every_token_id_is_its_keys(f, cfg);
    every_list_is_its_keys(f, cfg);
}

} // verus!
