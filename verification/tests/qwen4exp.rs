//! The qwen4exp model: its configuration, its tensor map, its forward plan,
//! the hashed embeddings and the hyper-connections.

use mummu::gguf::{non_negative, F32Bits, GgmlType, GgufFile, GgufShard, GgufTensorInfo, GgufValue};
use mummu::models::qwen35::{GdnGate, GdnL2};
use mummu::models::qwen4exp::assemble::{assemble, ExpertShape, PleShape, Rank, Wanted};
use mummu::models::qwen4exp::config::Qwen4expConfig;
use mummu::models::qwen4exp::forward::{
    check_forward, finish_forward, forward_steps, is_eos, new_cache, probes, Step,
};
use mummu::models::qwen4exp::hc::{
    grouped_rms, hc_combine, linear3, Dims3, HyperConnection, Weight,
};
use mummu::models::qwen4exp::load::{ingest, plan_load, IngestShape, LoadStep};
use mummu::models::qwen4exp::ple::{ple_row_ids, PleHash, PleHashParams};
use mummu::models::qwen4exp::ple_conv::PleConvState;
use mummu::models::qwen4exp::table::{
    row_layout, Gathered, GgufPayloadFiles, PleTable, PLE_TABLE_TENSOR,
};
use mummu::models::qwen4exp::teacher::{
    teach_ple_out, teach_start, teach_values, values, Teacher,
};
use mummu::models::qwen4exp::trunk::{non_trunk, trunk_specs, Kind, NonTrunk, TrunkSpec};
use std::collections::HashSet;

fn f32_bits(x: f32) -> F32Bits {
    F32Bits(x.to_bits())
}

/// The values of the shipped header.
fn shipped() -> Qwen4expConfig {
    Qwen4expConfig {
        vocab_size: 248_320,
        hidden_size: 2560,
        num_layers: 48,
        num_attention_heads: 24,
        num_key_value_heads: 2,
        head_dim: 256,
        rms_norm_eps: f32_bits(1e-6),
        rope_theta: f32_bits(10_000_000.0),
        rope_dim: 64,
        full_attention_interval: 4,
        conv_kernel: 4,
        d_inner: 6144,
        d_state: 128,
        n_k_heads: 16,
        n_v_heads: 48,
        expert_count: 512,
        expert_used_count: 10,
        expert_ffn_size: 640,
        expert_shared_ffn_size: 640,
        hyper_connection_count: 4,
        hyper_connection_low_rank: 320,
        indexer_head_count: 4,
        indexer_key_length: 128,
        indexer_top_k: 2048,
        ple_layers: vec![1],
        ple_ngram_size: 3,
        ple_heads_per_ngram: 8,
        ple_conv_kernel: 4,
        ple_row_width: 160,
        ple_layer_multipliers: vec![23_703_573_157_769, 20_109_073_645_365, 8_052_911_324_071],
        ple_head_offsets: vec![
            0, 20_000_003, 40_000_026, 60_000_059, 80_000_106, 100_000_165, 120_000_228,
            140_000_297, 160_000_374, 180_000_455, 200_000_548, 220_000_655, 240_000_802,
            260_000_955, 280_001_114, 300_001_275,
        ],
        ple_head_vocab_sizes: vec![
            20_000_003, 20_000_023, 20_000_033, 20_000_047, 20_000_059, 20_000_063, 20_000_069,
            20_000_077, 20_000_081, 20_000_093, 20_000_107, 20_000_147, 20_000_153, 20_000_159,
            20_000_161, 20_000_171,
        ],
        ple_eos_token_id: 248_044,
        ple_image_token_id: Some(248_056),
        attention_compress_ratios: (0..48)
            .map(|l| if (l + 1) % 4 == 0 { 4 } else { 0 })
            .collect(),
        eos_token_id: 248_046,
    }
}

/// A tiny configuration with every mechanism present.
fn toy_config() -> Qwen4expConfig {
    Qwen4expConfig {
        vocab_size: 40,
        hidden_size: 16,
        num_layers: 4,
        num_attention_heads: 2,
        num_key_value_heads: 1,
        head_dim: 8,
        rms_norm_eps: f32_bits(1e-6),
        rope_theta: f32_bits(1e4),
        rope_dim: 4,
        full_attention_interval: 3,
        conv_kernel: 4,
        d_inner: 12,
        d_state: 4,
        n_k_heads: 1,
        n_v_heads: 3,
        expert_count: 6,
        expert_used_count: 2,
        expert_ffn_size: 8,
        expert_shared_ffn_size: 8,
        hyper_connection_count: 2,
        hyper_connection_low_rank: 4,
        indexer_head_count: 1,
        indexer_key_length: 4,
        indexer_top_k: 16,
        ple_layers: vec![1],
        ple_ngram_size: 3,
        ple_heads_per_ngram: 2,
        ple_conv_kernel: 4,
        ple_row_width: 4,
        ple_layer_multipliers: vec![1_000_003, 999_983, 998_001],
        ple_head_offsets: vec![0, 7, 18, 31],
        ple_head_vocab_sizes: vec![7, 11, 13, 17],
        ple_eos_token_id: 1,
        ple_image_token_id: None,
        attention_compress_ratios: vec![0, 0, 4, 0],
        eos_token_id: 0,
    }
}

/// A header with nothing but metadata.
fn header(metadata: Vec<(String, GgufValue)>) -> GgufFile {
    GgufFile {
        path: "x.gguf".to_string(),
        version: 3,
        metadata,
        tensors: Vec::new(),
        alignment: 32,
        data_offset: 0,
        shards: Vec::new(),
    }
}

// ---- configuration ---------------------------------------------------------

#[test]
fn twelve_of_forty_eight_layers_are_full_attention() {
    let c = shipped();
    assert_eq!(c.attention_layers(), 12);
    assert!(c.is_attention(3), "layer 3 is the first attention layer");
    assert!(!c.is_attention(0), "layer 0 is DeltaNet");
    assert!(!c.is_attention(2));
}

#[test]
fn deltanet_widths_match_qwen35s_shape() {
    let c = shipped();
    assert_eq!(c.key_dim(), 2048);
    assert_eq!(c.conv_dim(), 2 * 2048 + 6144);
}

#[test]
fn the_ple_table_is_summed_from_the_headers_head_vocabs() {
    let c = shipped();
    assert_eq!(c.ple_total_rows(), 320_001_446);
    assert_eq!(c.ple_head_offsets.len(), c.ple_head_vocab_sizes.len());
    assert_eq!(c.ple_embed_width(), 2560);
}

#[test]
fn the_shipped_config_validates_and_bounds_dense_attention_at_2051() {
    let c = shipped();
    c.validate(Ok(())).expect("shipped config validates");
    assert_eq!(c.dense_attention_limit(), Some(2051));
    let mut dense = c;
    dense.attention_compress_ratios.fill(0);
    assert_eq!(dense.dense_attention_limit(), None, "no ratio, no indexer bound");
}

#[test]
fn the_blocks_adapter_gates_the_deltanet_with_sigmoid() {
    let b = shipped().blocks_config();
    assert_eq!(b.gdn_gate, GdnGate::Sigmoid);
    assert_eq!(b.gdn_l2, GdnL2::AddEps);
    assert_eq!(b.conv_dim(), 10_240);
    assert_eq!((b.hidden_size, b.head_dim, b.rope_dim), (2560, 256, 64));
}

#[test]
fn header_integers_are_read_whatever_their_signedness() {
    assert_eq!(non_negative(&GgufValue::I32(4)), Some(4));
    assert_eq!(non_negative(&GgufValue::U32(248_044)), Some(248_044));
    assert_eq!(non_negative(&GgufValue::I32(-1)), None, "negatives refused");
    assert_eq!(
        non_negative(&GgufValue::F32(f32_bits(4.0))),
        None,
        "floats refused"
    );
}

#[test]
fn a_ple_layer_on_an_attention_layer_is_refused() {
    let mut c = shipped();
    c.ple_layers = vec![3];
    let err = c.validate(Ok(())).expect_err("attention PLE layer refused");
    assert!(err.contains("PLE layer 3"), "names the layer: {err}");
}

#[test]
fn a_non_qwen4exp_architecture_is_refused() {
    let f = header(vec![(
        "general.architecture".to_string(),
        GgufValue::Str("qwen35".to_string()),
    )]);
    let err = Qwen4expConfig::from_gguf(&f, |_| Ok(())).expect_err("wrong arch refused");
    assert!(err.contains("not qwen4exp"), "names the mismatch: {err}");
}

#[test]
fn every_rule_of_a_configuration_is_refused_by_its_own_words() {
    let refused = |change: fn(&mut Qwen4expConfig)| {
        let mut c = shipped();
        change(&mut c);
        c.validate(Ok(())).expect_err("refused")
    };
    assert_eq!(
        refused(|c| c.hyper_connection_count = 1),
        "hyper_connection.count 1 / low_rank 320 is degenerate"
    );
    assert_eq!(
        refused(|c| c.hyper_connection_low_rank = 0),
        "hyper_connection.count 4 / low_rank 0 is degenerate"
    );
    assert_eq!(
        refused(|c| c.expert_used_count = 0),
        "top-0 of 512 experts is not a routing"
    );
    assert_eq!(
        refused(|c| c.expert_used_count = 513),
        "top-513 of 512 experts is not a routing"
    );
    assert_eq!(
        refused(|c| c.ple_row_width = 0),
        "PLE layer present but the PLE embedding is empty"
    );
    assert_eq!(
        refused(|c| c.attention_compress_ratios[0] = 4),
        "layer 0 has compress ratio 4 but is not attention"
    );
}

#[test]
fn a_later_ple_layer_on_an_attention_layer_is_refused_too() {
    let mut c = shipped();
    c.ple_layers = vec![1, 3];
    let err = c.validate(Ok(())).expect_err("layer 3 is attention");
    assert_eq!(err, "PLE layer 3 must be a DeltaNet layer");
}

#[test]
fn the_shared_blocks_have_the_last_word() {
    let mut c = shipped();
    let verdict = || Err("head_dim 0".to_string());
    assert_eq!(c.validate(verdict()), verdict());
    c.expert_used_count = 0;
    assert_eq!(
        c.validate(verdict()).expect_err("refused"),
        "top-0 of 512 experts is not a routing",
        "the own rules come first"
    );
}

#[test]
fn an_embedding_that_is_no_matrix_is_refused() {
    for dims in [vec![4u64], vec![4, 8, 2]] {
        let mut f = header(vec![(
            "general.architecture".to_string(),
            GgufValue::Str("qwen4exp".to_string()),
        )]);
        f.tensors.push(GgufTensorInfo {
            name: "token_embd.weight".to_string(),
            dims,
            dtype: GgmlType::F32,
            offset: 0,
        });
        let err = Qwen4expConfig::from_gguf(&f, |_| Ok(())).expect_err("not 2-D");
        assert_eq!(err, "token_embd is not 2-D");
    }
}

// ---- tensor map ------------------------------------------------------------

#[test]
fn the_shipped_config_maps_all_1224_tensors() {
    let cfg = shipped();
    let specs = trunk_specs(&cfg);
    assert_eq!(specs.len(), 1031, "trunk tensors");
    let names: HashSet<String> = specs.iter().map(|s| s.name.clone()).collect();
    assert_eq!(names.len(), specs.len(), "no duplicate trunk names");
    let mut served = usize::from(non_trunk(PLE_TABLE_TENSOR, &cfg) == Some(NonTrunk::Served));
    let mut skipped = 0;
    for l in 0..cfg.num_layers {
        for k in ["gate", "up", "down"] {
            assert_eq!(
                non_trunk(&format!("blk.{l}.ffn_{k}_exps.weight"), &cfg),
                Some(NonTrunk::Served)
            );
            served += 1;
        }
        for f in ["q_proj", "k_proj", "q_norm", "k_norm"] {
            let got = non_trunk(&format!("blk.{l}.indexer.{f}.weight"), &cfg);
            if cfg.is_attention(l) {
                assert_eq!(got, Some(NonTrunk::SkippedIndexer));
                skipped += 1;
            } else {
                assert_eq!(got, None, "an indexer on a DeltaNet layer is unmapped");
            }
        }
    }
    assert_eq!((served, skipped), (145, 48));
    assert_eq!(specs.len() + served + skipped, 1224);
    assert_eq!(non_trunk("blk.0.nextn.eh_proj.weight", &cfg), None);
    assert_eq!(non_trunk("blk.48.ffn_up_exps.weight", &cfg), None);
}

/// A file that holds exactly what a configuration asks for.
fn inventory(cfg: &Qwen4expConfig) -> GgufFile {
    let mut tensors: Vec<GgufTensorInfo> = trunk_specs(cfg)
        .into_iter()
        .map(|s| GgufTensorInfo {
            name: s.name,
            dims: s.ne,
            dtype: GgmlType::F32,
            offset: 0,
        })
        .collect();
    let mut extra: Vec<String> = vec![PLE_TABLE_TENSOR.to_string()];
    for l in 0..cfg.num_layers {
        for k in ["gate", "up", "down"] {
            extra.push(format!("blk.{l}.ffn_{k}_exps.weight"));
        }
        if cfg.is_attention(l) {
            for f in ["q_proj", "k_proj", "q_norm", "k_norm"] {
                extra.push(format!("blk.{l}.indexer.{f}.weight"));
            }
        }
    }
    for name in extra {
        tensors.push(GgufTensorInfo {
            name,
            dims: vec![1],
            dtype: GgmlType::F32,
            offset: 0,
        });
    }
    let mut f = header(Vec::new());
    f.tensors = tensors;
    f
}

#[test]
fn a_complete_file_plans_one_step_per_tensor() {
    let cfg = toy_config();
    let f = inventory(&cfg);
    let plan = plan_load(&f, &cfg).expect("complete");
    assert_eq!(plan.steps.len(), f.tensors.len());
    assert_eq!(plan.served, 13);
    assert_eq!(plan.skipped, 4);
    let read = plan
        .steps
        .iter()
        .filter(|s| matches!(s, LoadStep::Read { .. }))
        .count();
    assert_eq!(read, trunk_specs(&cfg).len());
    assert_eq!(read + plan.served + plan.skipped, f.tensors.len());
}

#[test]
fn an_unmapped_or_missing_tensor_stops_the_load() {
    let cfg = toy_config();
    let mut f = inventory(&cfg);
    f.tensors.push(GgufTensorInfo {
        name: "blk.0.nextn.eh_proj.weight".to_string(),
        dims: vec![1],
        dtype: GgmlType::F32,
        offset: 0,
    });
    let err = plan_load(&f, &cfg).expect_err("unmapped");
    assert!(err.contains("blk.0.nextn.eh_proj.weight"), "{err}");

    let mut g = inventory(&cfg);
    let gone = g.tensors.remove(0).name;
    let err = plan_load(&g, &cfg).expect_err("missing");
    assert!(err.contains(&gone), "{err}");

    let mut h = inventory(&cfg);
    h.tensors[0].dims = vec![3, 3];
    assert!(plan_load(&h, &cfg).is_err(), "a wrong shape is refused");
}

#[test]
fn a_linear_is_transposed_and_a_vector_is_not() {
    let linear = TrunkSpec {
        name: "a.weight".to_string(),
        ne: vec![4, 3],
        kind: Kind::Linear,
    };
    assert_eq!(
        ingest(&linear, 12),
        Ok(IngestShape::T2 {
            rows: 3,
            cols: 4,
            transpose: true
        })
    );
    let vector = TrunkSpec {
        name: "b.weight".to_string(),
        ne: vec![4],
        kind: Kind::Vector,
    };
    assert_eq!(ingest(&vector, 4), Ok(IngestShape::T1 { len: 4 }));
    assert!(ingest(&vector, 5).is_err(), "a wrong value count is refused");
}

#[test]
fn the_assembly_takes_every_loaded_tensor_once() {
    let cfg = toy_config();
    let rank = |s: &TrunkSpec| match s.kind {
        Kind::Vector | Kind::FlatKernel => Rank::One,
        Kind::DeltaConv => Rank::Three,
        _ => Rank::Two,
    };
    let loaded: Vec<Wanted> = trunk_specs(&cfg)
        .iter()
        .map(|s| Wanted {
            name: s.name.clone(),
            rank: rank(s),
        })
        .collect();
    let experts = ExpertShape {
        n_layers: 4,
        n_experts: 6,
        hidden_size: 16,
        ffn_size: 8,
    };
    let ple = Some(PleShape {
        n_heads: 4,
        row_width: 4,
        eos: 1,
    });
    let order = assemble(&cfg, &loaded, &experts, &ple, Ok(())).expect("assembles");
    let mut taken: Vec<usize> = order.clone();
    taken.sort_unstable();
    assert_eq!(taken, (0..loaded.len()).collect::<Vec<_>>());

    let wrong = ExpertShape {
        n_experts: 5,
        ..experts
    };
    assert!(assemble(&cfg, &loaded, &wrong, &ple, Ok(())).is_err());
    assert!(assemble(&cfg, &loaded, &experts, &None, Ok(())).is_err());
}

// ---- forward ---------------------------------------------------------------

const IDS: [u32; 12] = [5, 17, 1, 33, 8, 22, 1, 1, 39, 12, 3, 27];

fn toy_ple_hash() -> PleHash {
    let c = toy_config();
    PleHash::new(
        c.ple_ngram_size,
        c.ple_heads_per_ngram,
        c.ple_layer_multipliers,
        c.ple_head_vocab_sizes,
        c.ple_head_offsets,
        c.ple_eos_token_id,
    )
    .expect("hash")
}

#[test]
fn the_forward_refuses_past_the_dense_attention_bound() {
    let c = toy_config();
    let cache = new_cache(&c);
    let err = check_forward(&c, &cache, 20, 0).expect_err("past the bound");
    assert!(err.contains("sparse (QSA) attention"), "{err}");
}

#[test]
fn the_forward_accepts_exactly_the_dense_attention_bound() {
    let c = toy_config();
    let cache = new_cache(&c);
    assert_eq!(check_forward(&c, &cache, 19, 0), Ok(()));
}

#[test]
fn a_past_that_disagrees_with_the_cache_is_refused() {
    let c = toy_config();
    let hash = toy_ple_hash();
    let mut cache = new_cache(&c);
    assert_eq!(check_forward(&c, &cache, 2, 0), Ok(()));
    finish_forward(&mut cache, Some(&hash), &[3, 4]);
    let err = check_forward(&c, &cache, 1, 3).expect_err("disagrees");
    assert!(err.contains("but the cache holds"), "{err}");
    assert_eq!(check_forward(&c, &cache, 1, 2), Ok(()));
}

#[test]
fn both_the_tokenizer_eos_and_the_ple_reset_token_stop_generation() {
    let c = toy_config();
    assert!(is_eos(&c, 0) && is_eos(&c, 1) && !is_eos(&c, 2));
}

#[test]
fn chunked_forwards_leave_the_cache_of_one_forward() {
    let c = toy_config();
    let hash = toy_ple_hash();
    let mut whole = new_cache(&c);
    finish_forward(&mut whole, Some(&hash), &IDS);
    for splits in [vec![2, 7], vec![5], vec![3, 6, 9]] {
        let mut parts = new_cache(&c);
        let mut start = 0;
        for end in splits.into_iter().chain([IDS.len()]) {
            finish_forward(&mut parts, Some(&hash), &IDS[start..end]);
            start = end;
        }
        assert_eq!(parts.position, whole.position);
        assert_eq!(parts.ple_history, whole.ple_history);
    }
}

#[test]
fn a_pass_mixes_and_combines_around_every_block() {
    let c = toy_config();
    let steps = forward_steps(&c, true);
    assert_eq!(steps[0], Step::Embed);
    assert_eq!(steps[steps.len() - 2..], [Step::OutputMix, Step::Head]);
    // Six steps a layer, one more where the hashed embeddings enter.
    assert_eq!(steps.len(), 1 + 6 * 4 + 1 + 2);
    assert!(steps.contains(&Step::Ple { layer: 1 }));
    assert!(steps.contains(&Step::Attention { layer: 2 }));
    assert!(steps.contains(&Step::DeltaNet { layer: 3 }));
    let advance = forward_steps(&c, false);
    assert!(!advance.contains(&Step::Head));
}

#[test]
fn probes_name_the_dumped_tensors() {
    let all: Vec<(String, usize)> = forward_steps(&toy_config(), true)
        .into_iter()
        .flat_map(probes)
        .collect();
    assert!(!all.is_empty());
    assert!(all.iter().any(|(n, _)| n == "l_last-0"), "{all:?}");
    let moe: Vec<String> = probes(Step::Moe { layer: 3 }).into_iter().map(|p| p.0).collect();
    assert_eq!(
        moe,
        [
            "ffn_moe_logits-3",
            "shared_expert_gate_sigmoid-3",
            "ffn_moe_out-3",
            "ffn_shexp_gated-3",
            "ffn_out-3",
        ]
    );
    assert_eq!(
        probes(Step::MixFfn { layer: 12 }),
        vec![("hc_mixed-12".to_string(), 1), ("hc_inject-12".to_string(), 1)]
    );
}

// ---- hashed rows -----------------------------------------------------------

fn toy_hash() -> PleHash {
    PleHash::new(
        3,
        2,
        vec![3, 5, 7],
        vec![7, 11, 13, 17],
        vec![0, 7, 18, 31],
        9,
    )
    .expect("toy hash validates")
}

#[test]
fn row_ids_match_a_hand_checked_sequence() {
    let hash = toy_hash();
    let rows = hash.rows_for_span(&[], &[2, 4, 9, 6, 1]);
    let want: [[u64; 4]; 5] = [
        [1, 17, 25, 34],
        [6, 13, 23, 37],
        [1, 11, 19, 32],
        [0, 15, 18, 31],
        [1, 14, 26, 31],
    ];
    for (i, w) in want.iter().enumerate() {
        assert_eq!(&rows[i * 4..(i + 1) * 4], w, "position {i}");
    }
    let params = PleHashParams {
        multipliers: &[3, 5, 7],
        head_vocab_sizes: &[7, 11, 13, 17],
        head_offsets: &[0, 7, 18, 31],
        per_gram: 2,
        eos: 9,
    };
    let mut out = [0u64; 4];
    ple_row_ids(4, &[Some(2), None], &params, &mut out);
    assert_eq!(out, [6, 13, 23, 37]);
    ple_row_ids(4, &[Some(2)], &params, &mut out);
    assert_eq!(out, [6, 13, 23, 37]);
}

#[test]
fn the_hash_multiply_wraps_like_uint64() {
    let mut out = [0u64; 2];
    let params = PleHashParams {
        multipliers: &[u64::MAX, 3, 1],
        head_vocab_sizes: &[1_000_003, 7],
        head_offsets: &[0, 1_000_003],
        per_gram: 1,
        eos: 0,
    };
    ple_row_ids(3, &[None, None], &params, &mut out);
    let mixed = u64::MAX - 2;
    assert_eq!(out, [mixed % 1_000_003, mixed % 7 + 1_000_003]);
}

#[test]
fn inconsistent_hash_parameters_are_refused() {
    assert!(PleHash::new(3, 2, vec![1, 2], vec![7; 4], vec![0, 7, 14, 21], 0).is_err());
    assert!(PleHash::new(3, 2, vec![1, 2, 3], vec![7; 3], vec![0, 7, 14], 0).is_err());
    assert!(PleHash::new(3, 2, vec![1, 2, 3], vec![7, 0, 7, 7], vec![0, 7, 7, 14], 0).is_err());
    assert!(PleHash::new(3, 2, vec![1, 2, 3], vec![7; 4], vec![0, 7, 14, 22], 0).is_err());
    assert!(PleHash::new(3, 2, vec![1, 2, 3], vec![7; 4], vec![0, 7, 14, 21], 0).is_ok());
}

#[test]
fn chunked_spans_reproduce_the_one_shot_rows() {
    let hash = toy_hash();
    let tokens = [2u32, 4, 9, 6, 1, 8, 8, 9, 9, 3];
    let whole = hash.rows_for_span(&[], &tokens);
    for cut in 0..=tokens.len() {
        let mut history: Vec<u32> = Vec::new();
        let mut rows = hash.rows_for_span(&history, &tokens[..cut]);
        hash.advance_history(&mut history, &tokens[..cut]);
        assert!(history.len() <= hash.context_len());
        rows.extend(hash.rows_for_span(&history, &tokens[cut..]));
        assert_eq!(rows, whole, "cut at {cut}");
    }
    assert!(whole.iter().all(|r| *r < hash.total_rows()));
    assert_eq!(hash.total_rows(), 48);
    assert_eq!(hash.n_heads(), 4);
}

// ---- the table -------------------------------------------------------------

fn f32_table_bytes(rows: usize, width: usize) -> Vec<u8> {
    (0..rows * width)
        .flat_map(|i| {
            let row = (i / width) as f32 * 1000.0;
            (row + (i % width) as f32).to_le_bytes()
        })
        .collect()
}

fn as_f32(g: Gathered) -> Vec<f32> {
    match g {
        Gathered::Bytes(b) => b
            .chunks(4)
            .map(|c| f32::from_le_bytes([c[0], c[1], c[2], c[3]]))
            .collect(),
        Gathered::Reads { .. } => panic!("an in-memory table has its bytes"),
    }
}

#[test]
fn gather_returns_rows_in_order_and_enforces_the_bound() {
    let table = PleTable::from_bytes(f32_table_bytes(4, 3), GgmlType::F32, 4).expect("table");
    assert_eq!(table.row_width(), 3);
    let out = as_f32(table.gather(&[3, 0, 2], 9).expect("in range"));
    assert_eq!(
        out,
        [3000.0, 3001.0, 3002.0, 0.0, 1.0, 2.0, 2000.0, 2001.0, 2002.0]
    );

    let err = table.gather(&[4, 0, 0], 9).expect_err("past the stored rows");
    assert!(err.contains("past the 4-row"), "{err}");
    let padded = table.with_row_bound(3).expect("bound within rows");
    let err = padded.gather(&[0, 3, 1], 9).expect_err("a padding row");
    assert!(err.contains("row 3"), "{err}");
    assert!(PleTable::from_bytes(f32_table_bytes(4, 3), GgmlType::F32, 4)
        .expect("table")
        .with_row_bound(5)
        .is_err());
}

/// Deterministic 90-byte rows of 160 elements.
fn iq4nl_table_bytes(rows: usize, seed: u64) -> Vec<u8> {
    let mut s = seed;
    let mut next = || {
        s ^= s << 13;
        s ^= s >> 7;
        s ^= s << 17;
        s
    };
    let mut bytes = Vec::with_capacity(rows * 90);
    for _ in 0..rows * 5 {
        let d = half::f16::from_f32(0.01 + (next() % 1000) as f32 / 3500.0);
        bytes.extend_from_slice(&d.to_le_bytes());
        for _ in 0..16 {
            bytes.push((next() & 0xFF) as u8);
        }
    }
    bytes
}

/// Rows are addressed at `row * 90`: what is decoded is that slice.
#[test]
fn iq4nl_rows_decode_as_their_byte_slices() {
    let bytes = iq4nl_table_bytes(6, 42);
    let table = PleTable::from_bytes(bytes.clone(), GgmlType::Iq4Nl, 6).expect("table");
    assert_eq!(table.row_width(), 160);
    match table.gather(&[4, 1], 2 * 160).expect("gather") {
        Gathered::Bytes(b) => {
            assert_eq!(&b[..90], &bytes[4 * 90..5 * 90]);
            assert_eq!(&b[90..], &bytes[90..180]);
        }
        Gathered::Reads { .. } => panic!("an in-memory table has its bytes"),
    }
    assert_eq!(row_layout(GgmlType::Iq4Nl, 160), Ok((160, 90)));
}

/// The file-backed table finds its tensor in the right shard, at its payload
/// base plus its offset, and its reads give what memory gives.
#[test]
fn the_file_table_reads_from_the_owning_shard() {
    let rows = 7usize;
    let table_bytes = iq4nl_table_bytes(rows, 7);
    let mut b1 = vec![0x55u8; 100 + 64];
    b1.extend_from_slice(&table_bytes);
    let info = |name: &str, dims: Vec<u64>, dtype: GgmlType, offset: u64| GgufTensorInfo {
        name: name.to_string(),
        dims,
        dtype,
        offset,
    };
    let f = GgufFile {
        path: "s0.gguf".to_string(),
        version: 3,
        metadata: Vec::new(),
        tensors: vec![
            info("junk.weight", vec![8], GgmlType::F32, 0),
            info("other.weight", vec![32], GgmlType::Q80, 0),
            info(PLE_TABLE_TENSOR, vec![160, rows as u64], GgmlType::Iq4Nl, 64),
        ],
        alignment: 32,
        data_offset: 64,
        shards: vec![
            GgufShard {
                path: "s0.gguf".to_string(),
                data_offset: 64,
                tensors: 0..1,
            },
            GgufShard {
                path: "s1.gguf".to_string(),
                data_offset: 100,
                tensors: 1..3,
            },
        ],
    };
    let files = GgufPayloadFiles::open(&f, &vec![64 + 32, b1.len() as u64]);
    assert_eq!(files.locate(&f, 2), Ok((1, 164)));
    let file_table = PleTable::open_with(&f, &files, rows as u64 - 1).expect("table opens");
    let ask = [5u64, 0, 3];
    match file_table.gather(&ask, ask.len() * 160).expect("file gather") {
        Gathered::Reads { slot, offsets } => {
            assert_eq!(slot, 1);
            for (r, at) in ask.iter().zip(offsets) {
                let at = at as usize;
                let r = *r as usize;
                assert_eq!(&b1[at..at + 90], &table_bytes[r * 90..(r + 1) * 90]);
            }
        }
        Gathered::Bytes(_) => panic!("a file table has to be read"),
    }
    assert!(file_table.gather(&[6], 160).is_err(), "bound applies to files too");

    // A shard shorter than the tensor claims is refused when it is opened.
    let short = GgufPayloadFiles::open(&f, &vec![64 + 32, b1.len() as u64 - 1]);
    assert!(PleTable::open_with(&f, &short, rows as u64 - 1).is_err());
}

// ---- the rolling convolution -----------------------------------------------

#[test]
fn splitting_the_convolution_in_time_changes_no_window() {
    let (batch, channels, cols, kernel, dilation) = (2usize, 3usize, 6usize, 3usize, 3usize);
    let tokens = 5usize;
    let all: Vec<u32> = (0..(batch * tokens * channels) as u32).map(|i| i + 1).collect();
    let part = |from: usize, to: usize| -> Vec<u32> {
        let mut v = Vec::new();
        for b in 0..batch {
            v.extend_from_slice(&all[(b * tokens + from) * channels..(b * tokens + to) * channels]);
        }
        v
    };
    let mut whole = PleConvState::zeros(batch, channels, cols);
    let want = whole.conv_windows(&all, tokens, kernel, dilation);
    whole.advance(&all, tokens);
    for cut in 0..=tokens {
        let mut s = PleConvState::zeros(batch, channels, cols);
        let first = part(0, cut);
        let w1 = s.conv_windows(&first, cut, kernel, dilation);
        s.advance(&first, cut);
        let second = part(cut, tokens);
        let w2 = s.conv_windows(&second, tokens - cut, kernel, dilation);
        s.advance(&second, tokens - cut);
        assert_eq!(s.history(), whole.history(), "cut at {cut}");
        let row = channels * kernel;
        let mut joined: Vec<u32> = Vec::new();
        for b in 0..batch {
            joined.extend_from_slice(&w1[b * cut * row..(b + 1) * cut * row]);
            let n = tokens - cut;
            joined.extend_from_slice(&w2[b * n * row..(b + 1) * n * row]);
        }
        assert_eq!(joined, want, "cut at {cut}");
    }
    whole.reset();
    assert!(whole.history().iter().all(|v| *v == 0));
}

// ---- hyper-connections -----------------------------------------------------

fn mixer() -> HyperConnection {
    HyperConnection::from_weights(
        12,
        Weight { inputs: 12, outputs: 3 },
        Weight { inputs: 3, outputs: 12 },
        Some(Weight { inputs: 12, outputs: 4 }),
        3,
        4,
        0,
    )
    .expect("the weights fit")
}

#[test]
fn a_mixer_accepts_only_weights_that_fit() {
    let w = |inputs: usize, outputs: usize| Weight { inputs, outputs };
    let hc = mixer();
    assert_eq!(hc.low_rank(), 3);
    assert_eq!(hc.mix(12), Ok((3, Some(4))));
    assert_eq!(
        hc.mix(13).expect_err("width"),
        "residual width 13 is not 4 streams of 3"
    );
    let build = |norm, down, up, inject| HyperConnection::from_weights(norm, down, up, inject, 3, 4, 0);
    assert_eq!(
        build(11, w(12, 3), w(3, 12), None).expect_err("norm"),
        "hc norm is [H*E]"
    );
    assert_eq!(
        build(12, w(11, 3), w(3, 12), None).expect_err("down"),
        "hc down reads the whole residual"
    );
    assert_eq!(
        build(12, w(12, 3), w(4, 12), None).expect_err("up"),
        "hc up maps R back to H*E"
    );
    assert_eq!(
        build(12, w(12, 3), w(3, 12), Some(w(12, 3))).expect_err("inject"),
        "hc inject is H*E -> H"
    );
}

/// Without an injection a mixer only mixes.
#[test]
fn the_output_mixer_returns_no_inject() {
    let hc = HyperConnection::from_weights(
        12,
        Weight { inputs: 12, outputs: 3 },
        Weight { inputs: 3, outputs: 12 },
        None,
        3,
        4,
        0,
    )
    .expect("the weights fit");
    assert_eq!(hc.mix(12), Ok((3, None)));
}

#[test]
fn every_stream_meets_the_output_and_its_own_weight() {
    let (rows, streams, hidden) = (2usize, 4usize, 3usize);
    let m = hc_combine(rows, streams, hidden);
    assert_eq!(m.len(), 24);
    for row in 0..rows {
        for s in 0..streams {
            for e in 0..hidden {
                let at = m[(row * streams + s) * hidden + e];
                assert_eq!(at.output, row * hidden + e);
                assert_eq!(at.inject, row * streams + s);
            }
        }
    }
    assert_eq!(mixer().mixed_places(1, 2), vec![14, 17, 20, 23]);
}

#[test]
fn combining_refuses_what_does_not_match() {
    let hc = mixer();
    let d = |batch: usize, time: usize, width: usize| Dims3 { batch, time, width };
    assert_eq!(hc.combine(d(1, 2, 12), d(1, 2, 3), d(1, 2, 4)), None);
    assert_eq!(
        hc.combine(d(1, 2, 12), d(1, 3, 3), d(1, 2, 4)).as_deref(),
        Some("block output batch/time must match the residual")
    );
    assert_eq!(
        hc.combine(d(1, 2, 11), d(1, 2, 3), d(1, 2, 4)).as_deref(),
        Some("residual width 11 is not 4 streams of 3")
    );
    assert_eq!(
        hc.combine(d(1, 2, 12), d(1, 2, 3), d(1, 2, 5)).as_deref(),
        Some("inject is one weight per stream")
    );
    assert_eq!(grouped_rms(12, 4), Ok(3));
    assert_eq!(
        grouped_rms(13, 4).expect_err("groups"),
        "width 13 is not 4 whole groups"
    );
    assert_eq!(
        linear3(Weight { inputs: 4, outputs: 2 }, 1, 1, 5).expect_err("features"),
        "projection expects 4 input features, got 5"
    );
    assert_eq!(linear3(Weight { inputs: 4, outputs: 2 }, 1, 3, 4), Ok((1, 3, 2)));
}

// ---- the teacher -----------------------------------------------------------

#[test]
fn a_dump_index_is_read_row_by_row() {
    let index = "3\tl_last-0\t0\tf32\t4\t2\t1\t1\n\n12345\tl_last-0\t1\tf32\t4\t1\t1\t1\r\n\
                 7\tids\t0\ti32\t9\t1\t1\t1\n8\tl_last-0\t0\tf32\t4\t3\t1\t1";
    let t = Teacher::new(index, None).expect("the index parses");
    assert!(t.force);
    assert_eq!(t.entries.len(), 3);
    // A later row for the same evaluation is the one that counts.
    assert_eq!(t.file_of("l_last-0", 0), Some(("00008.bin".to_string(), 12)));
    assert_eq!(t.file_of("l_last-0", 1), Some(("12345.bin".to_string(), 4)));
    assert_eq!(t.file_of("ids", 0), None, "only single precision is read");
    assert_eq!(t.file_of("l_last-1", 0), None);
    assert!(!Teacher::new("", Some("0")).expect("empty").force);
}

#[test]
fn a_bad_index_row_is_quoted() {
    let err = |s: &str| match Teacher::new(s, None) {
        Ok(_) => panic!("refused"),
        Err(e) => e,
    };
    assert_eq!(err("1\ta \"b\"\t0"), "teacher index row \"1\\ta \\\"b\\\"\\t0\"");
    assert_eq!(err("1\ta\t0\tf32\t4\tx\t1\t1"), "teacher index number");
    assert_eq!(err("1\ta\t-1\tf32\t4\t1\t1\t1"), "teacher index number");
    assert_eq!(
        err("1\ta\t0\tf32\t18446744073709551615\t2\t1\t1"),
        "attempt to multiply with overflow"
    );
}

#[test]
fn a_reference_covers_all_rows_or_the_last() {
    assert_eq!(teach_start(24, 1, 6, 4), Some(0));
    assert_eq!(teach_start(4, 1, 6, 4), Some(20));
    assert_eq!(teach_start(4, 1, 1, 4), Some(0));
    assert_eq!(teach_start(8, 1, 6, 4), None);
    assert_eq!(teach_values(true, &vec![1, 2, 3, 4], &vec![9, 8], 2), vec![1, 2, 9, 8]);
    assert_eq!(teach_values(false, &vec![1, 2, 3, 4], &vec![9, 8], 2), vec![1, 2, 3, 4]);
    let bytes: Vec<u8> = [1.5f32, -2.0].iter().flat_map(|v| v.to_le_bytes()).collect();
    assert_eq!(
        values("x", 2, &bytes),
        Ok(vec![1.5f32.to_bits(), (-2.0f32).to_bits()])
    );
    assert_eq!(values("x", 3, &bytes), Err("teacher x: byte count".to_string()));
    let (h, g, c) = teach_ple_out(1);
    assert_eq!((h.as_str(), g.as_str(), c.as_str()), ("l_last-0", "ple_gated_value-1", "ple_conv_out-1"));
    assert_eq!(teach_ple_out(0).0, "hc_init");
}

#[test]
fn one_token_past_the_dense_limit_needs_one_block_too_many() {
    let c = shipped();
    let limit = c.dense_attention_limit().expect("the shipped model compresses");
    let ratio = c.attention_compress_ratios.iter().copied().filter(|r| *r > 0).min().unwrap();
    assert_eq!(c.indexer_top_k % ratio, 0);
    let selected = c.indexer_top_k / ratio;
    assert_eq!(limit / ratio, selected);
    assert_eq!((limit + 1) / ratio, selected + 1);
}

#[test]
fn a_prompt_in_chunks_is_accepted_up_to_the_same_bound() {
    let c = toy_config();
    for (whole, accepted) in [(19usize, true), (20, false)] {
        let mut cache = new_cache(&c);
        assert_eq!(check_forward(&c, &cache, whole, 0).is_ok(), accepted);
        assert_eq!(check_forward(&c, &cache, 12, 0), Ok(()));
        finish_forward(&mut cache, None, &[2; 12]);
        assert_eq!(check_forward(&c, &cache, whole - 12, 12).is_ok(), accepted);
    }
}
