//! The shared blocks: attention, rotary tables, convolutions, rotations,
//! mixtures, packed products and reference arithmetic.

use mummu::gguf::{GgmlType, GgufFile, GgufValue};
use mummu::nn::attention::{
    append_positions, causal_mask, forward_complaint, kv_append, kv_append_as, kv_f16_enabled,
    mask_complaint, qk_norm_placement, repeat_kv, CachedKv, GqaAttentionConfig, KvType,
    NormPlacement, MASKED,
};
use mummu::nn::conv::{ConvState, ShortConvConfig};
use mummu::nn::hadamard::{
    explicit_signs, is_power_of_two, sylvester_matrix, tiled_to_grouped_host, HadamardSpec,
};
use mummu::nn::mlp::SwiGluMlpConfig;
use mummu::nn::moe::{self, DenseRun, ExpertPool, Slot, SparseMoeConfig, StagedExpert, Tier};
use mummu::nn::packed_gemv::{
    dense_bytes, evaluated_bytes, fastest_split, gemv_split_override, host_chunk_blocks, l2_budget,
    launch, packed_gemv_enabled, scatter_top, scheme_supported, split_candidates, timed_splits,
    try_q4s_gemv, try_q4s_head, twin_eligible, weight_bytes, QuantScheme, QuantStore, QuantValue,
    Route, SplitCache, FLEX_GEMM_MAX, NEVER,
};
use mummu::nn::refarith::{
    self, dtype_of, fake_quant_rows, flash_attn_rows, linear_input2, perturbation,
    perturbation_active,
    q8_1_min_term_rounding, register_linear, set_perturbation, Draws, FlashDims, Grid, RefArith,
    Run,
};
use mummu::nn::rope::{
    apply_complaint, rope_tables, rotate_complaint, rotate_half, tables_complaint,
};
use mummu::nn::MAX_CONTEXT_TOKENS;
use mummu::pack::Precision;

fn bits(v: &[f32]) -> Vec<u32> {
    v.iter().map(|x| x.to_bits()).collect()
}

fn floats(v: &[u32]) -> Vec<f32> {
    v.iter().map(|x| f32::from_bits(*x)).collect()
}

// ---- attention -------------------------------------------------------------

const HIDDEN: usize = 16;
const HEADS: usize = 4;
const KV_HEADS: usize = 2;
const HEAD_DIM: usize = 4;

fn attn(num_heads: usize, num_kv_heads: usize, norm: bool, projection: bool) -> GqaAttentionConfig {
    GqaAttentionConfig {
        hidden_size: HIDDEN,
        num_heads,
        num_kv_heads,
        head_dim: HEAD_DIM,
        bias: true,
        qk_norm_eps: if norm { Some(1e-5f64.to_bits()) } else { None },
        qk_norm_projection: projection,
    }
}

#[test]
fn causal_mask_is_strictly_causal() {
    assert_eq!(f32::from_bits(MASKED), -1e4);
    let v = floats(&causal_mask(3, 2));
    assert_eq!(v.len(), 3 * 5);
    for i in 0..3 {
        for j in 0..5 {
            let expect = if j > 2 + i { -1e4 } else { 0.0 };
            assert_eq!(v[i * 5 + j], expect, "row {i} col {j}");
        }
    }
    // A single decode step attends to everything cached: all zeros.
    assert!(floats(&causal_mask(1, 4)).iter().all(|&x| x == 0.0));
    assert_eq!(
        mask_complaint(0, 3).as_deref(),
        Some("causal_mask: need at least one query row, got t=0")
    );
    assert_eq!(
        mask_complaint(2, MAX_CONTEXT_TOKENS - 1).as_deref(),
        Some("causal_mask: position 131071+2 exceeds MAX_CONTEXT_TOKENS (131072)")
    );
    assert_eq!(mask_complaint(1, MAX_CONTEXT_TOKENS - 1), None);
}

#[test]
fn repeat_kv_repeats_each_head_contiguously() {
    let x = bits(&[1.0, 2.0, 3.0, 4.0]); // 2 kv heads, hd=2
    let y = repeat_kv(&x, 2, 2, 2); // -> 4 heads
    assert_eq!(floats(&y), vec![1.0, 2.0, 1.0, 2.0, 3.0, 4.0, 3.0, 4.0]);
}

#[test]
fn kv_append_as_seeds_and_locks_the_dtype() {
    let mut kv: Option<CachedKv> = None;
    assert_eq!(kv_append_as(&mut kv, KvType::Single, 1, true), KvType::Half);
    // Appending with the flag OFF keeps the cache's half precision.
    assert_eq!(kv_append_as(&mut kv, KvType::Single, 1, false), KvType::Half);
    assert_eq!(
        kv,
        Some(CachedKv {
            dtype: KvType::Half,
            positions: 2
        })
    );
    // And a single-precision cache stays so even when the flag turns on later.
    let mut kv32: Option<CachedKv> = None;
    kv_append_as(&mut kv32, KvType::Single, 1, false);
    assert_eq!(kv_append_as(&mut kv32, KvType::Single, 1, true), KvType::Single);
    let mut set: Option<CachedKv> = None;
    assert_eq!(kv_append(&mut set, KvType::Single, 3, Some("1")), KvType::Half);
    assert_eq!(kv_append(&mut set, KvType::Other, 3, None), KvType::Other);
}

#[test]
fn the_half_cache_is_off_unless_it_is_set() {
    assert!(!kv_f16_enabled(None));
    for off in ["0", "off", "OFF", "False"] {
        assert!(!kv_f16_enabled(Some(off)), "{off}");
    }
    for on in ["1", "on", "", "00"] {
        assert!(kv_f16_enabled(Some(on)), "{on}");
    }
}

#[test]
fn new_positions_go_behind_the_cached_ones_of_their_head() {
    let cached = vec![1, 2, 3, 4];
    let new = vec![9, 8];
    assert_eq!(append_positions(&cached, &new, 2, 2, 1), vec![1, 2, 9, 3, 4, 8]);
    assert_eq!(append_positions(&vec![], &new, 2, 0, 1), new);
}

#[test]
fn init_rejects_indivisible_head_grouping() {
    let err = attn(3, 2, false, false).complaint().expect("refused");
    assert!(err.contains("must be a positive multiple"), "{err}");
    assert_eq!(
        forward_complaint(3, 2).as_deref(),
        Some("GQA forward: num_heads (3) must be a positive multiple of num_kv_heads (2)")
    );
    let odd = GqaAttentionConfig {
        head_dim: 5,
        ..attn(4, 2, false, false)
    };
    assert_eq!(
        odd.complaint().as_deref(),
        Some("GQA: head_dim must be even and >= 2 for RoPE, got 5")
    );
}

/// The projection-wide norm spans the whole projection, the per-head norm one
/// head; a checkpoint's own width picks between them.
#[test]
fn projection_norm_differs_from_per_head_norm() {
    let head = attn(HEADS, KV_HEADS, true, false).init();
    let wide = attn(HEADS, KV_HEADS, true, true).init();
    assert_eq!(head.norms, Some((4, 4)));
    assert_eq!(wide.norms, Some((16, 8)));
    assert_eq!(attn(HEADS, KV_HEADS, false, true).init().norms, None);
    assert_eq!((head.q.outputs, head.k.outputs, head.o.inputs), (16, 8, 16));
    assert!(head.q.bias && head.v.bias && !head.o.bias);
    assert_eq!(qk_norm_placement(4, 4, 4), Ok(NormPlacement::PerHead));
    assert_eq!(qk_norm_placement(16, 4, 4), Ok(NormPlacement::Projection));
    assert_eq!(qk_norm_placement(4, 1, 4), Ok(NormPlacement::PerHead));
    assert_eq!(
        qk_norm_placement(7, 4, 4),
        Err("q/k norm width 7 matches neither head_dim (4) nor the projection width (16)".to_string())
    );
}

// ---- rotary tables ---------------------------------------------------------

/// The angles' cosines or sines, half a row per position.
fn half_rows(t: usize, past: usize, head_dim: usize, theta: f32, f: fn(f32) -> f32) -> Vec<u32> {
    let half = head_dim / 2;
    let mut v = Vec::new();
    for i in 0..t {
        for k in 0..half {
            let freq = theta.powf(-(2.0 * k as f32) / head_dim as f32);
            v.push(f((past + i) as f32 * freq).to_bits());
        }
    }
    v
}

fn tables(t: usize, past: usize, head_dim: usize, theta: f32) -> (Vec<f32>, Vec<f32>) {
    let cos = rope_tables(&half_rows(t, past, head_dim, theta, f32::cos), t, past, head_dim);
    let sin = rope_tables(&half_rows(t, past, head_dim, theta, f32::sin), t, past, head_dim);
    (floats(&cos), floats(&sin))
}

#[test]
fn rope_tables_position_zero_is_identity_rotation() {
    let (cos, sin) = tables(1, 0, 8, 1e6);
    assert!(cos.iter().all(|&c| (c - 1.0).abs() < 1e-7));
    assert!(sin.iter().all(|&s| s.abs() < 1e-7));
}

#[test]
fn rope_tables_are_unit_norm_and_offset_consistent() {
    let (c, s) = tables(3, 2, 16, 1e4);
    for (ci, si) in c.iter().zip(&s) {
        assert!((ci * ci + si * si - 1.0).abs() < 1e-5);
    }
    let (cd, sd) = tables(1, 4, 16, 1e4);
    assert_eq!(&c[2 * 16..3 * 16], &cd[..]);
    assert_eq!(&s[2 * 16..3 * 16], &sd[..]);
    // Both halves of a row are the same.
    assert_eq!(c[..8], c[8..16]);
}

#[test]
fn rotate_half_swaps_and_negates() {
    let x = bits(&[1.0, 2.0, 3.0, 4.0]);
    assert_eq!(floats(&rotate_half(&x, 1, 4)), vec![-3.0, -4.0, 1.0, 2.0]);
    let twice = rotate_half(&rotate_half(&x, 1, 4), 1, 4);
    assert_eq!(floats(&twice), vec![-1.0, -2.0, -3.0, -4.0]);
    assert_eq!(
        rotate_complaint(3).as_deref(),
        Some("rotate_half: last dim must be even and >= 2, got 3")
    );
}

#[test]
fn apply_rope_at_position_zero_is_identity() {
    let x = bits(&[0.5, -1.5, 2.0, 3.5]);
    let (cos, sin) = tables(1, 0, 4, 1e6);
    let turned = floats(&rotate_half(&x, 1, 4));
    let xs = floats(&x);
    assert_eq!(apply_complaint(&vec![1, 1, 1, 4], &vec![1, 1, 1, 4]), None);
    for i in 0..4 {
        let y = xs[i] * cos[i] + turned[i] * sin[i];
        assert!((y - xs[i]).abs() < 1e-6);
    }
    assert_eq!(
        apply_complaint(&vec![1, 2, 3, 4], &vec![1, 1, 2, 4]).as_deref(),
        Some("apply_rope: x [1, 2, 3, 4] and tables [1, 1, 2, 4] disagree on [t, head_dim]")
    );
}

#[test]
fn rope_tables_rejects_odd_head_dim() {
    let err = tables_complaint(1, 0, 7).expect("refused");
    assert!(err.contains("head_dim must be even"), "{err}");
    assert!(tables_complaint(0, 0, 8).is_some());
}

#[test]
fn rope_tables_rejects_runaway_positions() {
    let err = tables_complaint(1, MAX_CONTEXT_TOKENS, 8).expect("refused");
    assert!(err.contains("MAX_CONTEXT_TOKENS"), "{err}");
}

// ---- the short convolution and the gated block -----------------------------

#[test]
fn init_rejects_degenerate_kernel() {
    let err = ShortConvConfig {
        hidden_size: 4,
        kernel_len: 1,
    }
    .complaint()
    .expect("refused");
    assert!(err.contains("kernel_len must be >= 2"), "{err}");
    let none = ShortConvConfig {
        hidden_size: 0,
        kernel_len: 3,
    };
    assert_eq!(none.complaint().as_deref(), Some("ShortConv: hidden_size must be >= 1"));
    let s = ShortConvConfig {
        hidden_size: 4,
        kernel_len: 3,
    }
    .init();
    assert_eq!((s.in_proj.outputs, s.padding, s.out_proj.outputs), (12, 2, 4));
}

/// Decoding one input at a time sees the windows of the full prefill.
#[test]
fn rolling_state_decode_matches_full_prefill() {
    let (d, k, t) = (2usize, 3usize, 5usize);
    let xs: Vec<u32> = (1..=(t * d) as u32).collect();
    let mut full = ConvState::new();
    let want = full.forward(&xs, 1, t, d, k);
    let mut step = ConvState::new();
    let mut got = Vec::new();
    for i in 0..t {
        got.extend(step.forward(&xs[i * d..(i + 1) * d].to_vec(), 1, 1, d, k));
    }
    assert_eq!(got, want);
    assert_eq!(
        step.held.expect("seeded").hist,
        full.held.expect("seeded").hist
    );
}

/// The first step of a fresh state reads zeros where nothing came before.
#[test]
fn first_decode_step_seeds_state_like_prefill() {
    let mut s = ConvState::new();
    assert!(s.held.is_none());
    assert_eq!(s.forward(&vec![7, 8], 1, 1, 2, 3), vec![0, 0, 7, 0, 0, 8]);
    assert_eq!(s.held.expect("seeded").hist, vec![0, 7, 0, 8]);
}

#[test]
fn a_gated_block_needs_both_widths() {
    let c = |hidden_size: usize, intermediate_size: usize| SwiGluMlpConfig {
        hidden_size,
        intermediate_size,
    };
    assert_eq!(c(0, 1).complaint().as_deref(), Some("SwiGLU: hidden_size must be >= 1"));
    assert_eq!(
        c(1, 0).complaint().as_deref(),
        Some("SwiGLU: intermediate_size must be >= 1")
    );
    let s = c(4, 9).init();
    assert_eq!((s.gate.inputs, s.gate.outputs, s.down.inputs, s.down.outputs), (4, 9, 9, 4));
    assert_eq!(s.gate, s.up);
}

// ---- rotations of the weights ----------------------------------------------

#[test]
fn sylvester_matrix_is_orthonormal_and_involutory() {
    let n = 16;
    // True is a minus sign; the magnitude is 1 / sqrt(n).
    let h: Vec<f32> = sylvester_matrix(n)
        .iter()
        .map(|minus| if *minus { -0.25 } else { 0.25 })
        .collect();
    for i in 0..n {
        for j in 0..n {
            assert_eq!(h[i * n + j], h[j * n + i]);
            let dot: f32 = (0..n).map(|k| h[i * n + k] * h[j * n + k]).sum();
            let want = if i == j { 1.0 } else { 0.0 };
            assert!((dot - want).abs() < 1e-6, "({i},{j}) {dot}");
        }
    }
    assert_eq!(h[0], 0.25);
    assert_eq!(h[n + 1], -0.25);
    assert_eq!(h[3 * n + 5], -0.25);
    assert_eq!(h[3 * n + 6], -0.25);
    assert_eq!(h[3 * n + 7], 0.25);
    assert!(is_power_of_two(16) && !is_power_of_two(12) && !is_power_of_two(0));
}

#[test]
fn tiled_to_grouped_reorders_value_heads() {
    let (n_k, n_v, hd) = (2usize, 6usize, 2usize);
    let vals: Vec<f32> = (0..n_v * hd).map(|i| i as f32).collect();
    let host = floats(&tiled_to_grouped_host(&bits(&vals), n_k, n_v, hd));
    assert_eq!(&host[..6], &[0.0, 1.0, 4.0, 5.0, 8.0, 9.0]);
    assert_eq!(&host[6..], &[2.0, 3.0, 6.0, 7.0, 10.0, 11.0]);
}

fn header(overrides: &[(&str, &str)], block: u32) -> GgufFile {
    let mut strs: Vec<(&str, &str)> = vec![
        ("prism.hadamard.transform", "normalized-sylvester-walsh-hadamard"),
        ("prism.hadamard.axis", "input-last-dimension"),
        ("prism.hadamard.sign_mode", "explicit"),
    ];
    for (k, v) in overrides {
        match strs.iter_mut().find(|(sk, _)| sk == k) {
            Some(slot) => slot.1 = v,
            None => strs.push((k, v)),
        }
    }
    let text = |s: &str| GgufValue::Str(s.to_string());
    let ints = |v: &[i32]| GgufValue::Array(v.iter().map(|x| GgufValue::I32(*x)).collect());
    let mut metadata = vec![
        ("general.architecture".to_string(), text("qwen35")),
        ("prism.hadamard.version".to_string(), GgufValue::U32(1)),
        ("prism.hadamard.block_size".to_string(), GgufValue::U32(block)),
        (
            "prism.hadamard.weight_names".to_string(),
            GgufValue::Array(vec![text("output.weight"), text("blk.0.ffn_up.weight")]),
        ),
        (
            "prism.hadamard.inverse_weight_names".to_string(),
            GgufValue::Array(vec![text("token_embd.weight")]),
        ),
    ];
    for (k, v) in strs {
        metadata.push((k.to_string(), text(v)));
    }
    metadata.push(("prism.hadamard.sign_widths".to_string(), ints(&[8, 16])));
    metadata.push((
        "prism.hadamard.sign_values".to_string(),
        ints(&[
            1, -1, 1, 1, -1, -1, 1, -1, 1, 1, 1, 1, -1, -1, -1, -1, 1, -1, 1, -1, 1, -1, 1, -1,
        ]),
    ));
    GgufFile {
        path: "x.gguf".to_string(),
        version: 3,
        metadata,
        tensors: Vec::new(),
        alignment: 32,
        data_offset: 0,
        shards: Vec::new(),
    }
}

#[test]
fn explicit_contract_parses_from_a_header() {
    let s = HadamardSpec::from_gguf(&header(&[], 8))
        .expect("contract ok")
        .expect("declared");
    assert_eq!(s.block, 8);
    assert_eq!(s.signs.len(), 2);
    assert_eq!(
        s.signs_for(8).expect("declared"),
        Some(&vec![1, -1, 1, 1, -1, -1, 1, -1])
    );
    assert_eq!(s.signs_for(16).expect("declared").expect("signs").len(), 16);
    assert!(s.folds("output.weight") && s.folds("blk.0.ffn_up.weight"));
    assert!(!s.folds("blk.0.ffn_down.weight"));
    assert!(s.inverts("token_embd.weight"));
    assert!(!s.gdn_v_grouped);
    assert!(s.signs_for(24).is_err(), "an undeclared width is refused");
    assert!(s.forward_host(24).is_err() && s.forward_host(16).is_ok());
    // No contract at all is simply an ordinary checkpoint.
    let mut plain = header(&[], 8);
    plain.metadata.truncate(1);
    assert!(HadamardSpec::from_gguf(&plain).expect("parses").is_none());
}

#[test]
fn a_contract_without_its_version_is_refused() {
    let mut f = header(&[], 8);
    f.metadata.retain(|(k, _)| k != "prism.hadamard.version");
    let err = HadamardSpec::from_gguf(&f).expect_err("never silently unrotated");
    assert_eq!(err, "prism.hadamard.version missing");
}

#[test]
fn unsupported_contracts_are_refused_by_name() {
    for (kvs, block, needle) in [
        (vec![("prism.hadamard.sign_mode", "random")], 8, "sign_mode"),
        (vec![("prism.hadamard.transform", "walsh")], 8, "transform"),
        (vec![("prism.hadamard.axis", "output")], 8, "axis"),
        (vec![], 12, "power of two"),
        (vec![], 16, "multiple of the block"),
    ] {
        let err = HadamardSpec::from_gguf(&header(&kvs, block)).expect_err("refused");
        assert!(err.contains(needle), "{err} should mention {needle}");
    }
    assert!(explicit_signs(&vec![8], &vec![1; 7], 8).is_err(), "too few signs");
    assert!(explicit_signs(&vec![8], &vec![2; 8], 8).is_err(), "no sign");
}

// ---- mixtures --------------------------------------------------------------

#[test]
fn forward_rejects_top_k_above_num_experts() {
    let err = moe::forward_complaint(5, 4, 4, 4).expect("refused");
    assert!(err.contains("top_k"), "{err}");
    assert!(moe::forward_complaint(2, 4, 5, 4).is_some(), "another width");
    assert_eq!(moe::forward_complaint(2, 4, 4, 4), None);
}

#[test]
fn config_rejects_zero_top_k() {
    let c = SparseMoeConfig {
        hidden_size: 4,
        expert_intermediate_size: 3,
        num_experts: 4,
        num_experts_per_tok: 0,
    };
    let err = c.complaint().expect("refused");
    assert!(err.contains("num_experts_per_tok"), "{err}");
    let ok = SparseMoeConfig {
        num_experts_per_tok: 2,
        ..c
    };
    assert_eq!(ok.complaint(), None);
    let s = ok.init();
    assert_eq!((s.router, s.gate, s.down), ([4, 4], [4, 3, 4], [4, 4, 3]));
}

#[test]
fn a_mixture_row_holds_the_routed_weights_and_zeros() {
    let ids = vec![2u32, 0, 1, 3];
    let vals = vec![7, 8, 5, 6];
    assert_eq!(moe::mixture_rows(&ids, &vals, 2, 2, 4), vec![8, 0, 7, 0, 0, 5, 0, 6]);
    let r = moe::route(&ids, &vals, 2, 2, 4);
    assert_eq!(r.per_expert[0].rows, vec![0]);
    assert_eq!(r.per_expert[0].weights, vec![8]);
    assert_eq!(r.per_expert[3].rows, vec![1]);
}

#[test]
fn pooled_experts_match_local_and_hot_swap() {
    let single = Tier {
        device: 0,
        precision: Precision::F32,
    };
    let slot = |tier: Tier, resident_bytes: u64| Slot {
        tier,
        resident_bytes,
    };
    let mut pool = ExpertPool::new(vec![4], vec![slot(single, 10); 4]);
    assert_eq!((pool.num_layers(), pool.experts_per_layer()), (1, 4));
    // One token and then five, two experts each: twelve routed rows.
    for tokens in [1usize, 5] {
        let ids: Vec<u32> = (0..tokens as u32).flat_map(|t| [t % 4, (t + 1) % 4]).collect();
        let vals = vec![1u32; ids.len()];
        let r = moe::route(&ids, &vals, tokens, 2, 4);
        let xs: Vec<u32> = (0..tokens as u32 * 3).collect();
        let work = pool.run_layer(0, &r, &xs, 3);
        for w in &work {
            let want: Vec<u32> = r.per_expert[w.expert]
                .rows
                .iter()
                .flat_map(|row| xs[row * 3..row * 3 + 3].to_vec())
                .collect();
            assert_eq!(w.input, want);
        }
    }
    let hits = pool.take_hits();
    assert_eq!(hits.iter().sum::<u64>(), 12, "{hits:?}");
    assert_eq!(pool.take_hits().iter().sum::<u64>(), 0);

    let narrow = Tier {
        device: 1,
        precision: Precision::Q8,
    };
    let old = pool.swap(0, 1, slot(narrow, 3));
    assert_eq!(old.tier, single);
    assert_eq!(pool.tiers()[1], narrow);
    assert_eq!(pool.get(0, 1).resident_bytes, 3);
    assert_eq!(pool.used_bytes(2), vec![30, 3]);
    assert_eq!((pool.flat(0, 2), pool.row_len(0)), (2, 4));
}

#[test]
fn staging_and_eviction_never_change_the_result() {
    let tier = Tier {
        device: 1,
        precision: Precision::F32,
    };
    let mut e = StagedExpert::new(0, tier, 77);
    assert!(!e.is_staged(), "a fresh expert holds no device copy");
    assert_eq!(e.resident_bytes(), 0, "unstaged costs no device memory");
    assert_eq!(e.compute_device(), 0);
    assert!(e.stage(1));
    assert!(e.is_staged());
    assert_eq!((e.resident_bytes(), e.compute_device()), (77, 1));
    assert!(!e.stage(1), "idempotent: no second transfer");
    e.evict();
    assert!(!e.is_staged(), "eviction drops the device copy");
    assert_eq!((e.resident_bytes(), e.compute_device()), (0, 0));
}

#[test]
fn a_dense_cluster_runs_on_the_rows_it_keeps() {
    let tier = Tier {
        device: 0,
        precision: Precision::F32,
    };
    let slot = Slot { tier, resident_bytes: 1 };
    let mut pool = ExpertPool::new(vec![0, 2], vec![slot, slot]);
    let xs = vec![1, 2, 3, 4, 5, 6];
    assert!(pool.run_dense(0, &xs, 3, 2, None).is_none(), "no clusters");
    assert!(matches!(
        pool.run_dense(1, &xs, 3, 2, None),
        Some(DenseRun::Whole(2))
    ));
    assert_eq!(pool.take_dense_rows(), (6, 6));
    assert_eq!(pool.take_hits(), vec![3, 3]);
    assert_eq!(pool.take_energy(), vec![0, 0]);

    let keep = vec![vec![false, true, true], vec![false, false, false]];
    let shares = match pool.run_dense(1, &xs, 3, 2, Some(&keep)) {
        Some(DenseRun::Shares(shares)) => shares,
        other => panic!("shares, not {other:?}"),
    };
    assert_eq!(shares[0].rows, vec![1, 2]);
    assert_eq!(shares[0].input, vec![3, 4, 5, 6]);
    assert!(shares[1].rows.is_empty() && shares[1].input.is_empty());
    assert_eq!(pool.take_dense_rows(), (0, 0), "counted once the energy is known");
    pool.finish_dense(1, &shares, 3, &vec![500, 0]);
    assert_eq!(pool.take_dense_rows(), (2, 6));
    assert_eq!(pool.take_hits(), vec![502, 0]);
    assert_eq!(pool.take_energy(), vec![500, 0]);
}

// ---- packed products -------------------------------------------------------

const Q4: QuantScheme = QuantScheme {
    value: QuantValue::Q4S,
    block: Some(32),
    single_scales: true,
    store: QuantStore::PackedU32(0),
};

/// A float weight declines whatever its shape; so does an unknown format.
#[test]
fn q4s_gemv_declines_out_of_contract() {
    assert!(try_q4s_gemv(true, None, 2, true).is_none(), "m=2 float must decline");
    assert!(try_q4s_gemv(true, None, 1, true).is_none(), "float weight must decline");
    assert_eq!(try_q4s_gemv(true, Some(Q4), 1, false), Some(Route::Gemv));
    assert_eq!(try_q4s_gemv(false, Some(Q4), 1, true), None);
    assert_eq!(try_q4s_gemv(true, Some(Q4), FLEX_GEMM_MAX, true), Some(Route::Gemm));
    assert_eq!(try_q4s_gemv(true, Some(Q4), FLEX_GEMM_MAX + 1, true), None);
    assert_eq!(try_q4s_gemv(true, Some(Q4), 64, false), Some(Route::Rows));
    assert_eq!(try_q4s_gemv(true, Some(Q4), 65, false), None);
    for other in [
        QuantScheme { value: QuantValue::Other, ..Q4 },
        QuantScheme { block: Some(64), ..Q4 },
        QuantScheme { block: None, ..Q4 },
        QuantScheme { single_scales: false, ..Q4 },
        QuantScheme { store: QuantStore::PackedU32(1), ..Q4 },
        QuantScheme { store: QuantStore::Other, ..Q4 },
    ] {
        assert!(!scheme_supported(&other), "{other:?}");
        assert_eq!(try_q4s_gemv(true, Some(other), 1, true), None);
    }
    assert!(scheme_supported(&QuantScheme {
        value: QuantValue::Q8S,
        store: QuantStore::Native,
        ..Q4
    }));
}

/// The bounded head is opted into, for one row of a 4-bit weight on the host.
#[test]
fn the_bounded_head_is_opt_in() {
    let q8 = QuantScheme { value: QuantValue::Q8S, ..Q4 };
    assert!(!try_q4s_head(false, true, 1, true, Some(Q4)));
    assert!(try_q4s_head(true, true, 1, true, Some(Q4)));
    assert!(!try_q4s_head(true, false, 1, true, Some(Q4)));
    assert!(!try_q4s_head(true, true, 2, true, Some(Q4)));
    assert!(!try_q4s_head(true, true, 1, false, Some(Q4)));
    assert!(!try_q4s_head(true, true, 1, true, Some(q8)));
    assert!(!try_q4s_head(true, true, 1, true, None));
    assert_eq!(scatter_top(5, 9, &vec![3, 0], &vec![7, 6]), vec![6, 9, 9, 7, 9]);
    assert_eq!(evaluated_bytes(1_000, 3, 4), 750);
    assert_eq!(evaluated_bytes(u64::MAX, 4, 4), u64::MAX);
    assert!(twin_eligible(QuantValue::Q4S, 64, true));
    assert!(!twin_eligible(QuantValue::Q4S, 48, true) && !twin_eligible(QuantValue::Q8S, 64, true));
}

#[test]
fn the_packed_path_is_on_unless_it_is_switched_off() {
    assert!(packed_gemv_enabled(None) && packed_gemv_enabled(Some("1")));
    assert!(!packed_gemv_enabled(Some("0")) && !packed_gemv_enabled(Some("Off")));
    assert!(!packed_gemv_enabled(Some("FALSE")));
}

#[test]
fn the_fastest_split_that_divides_is_kept() {
    assert_eq!(gemv_split_override(Some("16")), Some(16));
    assert_eq!(gemv_split_override(Some("33")), None);
    assert_eq!(gemv_split_override(Some("0")), None);
    assert_eq!(gemv_split_override(Some("x")), None);
    assert_eq!(gemv_split_override(None), None);
    assert_eq!(l2_budget(40), 40 * 1024 * 1024 / 4 * 3);
    assert_eq!(split_candidates(100, Some(100)), vec![1, 2, 4, 8]);
    assert_eq!(split_candidates(101, Some(100)), vec![1, 4, 8, 16, 32]);
    assert_eq!(split_candidates(1, None), vec![1, 4, 8, 16, 32]);
    assert_eq!(timed_splits(1, None, 24), vec![1, 4, 8]);
    let key = |ms: f64| ms.to_bits();
    assert_eq!(fastest_split(&vec![1, 4, 8], &vec![key(3.0), key(1.5), key(1.5)]), 4);
    assert_eq!(fastest_split(&vec![4, 8], &vec![NEVER, NEVER]), 1);
    let mut cache = SplitCache::new();
    assert_eq!(cache.gemv_split_for(None, "gpu", 64, 24, 8), None);
    cache.insert("gpu", 64, 24, 8, 4);
    assert_eq!(cache.gemv_split_for(None, "gpu", 64, 24, 8), Some(4));
    assert_eq!(cache.gemv_split_for(None, "cpu", 64, 24, 8), None);
    cache.insert("cpu", 64, 24, 8, 1);
    cache.insert("gpu", 64, 24, 8, 8);
    assert_eq!(cache.gemv_split_for(None, "gpu", 64, 24, 8), Some(8), "measured anew");
    assert_eq!(cache.gemv_split_for(None, "cpu", 64, 24, 8), Some(1));
    assert_eq!(cache.entries.len(), 2);
    assert_eq!(cache.gemv_split_for(Some(2), "gpu", 64, 24, 8), Some(2));
}

#[test]
fn slices_cover_the_inner_dimension() {
    let l = launch(65, 24, 8);
    assert_eq!((l.cubes, l.split, l.steps), (3, 8, 3));
    let odd = launch(64, 25, 8);
    assert_eq!((odd.cubes, odd.split, odd.steps), (2, 1, 25));
    assert_eq!(launch(1, 7, 0).split, 1);
    let mut seen = vec![0; 24];
    for slice in 0..l.split {
        for step in 0..l.steps {
            seen[slice * l.steps + step] += 1;
        }
    }
    assert!(seen.iter().all(|n| *n == 1));
    assert_eq!(host_chunk_blocks(32 * 33, 8), 5);
    assert_eq!(host_chunk_blocks(32, 8), 4);
    assert_eq!(host_chunk_blocks(32 * 9, 0), 9);
    assert_eq!(dense_bytes(4, 32, 4, 3), (128 + 16) * 3);
    assert_eq!(weight_bytes(8, 4, 8), 160);
}

// ---- reference arithmetic --------------------------------------------------

#[test]
fn a_shape_stored_with_two_dtypes_is_not_emulated() {
    let mut r = RefArith::new();
    register_linear(&mut r, 7_777_001, 3, GgmlType::Q80);
    assert_eq!(dtype_of(&r, 7_777_001, 3), Some(GgmlType::Q80));
    register_linear(&mut r, 7_777_001, 3, GgmlType::Q80);
    assert_eq!(dtype_of(&r, 7_777_001, 3), Some(GgmlType::Q80));
    assert_eq!(
        register_linear(&mut r, 7_777_001, 3, GgmlType::Q4K),
        Some(GgmlType::Q80),
        "the clash is told once"
    );
    assert_eq!(dtype_of(&r, 7_777_001, 3), None);
    assert_eq!(register_linear(&mut r, 7_777_001, 3, GgmlType::Q80), None);
    assert_eq!(dtype_of(&r, 7_777_001, 3), None, "and never again emulated");
    assert_eq!(dtype_of(&r, 3, 7_777_001), None);
}

#[test]
fn the_emulation_reads_its_setting_once() {
    let mut r = RefArith::new();
    register_linear(&mut r, 64, 8, GgmlType::Q6K);
    assert_eq!(linear_input2(&mut r, Some("0"), 64, 8), None);
    assert!(!refarith::enabled(&mut r, Some("1")), "already read");
    refarith::set_enabled(&mut r, true);
    assert!(refarith::enabled(&mut r, None));
    assert_eq!(linear_input2(&mut r, None, 64, 8), Some(GgmlType::Q6K));
    assert_eq!(linear_input2(&mut r, None, 64, 9), None);
    assert!(!perturbation_active(&r));
    set_perturbation(&mut r, Some(0), 1e-5f64.to_bits());
    assert!(perturbation_active(&r));
    set_perturbation(&mut r, None, 0);
    assert!(!perturbation_active(&r));
    let mut fresh = RefArith::new();
    assert!(refarith::enabled(&mut fresh, Some("1")));
}

/// Float weights leave activations exact.
#[test]
fn f32_and_f16_weights_leave_activations_exact() {
    for dt in [GgmlType::F32, GgmlType::F16, GgmlType::BF16] {
        assert!(fake_quant_rows(64, 64, dt).is_none(), "{dt:?}");
    }
}

#[test]
fn activations_are_rounded_in_blocks_of_their_row() {
    let run = |start: usize, len: usize| Run { start, len };
    let (grid, runs) = fake_quant_rows(160, 80, GgmlType::Q51).expect("rounded");
    assert_eq!(grid, Grid::Narrow);
    assert_eq!(
        runs,
        vec![run(0, 32), run(32, 32), run(64, 16), run(80, 32), run(112, 32), run(144, 16)]
    );
    let (grid, runs) = fake_quant_rows(512, 512, GgmlType::Q4K).expect("rounded");
    assert_eq!(grid, Grid::Wide);
    assert_eq!(runs, vec![run(0, 256), run(256, 256)]);
    assert_eq!(q8_1_min_term_rounding(64, 64), vec![run(0, 32), run(32, 32)]);
}

#[test]
fn a_new_row_reads_up_to_its_own_position() {
    let d = FlashDims {
        batch: 1,
        nh: 4,
        rows: 3,
        hd: 8,
        nkv: 2,
        tt: 5,
    };
    let rows = flash_attn_rows(d);
    assert_eq!(rows.len(), 12);
    for head in 0..4 {
        for row in 0..3 {
            let r = rows[head * 3 + row];
            assert_eq!(r.query, (head * 3 + row) * 8);
            assert_eq!(r.keys, (head / 2) * 5 * 8);
            assert_eq!(r.positions, 2 + row + 1);
        }
    }
}

/// The same seed draws the same stream, another seed another one.
#[test]
fn the_perturbation_is_deterministic_per_seed_and_relative() {
    let stream = |seed: u64| -> Vec<u64> {
        let mut d = Draws::new(seed);
        (0..100).map(|_| d.uniform()).collect()
    };
    assert_eq!(stream(3), stream(3), "same seed, same draw");
    assert_ne!(stream(3), stream(4), "another seed, another draw");
    assert!(stream(3).iter().all(|u| *u < 1 << 53));
    // Steps of the golden constant, scrambled.
    let mut d = Draws::new(0);
    assert_eq!(d.uniform(), 0xE220_A839_7B1D_CDAF >> 11);
}

#[test]
fn only_no_seed_means_exact_embeddings() {
    let mut s = RefArith::new();
    assert!(perturbation(&s).is_none());
    for seed in [0, 7, u64::MAX] {
        set_perturbation(&mut s, Some(seed), 1);
        assert!(perturbation_active(&s));
        assert_eq!(perturbation(&s), Some(Draws::new(seed.wrapping_add(1))));
    }
    set_perturbation(&mut s, None, 1);
    assert!(!perturbation_active(&s));
}

#[test]
fn the_mixture_gives_each_served_row_its_weight_and_nothing_else() {
    let (tokens, k, experts) = (5usize, 2usize, 4usize);
    let ids: Vec<u32> = (0..tokens as u32).flat_map(|t| [(3 * t) % 4, (3 * t + 1) % 4]).collect();
    let vals: Vec<u32> = (0..ids.len() as u32).map(|i| 100 + i).collect();
    let dense = moe::mixture_rows(&ids, &vals, tokens, k, experts);
    let sparse = moe::route(&ids, &vals, tokens, k, experts);
    let mut scattered = vec![0u32; tokens * experts];
    for (e, s) in sparse.per_expert.iter().enumerate() {
        for (row, w) in s.rows.iter().zip(&s.weights) {
            scattered[row * experts + e] = *w;
        }
    }
    assert_eq!(dense, scattered);
}
