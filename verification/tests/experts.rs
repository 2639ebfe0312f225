//! Expert banks, routing and the expert cache.

use mummu::gguf::{GgmlType, GgufFile, GgufShard, GgufTensorInfo};
use mummu::models::qwen4exp::cache::{ExpertCache, Lookup};
use mummu::models::qwen4exp::experts::{
    check_len, check_route, chunk_rows, select, BankKind, ExpertBank, ExpertBytes, LayerExperts,
    RoutedExperts, Routing, WeightSource,
};
use mummu::models::qwen4exp::table::GgufPayloadFiles;
use mummu::routing::{gather_rows, group_by_expert, places, top_k};

const TOY_HIDDEN: usize = 256;
const TOY_FFN: usize = 32;
const TOY_EXPERTS: usize = 8;
const KINDS: [BankKind; 3] = [BankKind::Gate, BankKind::Up, BankKind::Down];

fn bank(dtype: GgmlType, ne: [usize; 3], seed: u8) -> ExpertBank {
    let bytes = ne[0] / dtype.block_size() * dtype.bytes_per_block() * ne[1] * ne[2];
    let data: Vec<u8> = (0..bytes).map(|i| (i % 251) as u8 ^ seed).collect();
    ExpertBank::from_bytes(dtype, ne, data).expect("whole blocks")
}

/// Gate and up in 256-wide rows, down in 32-wide ones, of another storage type
/// on each layer.
fn toy_layers(seed: u8) -> Vec<LayerExperts> {
    (0..2u8)
        .zip([GgmlType::Q51, GgmlType::Q80])
        .map(|(l, down)| LayerExperts {
            gate: bank(GgmlType::Q4K, [TOY_HIDDEN, TOY_FFN, TOY_EXPERTS], seed ^ l),
            up: bank(GgmlType::Q4K, [TOY_HIDDEN, TOY_FFN, TOY_EXPERTS], seed ^ l ^ 3),
            down: bank(down, [TOY_FFN, TOY_HIDDEN, TOY_EXPERTS], seed ^ l ^ 7),
        })
        .collect()
}

#[test]
fn a_row_that_is_not_whole_blocks_is_refused() {
    let err = ExpertBank::from_bytes(GgmlType::Q4K, [640, 4, 2], vec![0; 1024]).unwrap_err();
    assert!(err.contains("not whole"), "{err}");
    let err = ExpertBank::from_bytes(GgmlType::Q80, [64, 4, 2], vec![0; 10]).unwrap_err();
    assert!(err.contains("bytes"), "{err}");
}

#[test]
fn experts_are_the_slices_of_their_bank() {
    let b = bank(GgmlType::Q80, [64, 3, 4], 9);
    assert_eq!((b.in_dim(), b.out_dim(), b.n_experts()), (64, 3, 4));
    assert_eq!(b.row_bytes(), 68);
    assert_eq!(b.expert_bytes_len(), 204);
    assert_eq!(b.location(), None);
    let whole: Vec<u8> = (0..816usize).map(|i| (i % 251) as u8 ^ 9).collect();
    for e in 0..4 {
        match b.expert_bytes(e).expect("in range") {
            ExpertBytes::Bytes(v) => assert_eq!(v, whole[e * 204..(e + 1) * 204]),
            ExpertBytes::Read { .. } => panic!("an in-memory bank has its bytes"),
        }
    }
    assert!(b.expert_bytes(4).is_err());
    assert_eq!(chunk_rows(64), 1024);
    assert_eq!(chunk_rows(65536 * 2), 1);
}

// ---- routing ---------------------------------------------------------------

fn bits(v: &[f32]) -> Vec<u32> {
    v.iter().map(|x| x.to_bits()).collect()
}

/// Softmax of each token's logits.
fn softmax(logits: &[f32], n_experts: usize) -> Vec<u32> {
    let mut out = Vec::new();
    for row in logits.chunks(n_experts) {
        let m = row.iter().copied().fold(f32::NEG_INFINITY, f32::max);
        let e: Vec<f32> = row.iter().map(|v| (v - m).exp()).collect();
        let z: f32 = e.iter().sum();
        out.extend(e.iter().map(|v| (v / z).to_bits()));
    }
    out
}

const WEIGHT_SUM_FLOOR: f32 = 1.0 / 16384.0;

/// Weights divided by their sum, which is at least the floor.
fn renormalize(weights: &mut [u32]) {
    let sum: f64 = weights.iter().map(|w| f64::from(f32::from_bits(*w))).sum();
    let sum = (sum as f32).max(WEIGHT_SUM_FLOOR);
    for w in weights {
        *w = (f32::from_bits(*w) / sum).to_bits();
    }
}

fn route(logits: &[f32], n: usize, n_experts: usize, k: usize) -> Result<Routing, String> {
    check_route(&bits(logits), n, n_experts, k)?;
    let mut r = select(&softmax(logits, n_experts), n, n_experts, k);
    r.weights.chunks_mut(k).for_each(renormalize);
    Ok(r)
}

/// A routing's weights.
fn weights(r: &Routing) -> Vec<f32> {
    r.weights.iter().map(|w| f32::from_bits(*w)).collect()
}

#[test]
fn the_router_picks_the_most_probable_and_renormalizes_without_scale() {
    let logits = [0.0f32, 3.0, 1.0, 2.5, -2.0, 2.0, 0.5, 2.9];
    let r = route(&logits, 1, 8, 3).unwrap();
    assert_eq!(r.ids, vec![1, 7, 3], "descending probability");
    let e = |l: f64| l.exp();
    let z = e(3.0) + e(2.9) + e(2.5);
    let want = [e(3.0) / z, e(2.9) / z, e(2.5) / z];
    for (g, w) in weights(&r).iter().zip(want) {
        assert!((f64::from(*g) - w).abs() < 1e-6, "{g} vs {w}");
    }
    let sum: f32 = weights(&r).iter().sum();
    assert!((sum - 1.0).abs() < 1e-6, "weights sum to 1: {sum}");
}

#[test]
fn router_ties_go_to_the_lowest_expert_id() {
    let r = route(&[0.5; 8], 1, 8, 3).unwrap();
    assert_eq!(r.ids, vec![0, 1, 2]);
    assert!(weights(&r).iter().all(|w| (w - 1.0 / 3.0).abs() < 1e-6));
    let r = route(&[1.0, 0.0, 2.0, 1.0], 1, 4, 2).unwrap();
    assert_eq!(r.ids, vec![2, 0]);
}

#[test]
fn router_is_stable_for_huge_logits_and_many_tokens() {
    let mut logits = vec![-1000.0f32; 3 * 16];
    logits[5] = 1000.0;
    logits[16 + 9] = 999.0;
    logits[16 + 3] = 998.0;
    logits[32 + 15] = 30.0;
    let r = route(&logits, 3, 16, 2).unwrap();
    assert_eq!(r.ids[0], 5);
    assert_eq!(&r.ids[2..4], &[9, 3]);
    assert_eq!(r.ids[4], 15);
    let weights = weights(&r);
    for t in 0..3 {
        let w = &weights[t * 2..t * 2 + 2];
        assert!(w.iter().all(|v| v.is_finite()), "finite: {w:?}");
        assert!((w[0] + w[1] - 1.0).abs() < 1e-6, "sum to 1: {w:?}");
    }
    let e = 1f64.exp();
    assert!((f64::from(weights[2]) - e / (e + 1.0)).abs() < 1e-6);
}

#[test]
fn router_refuses_non_finite_logits_and_bad_k() {
    let err = route(&[0.0, f32::NAN, 1.0, 2.0], 2, 2, 1).unwrap_err();
    assert!(err.contains("token 0 expert 1"), "{err}");
    assert!(route(&[0.0; 4], 1, 4, 0).is_err());
    assert!(route(&[0.0; 4], 1, 4, 5).is_err());
    assert!(route(&[0.0; 5], 1, 4, 2).is_err());
    assert!(route(&[0.0, f32::INFINITY], 1, 2, 1).is_err());
}

#[test]
fn the_largest_keys_win_in_order() {
    assert_eq!(top_k(&vec![5, 9, 9, 1, 7], 3), vec![1, 2, 4]);
    assert_eq!(top_k(&vec![2, 1, 3], 3), vec![2, 0, 1]);
}

#[test]
fn every_routed_place_is_served_once() {
    let ids = vec![3u32, 1, 1, 0, 3, 2];
    assert_eq!(places(&ids, 1), vec![1, 2]);
    let groups = group_by_expert(&ids, 4);
    let mut seen: Vec<usize> = groups.iter().flat_map(|g| g.places.clone()).collect();
    for g in &groups {
        assert!(g.places.iter().all(|p| ids[*p] == g.expert));
    }
    seen.sort_unstable();
    assert_eq!(seen, (0..ids.len()).collect::<Vec<_>>());
    assert_eq!(gather_rows(&vec![1, 2, 3, 4, 5, 6], 2, &vec![2, 0]), vec![5, 6, 1, 2]);
}

// ---- the store -------------------------------------------------------------

#[test]
fn mismatched_bank_shapes_are_refused() {
    let mut layers = toy_layers(51);
    layers[1].down = bank(GgmlType::Q4K, [TOY_HIDDEN, TOY_FFN, TOY_EXPERTS], 52);
    let err = RoutedExperts::from_layers(layers, 0).unwrap_err();
    assert!(err.contains("blk.1.ffn_down_exps.weight"), "{err}");
}

#[test]
fn a_routing_becomes_one_job_per_expert() {
    let store = RoutedExperts::from_layers(toy_layers(1), 0).expect("store");
    assert!(store.cache_stats().is_none());
    assert_eq!((store.n_layers(), store.n_experts()), (2, 8));
    assert_eq!((store.hidden_size(), store.ffn_size()), (256, 32));
    assert_eq!(store.dense_expert_bytes(), 3 * 256 * 32 * 4);
    let xs: Vec<u32> = (0..3 * TOY_HIDDEN as u32).collect();
    let routing = Routing {
        n: 3,
        k: 2,
        ids: vec![4, 1, 1, 6, 4, 6],
        weights: vec![10, 11, 12, 13, 14, 15],
    };
    let jobs = store.apply_routing(0, &routing, &xs).expect("served");
    let by: Vec<u32> = jobs.iter().map(|j| j.expert).collect();
    assert_eq!(by, vec![1, 4, 6]);
    assert_eq!(jobs[0].tokens, vec![0, 1]);
    assert_eq!(jobs[0].weights, vec![11, 12]);
    assert_eq!(jobs[0].input, xs[..2 * TOY_HIDDEN]);
    assert_eq!(jobs[1].tokens, vec![0, 2]);
    assert!(store.apply_routing(2, &routing, &xs).is_err(), "no such layer");
    let short = xs[1..].to_vec();
    assert!(store.apply_routing(0, &routing, &short).is_err());
    assert!(check_len("x", 5, 2, 3).is_err());
    assert_eq!(check_len("x", 6, 2, 3), Ok(()));
}

/// What an expert's weights come from, with the dequantized ones kept.
fn serve(store: &mut RoutedExperts, layer: usize, expert: usize) -> WeightSource {
    let bytes = store.dense_expert_bytes();
    let source = store
        .expert_ffn(layer, expert, TOY_HIDDEN, 1, false)
        .expect("in range");
    if source == WeightSource::Dequantize {
        store
            .cache
            .as_mut()
            .expect("a cache")
            .insert(layer, expert, bytes);
    }
    source
}

#[test]
fn the_cache_is_bit_exact_through_hits_and_evictions() {
    let mut off = RoutedExperts::from_layers(toy_layers(31), 0).unwrap();
    let per_expert = off.dense_expert_bytes();
    let mut big = RoutedExperts::from_layers(toy_layers(31), 64 * per_expert).unwrap();
    // Room for exactly two experts.
    let mut tiny = RoutedExperts::from_layers(toy_layers(31), 2 * per_expert).unwrap();
    assert!(off.cache_stats().is_none());
    for _round in 0..3 {
        for layer in 0..2 {
            for expert in [1usize, 5, 1, 7] {
                assert_eq!(serve(&mut off, layer, expert), WeightSource::Quantized);
                serve(&mut big, layer, expert);
                serve(&mut tiny, layer, expert);
            }
        }
    }
    let b = big.cache_stats().unwrap();
    assert!(b.hits > 0 && b.misses > 0, "{b:?}");
    assert_eq!(b.evictions, 0);
    let t = tiny.cache_stats().unwrap();
    assert!(t.evictions > 0, "{t:?}");
    assert!(t.used_bytes <= t.capacity_bytes && t.entries <= 2, "{t:?}");
    // An expert bigger than the whole cache bypasses it.
    let mut small = RoutedExperts::from_layers(toy_layers(31), per_expert - 1).unwrap();
    assert_eq!(serve(&mut small, 1, 7), WeightSource::Quantized);
    assert_eq!(small.cache_stats().unwrap().entries, 0);
    assert!(small.expert_ffn(1, 8, TOY_HIDDEN, 1, false).is_err());
    assert!(small.expert_ffn(2, 0, TOY_HIDDEN, 1, false).is_err());
    assert!(small.expert_ffn(1, 0, TOY_HIDDEN + 1, 1, false).is_err());
}

#[test]
fn the_least_recently_used_entry_leaves_first() {
    let mut c = ExpertCache::new(20);
    for e in 0..2 {
        assert_eq!(c.lookup(0, e, 10), Lookup::Miss);
        c.insert(0, e, 10);
    }
    assert_eq!(c.lookup(0, 0, 10), Lookup::Hit);
    assert_eq!(c.lookup(0, 2, 10), Lookup::Miss);
    c.insert(0, 2, 10);
    assert_eq!(c.lookup(0, 0, 10), Lookup::Hit, "touched last, still there");
    assert_eq!(c.lookup(0, 1, 10), Lookup::Miss, "the older one left");
    assert_eq!(c.lookup(0, 3, 21), Lookup::TooLarge);
    let s = c.stats();
    assert_eq!((s.entries, s.used_bytes, s.evictions), (2, 20, 1));
}

#[test]
fn open_locates_every_bank_across_shards_with_one_handle_each() {
    let mem = RoutedExperts::from_layers(toy_layers(41), 0).unwrap();
    let mut tensors = vec![GgufTensorInfo {
        name: "blk.0.ffn_gate_inp.weight".to_string(),
        dims: vec![4, 2, 1],
        dtype: GgmlType::F32,
        offset: 0,
    }];
    // A filler first, so that no bank of the first shard starts at 0.
    let mut ends = [32u64, 0];
    for layer in 0..2usize {
        for kind in KINDS {
            let b = mem.layer(layer).bank(kind);
            let ne = b.ne();
            tensors.push(GgufTensorInfo {
                name: kind.tensor_name(layer),
                dims: ne.iter().map(|d| *d as u64).collect(),
                dtype: b.dtype(),
                offset: ends[layer],
            });
            let len = (b.expert_bytes_len() * b.n_experts()) as u64;
            ends[layer] += len.div_ceil(32) * 32;
        }
    }
    let paths = ["toy-00001-of-00002.gguf", "toy-00002-of-00002.gguf"];
    let f = GgufFile {
        path: paths[0].to_string(),
        version: 3,
        metadata: Vec::new(),
        tensors,
        alignment: 32,
        data_offset: 64,
        shards: vec![
            GgufShard {
                path: paths[0].to_string(),
                data_offset: 64,
                tensors: 0..4,
            },
            GgufShard {
                path: paths[1].to_string(),
                data_offset: 96,
                tensors: 4..7,
            },
        ],
    };
    let files = GgufPayloadFiles::open(&f, &vec![64 + ends[0], 96 + ends[1]]);
    let disk = RoutedExperts::open(&f, &files, 2, 0).expect("banks located");
    assert_eq!(disk.open_files(), 2, "one handle per shard");
    assert_eq!((disk.hidden_size(), disk.ffn_size(), disk.n_experts()), (256, 32, 8));
    for layer in 0..2 {
        for kind in KINDS {
            let (d, m) = (disk.layer(layer).bank(kind), mem.layer(layer).bank(kind));
            assert_eq!((d.dtype(), d.ne()), (m.dtype(), m.ne()));
            let (path, offset) = d.location().expect("file-backed");
            assert!(path.ends_with(paths[layer]));
            assert!(offset > 0);
            for e in [0usize, 3, 7] {
                match d.expert_bytes(e).expect("in range") {
                    ExpertBytes::Read { offset: at, len } => {
                        assert_eq!(len, d.expert_bytes_len());
                        assert_eq!(at, offset + (e * len) as u64);
                    }
                    ExpertBytes::Bytes(_) => panic!("a file bank has to be read"),
                }
            }
        }
    }
    let err = RoutedExperts::open(&f, &files, 3, 0).unwrap_err();
    assert!(err.contains("blk.2.ffn_gate_exps.weight"), "names the missing bank: {err}");
}

#[test]
fn the_expert_store_can_be_shared_across_threads() {
    fn assert_send_sync<T: Send + Sync>() {}
    assert_send_sync::<RoutedExperts>();
    assert_send_sync::<ExpertBank>();
}

/// What is added to a token, in job order: the expert and the slot.
fn terms(ids: &[u32], k: usize, t: usize) -> Vec<(u32, usize)> {
    let mut out = Vec::new();
    for g in group_by_expert(&ids.to_vec(), TOY_EXPERTS) {
        for p in g.places {
            if p / k == t {
                out.push((g.expert, p % k));
            }
        }
    }
    out
}

#[test]
fn a_token_is_routed_and_served_alike_alone_and_in_a_batch() {
    let (n, k) = (6, 3);
    let logits: Vec<f32> = (0..n * TOY_EXPERTS)
        .map(|i| ((i * 37 + 11) % 29) as f32 / 5.0 - 3.0)
        .collect();
    let batch = route(&logits, n, TOY_EXPERTS, k).expect("routable");
    for t in 0..n {
        let own = &logits[t * TOY_EXPERTS..(t + 1) * TOY_EXPERTS];
        let alone = route(own, 1, TOY_EXPERTS, k).expect("routable");
        assert_eq!(alone.ids, batch.ids[t * k..(t + 1) * k], "token {t}");
        assert_eq!(alone.weights, batch.weights[t * k..(t + 1) * k], "token {t}");
        let served = terms(&batch.ids, k, t);
        assert_eq!(served.len(), k);
        assert!(served.windows(2).all(|w| w[0].0 < w[1].0), "ascending experts");
        assert_eq!(terms(&alone.ids, k, 0), served, "token {t}");
    }
}
