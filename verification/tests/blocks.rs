//! The hyper-connections, the PLE block and the experts' products, with the
//! arithmetic done here over the places that the library hands out.

use mummu::gguf::GgmlType;
use mummu::models::qwen4exp::experts::{
    BankKind, ExpertBank, ExpertBytes, LayerExperts, WeightSource,
};
use mummu::models::qwen4exp::hc::{hc_combine, Dims3, HyperConnection, Weight};
use mummu::models::qwen4exp::matvec::{
    block_minima, dense_matvec, ffn, row_chunks, token_major, ActivationGrid,
};
use mummu::models::qwen4exp::ple_block::{PleBlock, PleWeights};
use mummu::models::qwen4exp::ple_conv::PleConvState;

fn rand_vec(seed: &mut u64, n: usize, scale: f32) -> Vec<f32> {
    (0..n)
        .map(|_| {
            *seed ^= *seed << 13;
            *seed ^= *seed >> 7;
            *seed ^= *seed << 17;
            let unit = (*seed >> 40) as f32 / 16_777_216.0;
            let doubled = unit * 2.0;
            (doubled - 1.0) * scale
        })
        .collect()
}

fn sigmoid(x: f32) -> f32 {
    1.0 / (1.0 + (-x).exp())
}

fn silu(x: f32) -> f32 {
    x * sigmoid(x)
}

/// `W · x` with `W` row-major `[out, in]`.
fn matvec(w: &[f32], x: &[f32], out: usize) -> Vec<f32> {
    let inp = x.len();
    (0..out)
        .map(|o| (0..inp).map(|i| w[o * inp + i] * x[i]).sum())
        .collect()
}

fn grouped(v: &[f32], gamma: &[f32], e: usize, h: usize) -> Vec<f32> {
    let mut out = vec![0f32; h * e];
    for s in 0..h {
        let g = &v[s * e..(s + 1) * e];
        let inv = 1.0 / (g.iter().map(|x| x * x).sum::<f32>() / e as f32 + 1e-6).sqrt();
        for i in 0..e {
            out[s * e + i] = g[i] * inv * gamma[s * e + i];
        }
    }
    out
}

fn assert_close(got: &[f32], want: &[f32], tol: f32, what: &str) {
    assert_eq!(got.len(), want.len(), "{what}: length");
    for (i, (g, w)) in got.iter().zip(want).enumerate() {
        assert!(
            (g - w).abs() <= tol * (1.0 + w.abs()),
            "{what}[{i}]: got {g}, want {w}"
        );
    }
}

// ---- hyper-connections -----------------------------------------------------

/// The mixing of one row's streams, written out.
#[allow(clippy::too_many_arguments)]
fn ref_mix(
    res: &[f32],
    norm: &[f32],
    down: &[f32],
    up: &[f32],
    inject: Option<&[f32]>,
    e: usize,
    h: usize,
    r: usize,
) -> (Vec<f32>, Option<Vec<f32>>) {
    let xn = grouped(res, norm, e, h);
    let lo: Vec<f32> = matvec(down, &xn, r)
        .into_iter()
        .map(|x| silu(x / h as f32))
        .collect();
    let gate = matvec(up, &lo, h * e);
    let mut mixed = vec![0.0; e];
    for s in 0..h {
        for i in 0..e {
            mixed[i] += xn[s * e + i] * sigmoid(gate[s * e + i]);
        }
    }
    for m in &mut mixed {
        *m /= h as f32;
    }
    (mixed, inject.map(|w| matvec(w, &xn, h)))
}

fn ref_combine(res: &[f32], block: &[f32], inject: &[f32], e: usize, h: usize) -> Vec<f32> {
    let mut out = res.to_vec();
    for s in 0..h {
        let w = 2.0 * sigmoid(inject[s] / h as f32);
        for i in 0..e {
            out[s * e + i] += block[i] * w;
        }
    }
    out
}

/// The residual with a block's output in every stream, over the meetings.
fn combine(res: &[f32], block: &[f32], inject: &[f32], rows: usize, h: usize, e: usize) -> Vec<f32> {
    hc_combine(rows, h, e)
        .iter()
        .zip(res)
        .map(|(m, r)| r + block[m.output] * (2.0 * sigmoid(inject[m.inject] / h as f32)))
        .collect()
}

#[test]
fn mix_and_combine_match_the_scalar_reference() {
    let (b, t, e, h, r) = (2, 3, 6, 3, 4);
    let mut seed = 0x9E37_79B9_7F4A_7C15;
    let norm: Vec<f32> = rand_vec(&mut seed, h * e, 0.5)
        .into_iter()
        .map(|x| 1.0 + x)
        .collect();
    let down = rand_vec(&mut seed, r * h * e, 0.8);
    let up = rand_vec(&mut seed, h * e * r, 0.8);
    let inj = rand_vec(&mut seed, h * h * e, 0.8);
    let res = rand_vec(&mut seed, b * t * h * e, 2.0);
    let block = rand_vec(&mut seed, b * t * e, 1.5);

    let hc = HyperConnection::from_weights(
        norm.len(),
        Weight { inputs: h * e, outputs: r },
        Weight { inputs: r, outputs: h * e },
        Some(Weight { inputs: h * e, outputs: h }),
        e,
        h,
        1e-6f64.to_bits(),
    )
    .expect("the weights fit");
    assert_eq!(hc.low_rank(), r);
    assert_eq!(hc.mix(h * e), Ok((e, Some(h))));
    let d = |width: usize| Dims3 { batch: b, time: t, width };
    assert_eq!(hc.combine(d(h * e), d(e), d(h)), None);

    let rows = b * t;
    let xn: Vec<f32> = (0..rows)
        .flat_map(|row| grouped(&res[row * h * e..(row + 1) * h * e], &norm, e, h))
        .collect();
    let gate: Vec<f32> = (0..rows)
        .flat_map(|row| {
            let lo: Vec<f32> = matvec(&down, &xn[row * h * e..(row + 1) * h * e], r)
                .into_iter()
                .map(|x| silu(x * (1.0 / h as f32)))
                .collect();
            matvec(&up, &lo, h * e)
        })
        .collect();
    let mixed: Vec<f32> = (0..rows)
        .flat_map(|row| (0..e).map(move |i| (row, i)))
        .map(|(row, i)| {
            let places = hc.mixed_places(row, i);
            places.iter().map(|&p| xn[p] * sigmoid(gate[p])).sum::<f32>() / h as f32
        })
        .collect();
    let inject: Vec<f32> = (0..rows)
        .flat_map(|row| matvec(&inj, &xn[row * h * e..(row + 1) * h * e], h))
        .collect();
    let combined = combine(&res, &block, &inject, rows, h, e);

    for tok in 0..b * t {
        let r_tok = &res[tok * h * e..(tok + 1) * h * e];
        let (m_ref, i_ref) = ref_mix(r_tok, &norm, &down, &up, Some(&inj), e, h, r);
        let i_ref = i_ref.expect("inject requested");
        assert_close(&mixed[tok * e..(tok + 1) * e], &m_ref, 1e-5, "mixed");
        assert_close(&inject[tok * h..(tok + 1) * h], &i_ref, 1e-5, "inject");
        let c_ref = ref_combine(r_tok, &block[tok * e..(tok + 1) * e], &i_ref, e, h);
        assert_close(
            &combined[tok * h * e..(tok + 1) * h * e],
            &c_ref,
            1e-5,
            "combined",
        );
    }
}

/// `2·sigmoid(0) = 1`: a zero injection is a plain residual add of the block
/// output into every stream.
#[test]
fn zero_inject_adds_the_block_output_to_every_stream() {
    let (b, t, e, h) = (1, 2, 5, 4);
    let mut seed = 99;
    let res = rand_vec(&mut seed, b * t * h * e, 3.0);
    let block = rand_vec(&mut seed, b * t * e, 3.0);
    let out = combine(&res, &block, &vec![0.0; b * t * h], b * t, h, e);
    for tok in 0..t {
        for s in 0..h {
            for i in 0..e {
                let idx = (tok * h + s) * e + i;
                let want = res[idx] + block[tok * e + i];
                assert!(
                    (out[idx] - want).abs() <= 1e-6 * (1.0 + want.abs()),
                    "token {tok} stream {s} elem {i}: {} != {want}",
                    out[idx]
                );
            }
        }
    }
}

// ---- the PLE block ---------------------------------------------------------

/// Toy dimensions: E = 4, H = 3, `E_ple` = 8 (distinct from E so a swapped
/// projection cannot pass), kernel 4, dilation 3 (history 9).
struct Toy {
    e: usize,
    h: usize,
    ep: usize,
    kern: usize,
    dil: usize,
    key: Vec<f32>,
    value: Vec<f32>,
    nk: Vec<f32>,
    nq: Vec<f32>,
    nc: Vec<f32>,
    conv: Vec<f32>,
}

fn toy(seed: u64) -> Toy {
    let (e, h, ep, kern, dil) = (4, 3, 8, 4, 3);
    let mut s = seed;
    let gamma = |s: &mut u64| -> Vec<f32> {
        rand_vec(s, h * e, 0.4)
            .into_iter()
            .map(|x| 1.0 + x)
            .collect()
    };
    Toy {
        e,
        h,
        ep,
        kern,
        dil,
        key: rand_vec(&mut s, h * e * ep, 0.7),
        value: rand_vec(&mut s, e * ep, 0.7),
        nk: gamma(&mut s),
        nq: gamma(&mut s),
        nc: gamma(&mut s),
        conv: rand_vec(&mut s, kern * h * e, 0.6),
    }
}

fn sizes(t: &Toy) -> PleWeights {
    PleWeights {
        key: Weight { inputs: t.ep, outputs: t.h * t.e },
        value: Weight { inputs: t.ep, outputs: t.e },
        norm_key: t.nk.len(),
        norm_query: t.nq.len(),
        norm_conv: t.nc.len(),
        conv: t.conv.len(),
    }
}

fn build(t: &Toy) -> PleBlock {
    PleBlock::from_weights(sizes(t), t.e, t.h, t.kern, t.dil, 1e-6f64.to_bits())
        .expect("the weights fit")
}

/// The block on one sequence of `n` tokens, with the library's gating places
/// and convolution.
fn forward(
    t: &Toy,
    block: &PleBlock,
    res: &[f32],
    emb: &[f32],
    n: usize,
    state: &mut PleConvState,
) -> Vec<f32> {
    let (e, h, ep) = (t.e, t.h, t.ep);
    let hd = h * e;
    let d = |width: usize| Dims3 { batch: 1, time: n, width };
    assert_eq!(block.forward(d(hd), d(ep), state), Ok(d(hd)));
    let mut value = Vec::new();
    let mut gate = Vec::new();
    for tok in 0..n {
        let em = &emb[tok * ep..(tok + 1) * ep];
        let key = grouped(&matvec(&t.key, em, hd), &t.nk, e, h);
        let query = grouped(&res[tok * hd..(tok + 1) * hd], &t.nq, e, h);
        value.extend(matvec(&t.value, em, e));
        for s in 0..h {
            let score: f32 = (0..e).map(|i| key[s * e + i] * query[s * e + i]).sum::<f32>()
                / (e as f32).sqrt();
            let sign = if score == 0.0 { 0.0 } else { score.signum() };
            gate.push(sigmoid(sign * score.abs().max(1e-6).sqrt()));
        }
    }
    let gated: Vec<f32> = hc_combine(n, h, e)
        .iter()
        .map(|m| value[m.output] * gate[m.inject])
        .collect();
    let normed: Vec<u32> = (0..n)
        .flat_map(|tok| grouped(&gated[tok * hd..(tok + 1) * hd], &t.nc, e, h))
        .map(f32::to_bits)
        .collect();
    let products = block.conv_host(&normed, n, state);
    assert_eq!(products.len(), n * hd * t.kern);
    (0..n * hd)
        .map(|p| {
            let mut acc = 0f32;
            for term in &products[p * t.kern..(p + 1) * t.kern] {
                let tap = t.conv[term.tap] * f32::from_bits(term.value);
                acc += tap;
            }
            res[p] + (gated[p] + silu(acc))
        })
        .collect()
}

/// The block over a whole sequence from a zero history, written out.
fn ref_forward(t: &Toy, res: &[f32], emb: &[f32], n: usize) -> Vec<f32> {
    let (e, h, ep) = (t.e, t.h, t.ep);
    let hd = h * e;
    let mut gated_all = vec![0f32; n * hd];
    let mut normed_all = vec![0f32; n * hd];
    for tok in 0..n {
        let em = &emb[tok * ep..(tok + 1) * ep];
        let res_tok = &res[tok * hd..(tok + 1) * hd];
        let keyn = grouped(&matvec(&t.key, em, hd), &t.nk, e, h);
        let value = matvec(&t.value, em, e);
        let qn = grouped(res_tok, &t.nq, e, h);
        for stream in 0..h {
            let score: f32 = (0..e)
                .map(|i| keyn[stream * e + i] * qn[stream * e + i])
                .sum::<f32>()
                / (e as f32).sqrt();
            let sign = if score > 0.0 {
                1.0
            } else if score < 0.0 {
                -1.0
            } else {
                0.0
            };
            let gate = sigmoid(sign * score.abs().max(1e-6).sqrt());
            for i in 0..e {
                gated_all[tok * hd + stream * e + i] = value[i] * gate;
            }
        }
        let nrm = grouped(&gated_all[tok * hd..(tok + 1) * hd], &t.nc, e, h);
        normed_all[tok * hd..(tok + 1) * hd].copy_from_slice(&nrm);
    }
    let mut out = vec![0f32; n * hd];
    for tok in 0..n {
        for ch in 0..hd {
            let mut acc = 0f32;
            for k in 0..t.kern {
                // Tap k reads (kern-1-k)·dil tokens back; before the sequence
                // start that is the zero history.
                let back = (t.kern - 1 - k) * t.dil;
                let tap_in = if tok >= back {
                    normed_all[(tok - back) * hd + ch]
                } else {
                    0.0
                };
                let tap = t.conv[k + t.kern * ch] * tap_in;
                acc += tap;
            }
            out[tok * hd + ch] = res[tok * hd + ch] + gated_all[tok * hd + ch] + silu(acc);
        }
    }
    out
}

#[test]
fn ple_block_matches_the_scalar_reference() {
    let t = toy(0x00C0_FFEE);
    let block = build(&t);
    assert_eq!(block.history_len(), 9);
    let n = 15;
    let hd = t.h * t.e;
    let mut s = 17;
    let res = rand_vec(&mut s, n * hd, 2.0);
    let emb = rand_vec(&mut s, n * t.ep, 1.0);
    let mut state = block.new_state(1);
    let got = forward(&t, &block, &res, &emb, n, &mut state);
    let want = ref_forward(&t, &res, &emb, n);
    for (i, (g, w)) in got.iter().zip(&want).enumerate() {
        assert!((g - w).abs() <= 1e-5 * (1.0 + w.abs()), "[{i}] {g} vs {w}");
    }
}

/// A score of exactly zero gates at sigmoid(0) = 1/2.
#[test]
fn a_zero_score_gates_at_one_half() {
    let mut t = toy(5);
    t.nk = vec![0.0; t.h * t.e];
    t.nc = vec![0.0; t.h * t.e];
    let block = build(&t);
    let hd = t.h * t.e;
    let mut s = 3;
    let emb = rand_vec(&mut s, t.ep, 1.0);
    let res = vec![0.0; hd];
    let got = forward(&t, &block, &res, &emb, 1, &mut block.new_state(1));
    let value: Vec<f32> = (0..t.e)
        .map(|o| (0..t.ep).map(|i| t.value[o * t.ep + i] * emb[i]).sum())
        .collect();
    for st in 0..t.h {
        for i in 0..t.e {
            let (g, w) = (got[st * t.e + i], 0.5 * value[i]);
            assert!(
                (g - w).abs() <= 1e-6 * (1.0 + w.abs()),
                "stream {st} elem {i}: {g} vs {w}"
            );
        }
    }
}

/// Chunked prefill (5 + 7) and three single-token steps equal one 15-token
/// call, the carried history included.
#[test]
fn chunked_conv_equals_one_shot() {
    let t = toy(0x0BAD_C0DE);
    let block = build(&t);
    let n = 15;
    let hd = t.h * t.e;
    let mut s = 99;
    let res = rand_vec(&mut s, n * hd, 2.0);
    let emb = rand_vec(&mut s, n * t.ep, 1.0);
    let run = |state: &mut PleConvState, from: usize, len: usize| {
        forward(
            &t,
            &block,
            &res[from * hd..(from + len) * hd],
            &emb[from * t.ep..(from + len) * t.ep],
            len,
            state,
        )
    };
    let mut one = block.new_state(1);
    let whole = run(&mut one, 0, n);

    let mut st = block.new_state(1);
    let mut pieces = Vec::new();
    let mut at = 0;
    for len in [5, 7, 1, 1, 1] {
        pieces.extend(run(&mut st, at, len));
        at += len;
    }
    assert_eq!(at, n);
    for (i, (a, b)) in pieces.iter().zip(&whole).enumerate() {
        assert!(
            (a - b).abs() <= 1e-5 * (1.0 + b.abs()),
            "[{i}] chunked {a} vs one-shot {b}"
        );
    }
    for (a, b) in st.history().iter().zip(one.history()) {
        let (a, b) = (f32::from_bits(*a), f32::from_bits(*b));
        assert!(
            (a - b).abs() <= 1e-6 * (1.0 + b.abs()),
            "history {a} vs {b}"
        );
    }
}

#[test]
fn a_block_accepts_only_weights_that_fit() {
    let t = toy(1);
    let build = |w: PleWeights, kernel: usize, dilation: usize| {
        PleBlock::from_weights(w, t.e, t.h, kernel, dilation, 0)
    };
    let w = sizes(&t);
    let refused = |w: PleWeights| build(w, 4, 3).expect_err("refused");
    assert_eq!(
        refused(PleWeights { key: Weight { inputs: 8, outputs: 11 }, ..w }),
        "ple key maps E_ple -> H*E"
    );
    assert_eq!(
        refused(PleWeights { value: Weight { inputs: 4, outputs: 8 }, ..w }),
        "ple value maps E_ple -> E"
    );
    assert_eq!(refused(PleWeights { norm_key: 4, ..w }), "ple norm_key is [H*E]");
    assert_eq!(refused(PleWeights { norm_query: 4, ..w }), "ple norm_query is [H*E]");
    assert_eq!(refused(PleWeights { norm_conv: 4, ..w }), "ple norm_conv is [H*E]");
    assert_eq!(refused(PleWeights { conv: 12, ..w }), "ple conv is [kernel*H*E]");
    assert_eq!(build(w, 0, 3).expect_err("kernel"), "degenerate conv");
    assert_eq!(build(w, 4, 0).expect_err("dilation"), "degenerate conv");

    let block = build(w, 4, 3).expect("fits");
    let state = block.new_state(2);
    let d = |batch: usize, time: usize, width: usize| Dims3 { batch, time, width };
    assert_eq!(block.forward(d(2, 5, 12), d(2, 5, 8), &state), Ok(d(2, 5, 12)));
    assert_eq!(
        block.forward(d(2, 5, 11), d(2, 5, 8), &state).expect_err("width"),
        "residual width 11 is not 3 streams of 4"
    );
    assert_eq!(
        block.forward(d(2, 5, 12), d(2, 4, 8), &state).expect_err("time"),
        "PLE embedding batch/time must match the residual"
    );
    assert_eq!(
        block.forward(d(2, 5, 12), d(2, 5, 9), &state).expect_err("features"),
        "projection expects 8 input features, got 9"
    );
    assert_eq!(
        block.forward(d(1, 5, 12), d(1, 5, 8), &state).expect_err("state"),
        "PLE conv state is [batch, channels, cols]"
    );
}

// ---- the experts' products -------------------------------------------------

/// Every row's products, run by run, moved to rows by token.
fn run_chunks(w: &[f32], xs: &[f32], in_dim: usize, out_dim: usize, n: usize, rows: usize) -> Vec<u32> {
    let mut by_row = Vec::new();
    for c in row_chunks(out_dim, rows) {
        for r in c.start..c.end {
            for x in xs.chunks_exact(in_dim) {
                let row = &w[r * in_dim..(r + 1) * in_dim];
                by_row.push(row.iter().zip(x).map(|(a, b)| a * b).sum::<f32>().to_bits());
            }
        }
    }
    token_major(by_row, out_dim, n)
}

#[test]
fn cutting_the_rows_changes_no_product() {
    let (in_dim, out_dim, n) = (16, 37, 3);
    let mut seed = 7;
    let w = rand_vec(&mut seed, in_dim * out_dim, 1.0);
    let xs = rand_vec(&mut seed, n * in_dim, 1.0);
    let base = run_chunks(&w, &xs, in_dim, out_dim, n, 1);
    for rows in [4, 5, 37, 1000] {
        assert_eq!(base, run_chunks(&w, &xs, in_dim, out_dim, n, rows));
    }
    for t in 0..n {
        let want = matvec(&w, &xs[t * in_dim..(t + 1) * in_dim], out_dim);
        let got: Vec<f32> = base[t * out_dim..(t + 1) * out_dim]
            .iter()
            .map(|b| f32::from_bits(*b))
            .collect();
        assert_eq!(got, want);
    }
    assert_eq!(token_major(vec![3, 1, 2], 3, 1), vec![3, 1, 2]);
    assert_eq!(token_major(vec![1, 2, 3, 4, 5, 6], 3, 2), vec![1, 3, 5, 2, 4, 6]);
}

fn f32_bank(ne: [usize; 3]) -> ExpertBank {
    let bytes: Vec<u8> = (0..ne[0] * ne[1] * ne[2])
        .flat_map(|i| (i as f32).to_le_bytes())
        .collect();
    ExpertBank::from_bytes(GgmlType::F32, ne, bytes).expect("a bank")
}

#[test]
fn a_product_reads_one_experts_rows() {
    let bank = f32_bank([4, 3, 2]);
    let plan = bank.matvec(1, 8, 2).expect("fits").expect("has rows");
    match plan.bytes {
        ExpertBytes::Bytes(b) => {
            assert_eq!(b.len(), 48);
            assert_eq!(&b[..4], 12f32.to_le_bytes());
        }
        ExpertBytes::Read { .. } => panic!("a bank in memory is not read"),
    }
    let ends: Vec<(usize, usize)> = plan.chunks.iter().map(|c| (c.start, c.end)).collect();
    assert_eq!(ends, vec![(0, 3)]);
    assert!(bank.matvec(1, 0, 0).expect("no rows").is_none());
    assert!(bank.matvec(9, 0, 0).is_err(), "no such expert, rows or not");
    assert_eq!(
        bank.matvec(2, 4, 1).expect_err("expert"),
        "expert 2 out of range (bank has 2)"
    );
    assert_eq!(
        bank.matvec(0, 5, 1).expect_err("input"),
        "matvec input: 5 values is not 1 rows x 4"
    );

    let down = dense_matvec(BankKind::Down, 4, 3, 6, 2).expect("fits").expect("has rows");
    assert_eq!((down.in_dim, down.out_dim), (3, 4));
    let up = dense_matvec(BankKind::Up, 4, 3, 8, 2).expect("fits").expect("has rows");
    assert_eq!((up.in_dim, up.out_dim), (4, 3));
    assert_eq!(
        dense_matvec(BankKind::Gate, 4, 3, 6, 2).expect_err("input"),
        "expert input: 6 values is not 2 rows x 4"
    );
    assert!(dense_matvec(BankKind::Gate, 4, 3, 0, 0).expect("no rows").is_none());
}

#[test]
fn only_stored_banks_are_emulated() {
    let q51 = |ne: [usize; 3]| {
        ExpertBank::from_bytes(GgmlType::Q51, ne, vec![0; ne[0] / 32 * 24 * ne[1] * ne[2]])
            .expect("whole blocks")
    };
    let layer = LayerExperts {
        gate: f32_bank([64, 32, 1]),
        up: f32_bank([64, 32, 1]),
        down: q51([32, 64, 1]),
    };
    let on = ffn(&layer, WeightSource::Quantized, true);
    assert_eq!(on.gate, Some(ActivationGrid { width: 64, dtype: GgmlType::F32 }));
    assert_eq!(on.down, Some(ActivationGrid { width: 32, dtype: GgmlType::Q51 }));
    assert!(on.min_rounding);
    for off in [
        ffn(&layer, WeightSource::Quantized, false),
        ffn(&layer, WeightSource::Cached, true),
    ] {
        assert_eq!((off.gate, off.up, off.down), (None, None, None));
        assert!(!off.min_rounding);
    }
    let mut bytes = vec![0u8; 50];
    bytes[2] = 0x34;
    bytes[3] = 0x12;
    bytes[27] = 0xff;
    assert_eq!(block_minima(&bytes), vec![0x1234, 0xff00]);
}
