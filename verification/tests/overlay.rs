//! The overlay planner and the ring.

use mummu::overlay::ring::{Claim, RingState, SlotGuard, Taken};
use mummu::overlay::{
    best_row_blocks, boundaries, fit, min_vram_bytes, order_key, plan, Block, LayerAction,
    LayerRank, OverlayPlan, SlotStage,
};

fn close(a: f64, b: f64) -> bool {
    (a - b).abs() < 1e-9
}

// ---- prices ----------------------------------------------------------------

struct LayerCost {
    bytes: u64,
    gpu_ms: f64,
    host_ms: f64,
}

struct OverlayModel {
    tx_bytes_per_ms: f64,
    slot_latency_ms: f64,
    ring_slots: usize,
    crossing_ms: f64,
}

fn tx_ms(bytes: u64, m: &OverlayModel) -> f64 {
    if m.tx_bytes_per_ms <= 0.0 {
        return f64::INFINITY;
    }
    bytes as f64 / m.tx_bytes_per_ms
}

fn stream_cost(l: &LayerCost, m: &OverlayModel) -> f64 {
    if m.ring_slots == 0 {
        return f64::INFINITY;
    }
    l.gpu_ms.max(tx_ms(l.bytes, m)) + m.slot_latency_ms / m.ring_slots as f64
}

fn ranks(layers: &[LayerCost], m: &OverlayModel) -> Vec<LayerRank> {
    layers
        .iter()
        .map(|l| {
            let s = stream_cost(l, m);
            let penalty = (s.min(l.host_ms) - l.gpu_ms) / l.bytes.max(1) as f64;
            LayerRank {
                bytes: l.bytes,
                gpu: order_key(l.gpu_ms.to_bits()),
                host: order_key(l.host_ms.to_bits()),
                stream: order_key(s.to_bits()),
                penalty: order_key(penalty.to_bits()),
            }
        })
        .collect()
}

/// The predicted time of a placement that fits.
fn price(layers: &[LayerCost], actions: &[LayerAction], m: &OverlayModel) -> f64 {
    let (mut base, mut hide_window, mut sum_tx, mut max_tx) = (0.0, 0.0, 0.0, 0.0f64);
    for (l, a) in layers.iter().zip(actions) {
        match a {
            LayerAction::Resident => {
                base += l.gpu_ms;
                hide_window += l.gpu_ms;
            }
            LayerAction::Host => {
                base += l.host_ms;
                hide_window += l.host_ms;
            }
            LayerAction::Stream => {
                let t = tx_ms(l.bytes, m);
                base += stream_cost(l, m);
                hide_window += l.gpu_ms;
                sum_tx += t;
                max_tx = max_tx.max(t);
            }
        }
    }
    let crossings = m.crossing_ms * boundaries(&actions.to_vec()) as f64;
    let hide = (hide_window - max_tx).max(0.0);
    base + crossings + (sum_tx - hide).max(0.0)
}

/// Run the whole search.
fn planned(layers: &[LayerCost], budget: u64, m: &OverlayModel) -> (OverlayPlan, f64) {
    let mut search = plan(ranks(layers, m), budget, m.ring_slots);
    let mut best = price(layers, &search.actions, m);
    while let Some(candidate) = search.candidate() {
        let p = price(layers, &candidate, m);
        let better = p + 1e-9 < best;
        if better {
            best = p;
        }
        search.settle(better);
    }
    (search.finish(), best)
}

fn model(tx_bytes_per_ms: f64) -> OverlayModel {
    OverlayModel {
        tx_bytes_per_ms,
        slot_latency_ms: 1.0,
        ring_slots: 2,
        crossing_ms: 0.5,
    }
}

fn uniform(n: usize, bytes: u64, gpu_ms: f64, host_ms: f64) -> Vec<LayerCost> {
    (0..n)
        .map(|_| LayerCost {
            bytes,
            gpu_ms,
            host_ms,
        })
        .collect()
}

// ---- planning --------------------------------------------------------------

#[test]
fn empty_model_plans_to_nothing() {
    let (p, ms) = planned(&[], 1_000, &model(1.0));
    assert!(p.actions.is_empty());
    assert!(close(ms, 0.0));
    assert_eq!(p.resident_bytes, 0);
    assert_eq!(p.ring_bytes, 0);
}

#[test]
fn a_model_that_fits_is_entirely_resident() {
    let layers = uniform(3, 10, 1.0, 5.0);
    let (p, ms) = planned(&layers, 1_000, &model(1.0));
    assert!(p.actions.iter().all(|a| *a == LayerAction::Resident));
    assert!(close(ms, 3.0), "{ms}");
    assert_eq!(p.resident_bytes, 30);
    assert_eq!(p.ring_bytes, 0);
}

#[test]
fn a_fast_host_kernel_beats_streaming() {
    let layers = uniform(8, 50, 2.0, 5.0);
    let m = model(50.0 / 12.0);
    let (p, _) = planned(&layers, 100, &m);
    assert!(
        p.actions.iter().all(|a| *a != LayerAction::Stream),
        "nothing may stream: {:?}",
        p.actions
    );
    let residents = p.actions.iter().filter(|a| **a == LayerAction::Resident).count();
    assert_eq!(residents, 2, "budget 100 pins exactly two 50-byte layers");
    assert!(p.resident_bytes <= 100);
    assert_eq!(p.ring_bytes, 0, "no stream, no ring reserve");
}

#[test]
fn streaming_beats_a_slow_host() {
    let layers = uniform(8, 50, 14.0, 36.0);
    let m = model(50.0 / 12.0);
    let (p, _) = planned(&layers, 100, &m);
    assert!(
        p.actions.iter().all(|a| *a == LayerAction::Stream),
        "stream 14.5 ms < host 36 ms and the ring (2*50) exactly fits: {:?}",
        p.actions
    );
    assert_eq!(p.resident_bytes, 0);
    assert_eq!(p.ring_bytes, 100);
}

#[test]
fn an_oversubscribed_model_streams_inside_the_ring_budget() {
    let layers = uniform(8, 100, 1.0, 1_000.0);
    let m = OverlayModel {
        tx_bytes_per_ms: 100.0,
        slot_latency_ms: 0.5,
        ring_slots: 2,
        crossing_ms: 1.0,
    };
    let bytes: Vec<u64> = layers.iter().map(|l| l.bytes).collect();
    let budget = min_vram_bytes(&bytes, m.ring_slots, 0, 0);
    assert_eq!(budget, 200);
    let total: u64 = bytes.iter().sum();
    assert!(total >= 2 * budget, "the point: the model does not fit");
    let (p, ms) = planned(&layers, budget, &m);
    assert!(p.actions.iter().all(|a| *a == LayerAction::Stream), "{:?}", p.actions);
    assert_eq!(p.resident_bytes, 0);
    assert_eq!(p.ring_bytes, budget);
    assert!(ms.is_finite() && ms < 100.0, "streamed, not host-bound: {ms}");
}

#[test]
fn min_vram_is_independent_of_model_depth() {
    let shallow = vec![100u64; 4];
    let deep = vec![100u64; 400];
    assert_eq!(min_vram_bytes(&shallow, 3, 50, 25), min_vram_bytes(&deep, 3, 50, 25));
    assert_eq!(min_vram_bytes(&shallow, 3, 50, 25), 3 * 100 + 50 + 25);
}

#[test]
fn the_ring_is_reserved_once_not_per_layer() {
    let layers: Vec<LayerCost> = (0..6)
        .map(|i| LayerCost {
            bytes: if i % 2 == 0 { 100 } else { 80 },
            gpu_ms: 1.0,
            host_ms: 1_000.0,
        })
        .collect();
    let m = OverlayModel {
        tx_bytes_per_ms: 100.0,
        slot_latency_ms: 0.5,
        ring_slots: 2,
        crossing_ms: 1.0,
    };
    let (p, _) = planned(&layers, 200, &m);
    let streamed = p.actions.iter().filter(|a| **a == LayerAction::Stream).count();
    assert_eq!(streamed, 6, "{:?}", p.actions);
    assert_eq!(p.ring_bytes, 200, "2 slots x the 100-byte max, once");
}

#[test]
fn streaming_falls_back_to_host_when_the_ring_cannot_fit() {
    let layers = uniform(4, 50, 1.0, 5.0);
    let m = model(50.0 / 2.0);
    let (p, ms) = planned(&layers, 30, &m);
    assert!(p.actions.iter().all(|a| *a == LayerAction::Host), "{:?}", p.actions);
    assert_eq!(p.resident_bytes, 0);
    assert_eq!(p.ring_bytes, 0);
    assert!(close(ms, 20.0), "{ms}");
}

#[test]
fn host_runs_pay_two_crossings_each() {
    let layers = uniform(5, 10, 1.0, 2.0);
    let actions = [
        LayerAction::Resident,
        LayerAction::Host,
        LayerAction::Host,
        LayerAction::Resident,
        LayerAction::Host,
    ];
    let m = OverlayModel {
        tx_bytes_per_ms: 1_000.0,
        slot_latency_ms: 0.0,
        ring_slots: 2,
        crossing_ms: 2.0,
    };
    assert!(fit(&ranks(&layers, &m), &actions.to_vec(), 2, 1_000).is_some());
    assert_eq!(boundaries(&actions.to_vec()), 4);
    let ms = price(&layers, &actions, &m);
    assert!(close(ms, 8.0 + 8.0), "{ms}");
    let zero = OverlayModel {
        crossing_ms: 0.0,
        ..m
    };
    let ms = price(&layers, &actions, &zero);
    assert!(close(ms, 8.0), "{ms}");
    assert_eq!(boundaries(&vec![LayerAction::Host; 3]), 0, "nothing ever crosses");
}

#[test]
fn a_placement_fits_when_pins_and_ring_fit_together() {
    let layers = uniform(4, 50, 1.0, 10.0);
    let m = model(1.0);
    let actions = vec![
        LayerAction::Resident,
        LayerAction::Stream,
        LayerAction::Stream,
        LayerAction::Host,
    ];
    assert_eq!(fit(&ranks(&layers, &m), &actions, 2, 150), Some((50, 100)));
    assert_eq!(fit(&ranks(&layers, &m), &actions, 2, 149), None);
    assert_eq!(fit(&ranks(&layers, &m), &actions, usize::MAX, u64::MAX), None, "no overflow");
}

#[test]
fn order_keys_order_as_numbers_do() {
    let v = [
        f64::NEG_INFINITY,
        -2.5,
        -1e-300,
        0.0,
        1e-300,
        1.0,
        1.5,
        1e300,
        f64::INFINITY,
    ];
    for w in v.windows(2) {
        assert!(order_key(w[0].to_bits()) < order_key(w[1].to_bits()), "{w:?}");
    }
    assert_eq!(order_key((-0.0f64).to_bits()), order_key(0.0f64.to_bits()));
    assert_eq!(order_key(0.0f64.to_bits()), Some(1 << 63));
    assert_eq!(order_key(f64::INFINITY.to_bits()), Some(0xFFF0_0000_0000_0000));
}

#[test]
fn a_time_that_is_not_a_number_has_no_rank() {
    for nan in [f64::NAN, -f64::NAN, f64::from_bits(0x7FF0_0000_0000_0001)] {
        assert_eq!(order_key(nan.to_bits()), None);
    }
    assert_eq!(order_key(u64::MAX), None);
}

fn layer(gpu_ms: f64, host_ms: f64) -> LayerCost {
    LayerCost {
        bytes: 10,
        gpu_ms,
        host_ms,
    }
}

#[test]
fn a_layer_whose_host_time_is_not_a_number_stays_on_the_host() {
    for nan in [f64::NAN, -f64::NAN] {
        let (p, ms) = planned(&[layer(1.0, nan)], 1_000, &model(1.0));
        assert_eq!(p.actions, vec![LayerAction::Host]);
        assert!(ms.is_nan(), "{ms}");
        assert_eq!((p.resident_bytes, p.ring_bytes), (0, 0));
    }
}

#[test]
fn a_layer_whose_device_time_is_not_a_number_is_not_pinned() {
    for nan in [f64::NAN, -f64::NAN] {
        let (p, ms) = planned(&[layer(nan, 5.0)], 1_000, &model(1.0));
        assert_eq!(p.actions, vec![LayerAction::Host]);
        assert!(close(ms, 5.0), "{ms}");
    }
}

#[test]
fn a_penalty_that_is_not_a_number_neither_yields_nor_takes_over() {
    // Infinite on every engine: the penalty is a difference of infinities.
    let endless = || layer(f64::INFINITY, f64::INFINITY);
    let m = model(1.0);
    for layers in [[endless(), layer(1.0, 5.0)], [layer(1.0, 5.0), endless()]] {
        let search = plan(ranks(&layers, &m), 10, m.ring_slots);
        assert_eq!(search.actions, vec![LayerAction::Host, LayerAction::Resident]);
    }
}

fn pipelined_layer_ms(tx: f64, compute: f64, blocks: usize, latency: f64) -> f64 {
    let n = blocks.max(1) as f64;
    let (t, c) = (tx / n + latency, compute / n);
    t + (n - 1.0) * t.max(c) + c
}

fn best(tx: f64, compute: f64, latency: f64, max: usize) -> usize {
    let keys: Vec<Option<u64>> = (1..=max)
        .map(|n| order_key(pipelined_layer_ms(tx, compute, n, latency).to_bits()))
        .collect();
    best_row_blocks(&keys)
}

#[test]
fn best_row_blocks_balances_latency_against_overlap() {
    assert_eq!(best(12.0, 12.0, 0.0, 64), 64);
    assert_eq!(best(12.0, 12.0, 100.0, 64), 1);
    let b = best(12.0, 12.0, 0.05, 4096);
    assert!((12..=20).contains(&b), "{b}");
    let at = |n| pipelined_layer_ms(12.0, 12.0, n, 0.05);
    assert!(at(b) <= at(1) && at(b) <= at(4096));
}

#[test]
fn a_block_price_that_is_not_a_number_never_takes_over() {
    assert_eq!(best_row_blocks(&vec![Some(5), None, Some(3), Some(3)]), 3);
    assert_eq!(best_row_blocks(&vec![None, Some(3)]), 1, "nothing is below it");
    assert_eq!(best(f64::NAN, 1.0, 0.0, 8), 1);
}

// ---- the ring --------------------------------------------------------------

/// Upload until every slot is in use.
fn prefetch(ring: &mut RingState<usize>) -> usize {
    let mut uploads = 0;
    loop {
        match ring.claim() {
            Claim::Upload { layer, .. } => {
                ring.land(layer);
                uploads += 1;
            }
            Claim::Wait | Claim::Exit => return uploads,
        }
    }
}

fn acquire(ring: &mut RingState<usize>, layer: usize) -> SlotGuard<usize> {
    let pos = ring.reserve(layer).expect("in order");
    loop {
        match ring.take(pos) {
            Taken::Landed(g) => return g,
            Taken::Wait => {
                assert!(prefetch(ring) > 0, "a waiting consumer is served");
            }
            Taken::Gone => panic!("the prefetcher is gone"),
        }
    }
}

#[test]
fn acquire_returns_the_scheduled_layer_across_token_wraps() {
    let order = vec![0usize, 1, 2, 3, 4];
    let mut ring = RingState::new(2, order.clone());
    let mut uploads = 0;
    for _token in 0..3 {
        for &l in &order {
            uploads += prefetch(&mut ring);
            let g = acquire(&mut ring, l);
            assert_eq!(g.payload, l, "payload must belong to the acquired layer");
            assert_eq!(g.layer(), l);
            assert!(ring.occupied <= 2);
            ring.release();
        }
    }
    assert!(uploads >= 15);
}

#[test]
fn a_full_ring_waits_and_a_stopped_one_exits() {
    let mut ring: RingState<usize> = RingState::new(2, vec![7, 8, 9]);
    assert_eq!(prefetch(&mut ring), 2, "never more than the slots");
    assert_eq!(ring.claim(), Claim::Wait);
    let g = acquire(&mut ring, 7);
    assert_eq!(ring.claim(), Claim::Wait, "a guard still holds its slot");
    drop(g);
    ring.release();
    assert_eq!(ring.claim(), Claim::Upload { pos: 2, layer: 9 });
    ring.land(9);
    assert_eq!(ring.reserve(9), Err((1, 8)), "out of order");
    ring.shut_down();
    assert_eq!(ring.claim(), Claim::Exit);
    ring.retire();
    let pos = ring.reserve(8).expect("in order");
    assert!(matches!(ring.take(pos), Taken::Landed(_)), "what landed is still handed out");
    let pos = ring.reserve(9).expect("in order");
    assert!(matches!(ring.take(pos), Taken::Landed(_)));
    let pos = ring.reserve(7).expect("in order");
    assert!(matches!(ring.take(pos), Taken::Gone), "nothing more will land");
}

/// A stage that hands out the layer's number.
struct Numbers;

impl SlotStage for Numbers {
    type Payload = usize;

    fn upload(&self, layer: usize) -> usize {
        layer * 10
    }
}

/// A stage that lands every layer in four blocks.
struct Quarters;

impl SlotStage for Quarters {
    type Payload = usize;

    fn upload(&self, layer: usize) -> usize {
        layer
    }

    fn upload_blocks<F: FnMut(Block)>(&self, layer: usize, on_block: &mut F) -> usize {
        for index in 0..4 {
            on_block(Block { layer, index, of: 4 });
        }
        layer
    }
}

#[test]
fn an_upload_is_one_block_unless_the_stage_says_otherwise() {
    let mut landed = Vec::new();
    assert_eq!(Numbers.upload_blocks(7, &mut |b: Block| landed.push(b)), 70);
    assert_eq!(landed, vec![Block { layer: 7, index: 0, of: 1 }]);
    landed.clear();
    assert_eq!(Quarters.upload_blocks(3, &mut |b: Block| landed.push(b)), 3);
    assert_eq!(landed.len(), 4);
    assert_eq!(landed[3], Block { layer: 3, index: 3, of: 4 });
}
