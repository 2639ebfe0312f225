//! What a plan's placements are worth: who is evicted and where to, what is
//! held on the device, and what the search for a cheaper plan leaves untried.

use crate::overlay::{
    advanced, below, best_row_blocks, candidate_action, crosses_at, crossings, evicted_action,
    eviction_ends_in_a_fit, fit, fits, fitted, in_search, largest, lemma_evicting_counts,
    lemma_positions_left, lemma_victim, min_vram_bytes, next_trial, pinned, plan, positions_left,
    residents, ring_reserve, settled, trial, unconstrained, unconstrained_action, unstreamed,
    victim, widest, worth_pricing, LayerAction, LayerRank, OverlayPlan, PlanSearch, SearchState,
    MAX_SWEEPS,
};
use vstd::prelude::*;

verus! {

/// With infinite memory a layer takes the action with the least price, the
/// device before the ring and the ring before the host where they are equal.
pub proof fn the_cheapest_action_is_chosen(l: LayerRank)
    requires
        l.gpu is Some,
        l.host is Some,
        l.stream is Some,
    ensures
        match unconstrained_action(l) {
            LayerAction::Resident => l.gpu->0 <= l.stream->0 && l.gpu->0 <= l.host->0,
            LayerAction::Stream => l.stream->0 < l.gpu->0 && l.stream->0 <= l.host->0,
            LayerAction::Host => l.host->0 < l.stream->0 && l.host->0 < l.gpu->0,
        },
        match evicted_action(l) {
            LayerAction::Resident => false,
            LayerAction::Stream => l.stream->0 < l.host->0,
            LayerAction::Host => l.host->0 <= l.stream->0,
        },
{
}

/// Is this the first resident layer?
pub open spec fn leads(actions: Seq<LayerAction>, j: int) -> bool {
    &&& actions[j] == LayerAction::Resident
    &&& forall|k: int| 0 <= k < j ==> #[trigger] actions[k] != LayerAction::Resident
}

/// The layer that goes is a resident one, and no resident layer loses less for
/// each byte; of those that lose as little it is the first. A loss that is not
/// a number is no reason to go before an earlier layer, nor to stay.
pub proof fn the_least_loss_goes_first(layers: Seq<LayerRank>, actions: Seq<LayerAction>)
    requires
        layers.len() == actions.len(),
    ensures
        match victim(layers, actions, actions.len()) {
            None => forall|j: int|
                0 <= j < actions.len() ==> #[trigger] actions[j] != LayerAction::Resident,
            Some(v) => {
                &&& 0 <= v < actions.len()
                &&& actions[v] == LayerAction::Resident
                &&& forall|j: int|
                    0 <= j < actions.len() && #[trigger] actions[j] == LayerAction::Resident
                        ==> !below(layers[j].penalty, layers[v].penalty)
                &&& forall|j: int|
                    0 <= j < v && #[trigger] actions[j] == LayerAction::Resident ==> {
                        &&& layers[v].penalty is Some
                        &&& layers[j].penalty is Some ==> layers[v].penalty->0
                            < layers[j].penalty->0
                    }
                &&& forall|j: int|
                    0 <= j < v && #[trigger] leads(actions, j) ==> layers[j].penalty is Some
            },
        },
{
    lemma_least_loss(layers, actions, actions.len());
}

/// The same of the first `n` layers.
proof fn lemma_least_loss(layers: Seq<LayerRank>, actions: Seq<LayerAction>, n: nat)
    requires
        layers.len() == actions.len(),
        n <= actions.len(),
    ensures
        match victim(layers, actions, n) {
            None => forall|j: int|
                0 <= j < n ==> #[trigger] actions[j] != LayerAction::Resident,
            Some(v) => {
                &&& 0 <= v < n
                &&& actions[v] == LayerAction::Resident
                &&& forall|j: int|
                    0 <= j < n && #[trigger] actions[j] == LayerAction::Resident ==> !below(
                        layers[j].penalty,
                        layers[v].penalty,
                    )
                &&& forall|j: int|
                    0 <= j < v && #[trigger] actions[j] == LayerAction::Resident ==> {
                        &&& layers[v].penalty is Some
                        &&& layers[j].penalty is Some ==> layers[v].penalty->0
                            < layers[j].penalty->0
                    }
                &&& forall|j: int|
                    0 <= j < v && #[trigger] leads(actions, j) ==> layers[j].penalty is Some
            },
        },
    decreases n,
{
    if n > 0 {
        let m = (n - 1) as nat;
        lemma_least_loss(layers, actions, m);
        if let Some(v) = victim(layers, actions, n) {
            if victim(layers, actions, m) is Some && v == m {
                let b = victim(layers, actions, m)->0;
                assert(below(layers[v].penalty, layers[b].penalty));
                assert forall|j: int|
                    0 <= j < v && #[trigger] actions[j] == LayerAction::Resident implies {
                    &&& layers[v].penalty is Some
                    &&& layers[j].penalty is Some ==> layers[v].penalty->0 < layers[j].penalty->0
                } by {
                    assert(!below(layers[j].penalty, layers[b].penalty));
                }
                assert forall|j: int|
                    0 <= j < v && #[trigger] leads(
                        actions,
                        j,
                    ) implies layers[j].penalty is Some by {
                    if b < j {
                        assert(actions[b] == LayerAction::Resident);
                    }
                }
            }
        }
    }
}

/// Nothing is evicted that loses more than what stays: of a layer that was
/// evicted and one that is still resident, the one that stayed does not lose
/// less for each byte, and where they lose the same the evicted one came
/// first.
pub proof fn what_stays_loses_no_less(
    layers: Seq<LayerRank>,
    actions: Seq<LayerAction>,
    ring_slots: nat,
    budget: u64,
    i: int,
    j: int,
)
    requires
        layers.len() == actions.len(),
        0 <= i < actions.len(),
        0 <= j < actions.len(),
        actions[i] == LayerAction::Resident,
        fitted(layers, actions, ring_slots, budget)[i] != LayerAction::Resident,
        fitted(layers, actions, ring_slots, budget)[j] == LayerAction::Resident,
    ensures
        actions[j] == LayerAction::Resident,
        !below(layers[j].penalty, layers[i].penalty),
        layers[i].penalty is Some && layers[j].penalty == layers[i].penalty ==> i < j,
    decreases residents(actions, actions.len()),
{
    the_least_loss_goes_first(layers, actions);
    lemma_victim(layers, actions, actions.len());
    match victim(layers, actions, actions.len()) {
        None => {},
        Some(v) => {
            let next = actions.update(v, evicted_action(layers[v]));
            lemma_evicting_counts(actions, v, evicted_action(layers[v]), actions.len());
            if i == v {
                lemma_residents_only_leave(layers, next, ring_slots, budget, j);
                assert(actions[j] == LayerAction::Resident);
            } else {
                what_stays_loses_no_less(layers, next, ring_slots, budget, i, j);
                assert(actions[j] == LayerAction::Resident);
            }
        },
    }
}

/// Eviction makes nothing resident.
proof fn lemma_residents_only_leave(
    layers: Seq<LayerRank>,
    actions: Seq<LayerAction>,
    ring_slots: nat,
    budget: u64,
    j: int,
)
    requires
        0 <= j < actions.len(),
        fitted(layers, actions, ring_slots, budget)[j] == LayerAction::Resident,
    ensures
        actions[j] == LayerAction::Resident,
    decreases residents(actions, actions.len()),
{
    lemma_victim(layers, actions, actions.len());
    if !fits(layers, actions, ring_slots, budget) {
        match victim(layers, actions, actions.len()) {
            None => {},
            Some(v) => {
                lemma_evicting_counts(actions, v, evicted_action(layers[v]), actions.len());
                lemma_residents_only_leave(
                    layers,
                    actions.update(v, evicted_action(layers[v])),
                    ring_slots,
                    budget,
                    j,
                );
            },
        }
    }
}

/// Where every layer ends up: a resident one stays, or goes to the ring when
/// that is cheaper than the host and to the host when it is not; the others
/// stay where they are. Only where nothing is resident and nothing streams is
/// a layer on the host that the ring would have served cheaper.
pub proof fn an_evicted_layer_goes_where_it_is_cheaper(
    layers: Seq<LayerRank>,
    actions: Seq<LayerAction>,
    ring_slots: nat,
    budget: u64,
    i: int,
)
    requires
        layers.len() == actions.len(),
        0 <= i < actions.len(),
    ensures
        ({
            let after = fitted(layers, actions, ring_slots, budget);
            let nothing_held = forall|k: int|
                0 <= k < after.len() ==> #[trigger] after[k] == LayerAction::Host;
            &&& after.len() == actions.len()
            &&& match (actions[i], after[i]) {
                (LayerAction::Resident, LayerAction::Resident) => true,
                (LayerAction::Resident, LayerAction::Stream) => below(
                    layers[i].stream,
                    layers[i].host,
                ),
                (LayerAction::Resident, LayerAction::Host) => !below(
                    layers[i].stream,
                    layers[i].host,
                ) || nothing_held,
                (LayerAction::Stream, LayerAction::Stream) => true,
                (LayerAction::Stream, LayerAction::Host) => nothing_held,
                (LayerAction::Host, LayerAction::Host) => true,
                _ => false,
            }
        }),
    decreases residents(actions, actions.len()),
{
    lemma_victim(layers, actions, actions.len());
    if !fits(layers, actions, ring_slots, budget) {
        match victim(layers, actions, actions.len()) {
            None => {
                let after = unstreamed(actions);
                assert forall|k: int| 0 <= k < after.len() implies #[trigger] after[k]
                    == LayerAction::Host by {
                    assert(actions[k] != LayerAction::Resident);
                }
            },
            Some(v) => {
                lemma_evicting_counts(actions, v, evicted_action(layers[v]), actions.len());
                an_evicted_layer_goes_where_it_is_cheaper(
                    layers,
                    actions.update(v, evicted_action(layers[v])),
                    ring_slots,
                    budget,
                    i,
                );
            },
        }
    }
}

/// Nothing is evicted for nothing: a placement that fits stays as it is, and
/// one that changed holds nothing at all on the device, or some evicted layer
/// would not have fitted beside what is left.
pub proof fn nothing_is_evicted_needlessly(
    layers: Seq<LayerRank>,
    actions: Seq<LayerAction>,
    ring_slots: nat,
    budget: u64,
)
    requires
        layers.len() == actions.len(),
    ensures
        ({
            let after = fitted(layers, actions, ring_slots, budget);
            &&& fits(layers, actions, ring_slots, budget) ==> after == actions
            &&& !fits(layers, actions, ring_slots, budget) ==> {
                ||| forall|k: int|
                    0 <= k < after.len() ==> #[trigger] after[k] == LayerAction::Host
                ||| exists|v: int|
                    0 <= v < actions.len() && #[trigger] actions[v] == LayerAction::Resident
                        && after[v] != LayerAction::Resident && !fits(
                        layers,
                        after.update(v, LayerAction::Resident),
                        ring_slots,
                        budget,
                    )
            }
        }),
    decreases residents(actions, actions.len()),
{
    lemma_victim(layers, actions, actions.len());
    let after = fitted(layers, actions, ring_slots, budget);
    if !fits(layers, actions, ring_slots, budget) {
        match victim(layers, actions, actions.len()) {
            None => {
                assert forall|k: int| 0 <= k < after.len() implies #[trigger] after[k]
                    == LayerAction::Host by {
                    assert(actions[k] != LayerAction::Resident);
                }
            },
            Some(v) => {
                let next = actions.update(v, evicted_action(layers[v]));
                lemma_evicting_counts(actions, v, evicted_action(layers[v]), actions.len());
                nothing_is_evicted_needlessly(layers, next, ring_slots, budget);
                if fits(layers, next, ring_slots, budget) {
                    assert(after == next);
                    assert(after.update(v, LayerAction::Resident) =~= actions);
                    assert(actions[v] == LayerAction::Resident);
                } else if exists|k: int|
                    0 <= k < next.len() && #[trigger] next[k] == LayerAction::Resident && after[k]
                        != LayerAction::Resident && !fits(
                        layers,
                        after.update(k, LayerAction::Resident),
                        ring_slots,
                        budget,
                    ) {
                    let k = choose|k: int|
                        0 <= k < next.len() && #[trigger] next[k] == LayerAction::Resident
                            && after[k] != LayerAction::Resident && !fits(
                            layers,
                            after.update(k, LayerAction::Resident),
                            ring_slots,
                            budget,
                        );
                    assert(actions[k] == LayerAction::Resident);
                }
            },
        }
    }
}

/// What a placement pins: a layer counts with its bytes exactly when it is
/// resident.
pub proof fn a_resident_layer_pins_its_bytes(
    layers: Seq<LayerRank>,
    actions: Seq<LayerAction>,
    i: int,
)
    requires
        layers.len() == actions.len(),
        0 <= i < actions.len(),
    ensures
        ({
            let n = actions.len();
            let host = actions.update(i, LayerAction::Host);
            &&& pinned(layers, actions.update(i, LayerAction::Resident), n) == pinned(
                layers,
                host,
                n,
            ) + layers[i].bytes
            &&& pinned(layers, actions.update(i, LayerAction::Stream), n) == pinned(
                layers,
                host,
                n,
            )
            &&& (forall|k: int| 0 <= k < n ==> #[trigger] actions[k] != LayerAction::Resident)
                ==> pinned(layers, actions, n) == 0
        }),
{
    lemma_pins(layers, actions, i, actions.len());
    lemma_pins_nothing(layers, actions, actions.len());
}

/// The same of the first `n` layers.
proof fn lemma_pins(layers: Seq<LayerRank>, actions: Seq<LayerAction>, i: int, n: nat)
    requires
        n <= actions.len(),
        0 <= i < actions.len(),
    ensures
        pinned(layers, actions.update(i, LayerAction::Resident), n) == pinned(
            layers,
            actions.update(i, LayerAction::Host),
            n,
        ) + (if i < n {
            layers[i].bytes as int
        } else {
            0int
        }),
        pinned(layers, actions.update(i, LayerAction::Stream), n) == pinned(
            layers,
            actions.update(i, LayerAction::Host),
            n,
        ),
    decreases n,
{
    if n > 0 {
        lemma_pins(layers, actions, i, (n - 1) as nat);
    }
}

/// Nothing resident pins nothing.
proof fn lemma_pins_nothing(layers: Seq<LayerRank>, actions: Seq<LayerAction>, n: nat)
    requires
        n <= actions.len(),
    ensures
        (forall|k: int| 0 <= k < n ==> #[trigger] actions[k] != LayerAction::Resident) ==> pinned(
            layers,
            actions,
            n,
        ) == 0,
    decreases n,
{
    if n > 0 {
        lemma_pins_nothing(layers, actions, (n - 1) as nat);
    }
}

/// What the ring takes: its slots, each of the bytes of one streamed layer
/// than which none is larger; nothing when nothing streams.
pub proof fn the_ring_is_sized_for_the_largest_streamed_layer(
    layers: Seq<LayerRank>,
    actions: Seq<LayerAction>,
    ring_slots: nat,
)
    requires
        layers.len() == actions.len(),
    ensures
        forall|i: int|
            0 <= i < actions.len() && #[trigger] actions[i] == LayerAction::Stream ==> ring_slots
                * layers[i].bytes <= ring_reserve(layers, actions, ring_slots),
        ring_reserve(layers, actions, ring_slots) == 0 || exists|i: int|
            0 <= i < actions.len() && #[trigger] actions[i] == LayerAction::Stream && ring_slots
                * layers[i].bytes == ring_reserve(layers, actions, ring_slots),
{
    let n = actions.len();
    let w = widest(layers, actions, n);
    lemma_widest(layers, actions, n);
    assert forall|i: int|
        0 <= i < n && #[trigger] actions[i] == LayerAction::Stream implies ring_slots
        * layers[i].bytes <= ring_reserve(layers, actions, ring_slots) by {
        assert(ring_slots * layers[i].bytes <= ring_slots * w) by (nonlinear_arith)
            requires
                layers[i].bytes <= w,
                0 <= ring_slots,
        ;
    }
    if w == 0 {
        assert(ring_slots * 0 == 0) by (nonlinear_arith);
    } else {
        let i = choose|i: int|
            0 <= i < n && #[trigger] actions[i] == LayerAction::Stream && layers[i].bytes == w;
        assert(ring_slots * layers[i].bytes == ring_reserve(layers, actions, ring_slots));
    }
}

/// The largest streamed layer is one of them, and none is larger.
proof fn lemma_widest(layers: Seq<LayerRank>, actions: Seq<LayerAction>, n: nat)
    requires
        n <= actions.len(),
    ensures
        forall|i: int|
            0 <= i < n && #[trigger] actions[i] == LayerAction::Stream ==> layers[i].bytes
                <= widest(layers, actions, n),
        widest(layers, actions, n) == 0 || exists|i: int|
            0 <= i < n && #[trigger] actions[i] == LayerAction::Stream && layers[i].bytes
                == widest(layers, actions, n),
    decreases n,
{
    if n > 0 {
        lemma_widest(layers, actions, (n - 1) as nat);
        if widest(layers, actions, n) == widest(layers, actions, (n - 1) as nat) {
            if widest(layers, actions, n) != 0 {
                let i = choose|i: int|
                    0 <= i < n - 1 && #[trigger] actions[i] == LayerAction::Stream
                        && layers[i].bytes == widest(layers, actions, (n - 1) as nat);
                assert(actions[i] == LayerAction::Stream && layers[i].bytes == widest(
                    layers,
                    actions,
                    n,
                ));
            }
        } else {
            assert(actions[n - 1] == LayerAction::Stream);
        }
    }
}

/// A placement fits exactly when what it pins and what its ring takes are
/// within the budget together.
pub proof fn a_placement_fits_within_the_budget(
    layers: Seq<LayerRank>,
    actions: Seq<LayerAction>,
    ring_slots: nat,
    budget: u64,
)
    ensures
        fits(layers, actions, ring_slots, budget) <==> pinned(layers, actions, actions.len())
            + ring_reserve(layers, actions, ring_slots) <= budget,
{
}

/// What a layer changes of a plan: with room for everything every layer has
/// its cheapest action.
pub proof fn a_roomy_plan_is_the_cheapest(
    layers: Seq<LayerRank>,
    ring_slots: nat,
    budget: u64,
    i: int,
)
    requires
        0 <= i < layers.len(),
        fits(layers, unconstrained(layers), ring_slots, budget),
    ensures
        fitted(layers, unconstrained(layers), ring_slots, budget)[i] == unconstrained_action(
            layers[i],
        ),
{
}

/// The three candidates of a layer are its three possible actions, the device
/// first and the host last.
pub proof fn every_action_is_a_candidate(a: LayerAction)
    ensures
        exists|c: int| 0 <= c < 3 && #[trigger] candidate_action(c) == a,
        candidate_action(0) == LayerAction::Resident,
        candidate_action(2) == LayerAction::Host,
{
    let c: int = match a {
        LayerAction::Resident => 0,
        LayerAction::Stream => 1,
        LayerAction::Host => 2,
    };
    assert(candidate_action(c) == a);
}

/// A trial changes one layer and no other.
pub proof fn a_trial_changes_one_layer(s: SearchState, i: int)
    requires
        in_search(s),
        !s.done,
        0 <= i < s.actions.len(),
    ensures
        trial(s).len() == s.actions.len(),
        i != s.layer ==> trial(s)[i] == s.actions[i],
        trial(s)[s.layer] == candidate_action(s.cand),
{
}

/// A verdict adopts the trial when it is better and keeps the placement when
/// it is not; either way the search moves on.
pub proof fn a_verdict_adopts_or_keeps(s: SearchState, better: bool)
    requires
        in_search(s),
        !s.done,
    ensures
        settled(s, better).actions == if better {
            trial(s)
        } else {
            s.actions
        },
        in_search(settled(s, better)),
        positions_left(settled(s, better)) < positions_left(s),
        !settled(s, better).done && settled(s, better).sweep == s.sweep ==> (
        settled(s, better).improved == (s.improved || better)),
{
    lemma_positions_left(s);
    let adopted = SearchState { actions: trial(s), improved: true, ..s };
    lemma_positions_left(adopted);
}

/// Is the position at or after another of the same sweep?
pub open spec fn not_before(layer: int, cand: int, s: SearchState) -> bool {
    s.layer < layer || (s.layer == layer && s.cand <= cand)
}

/// The search passes over nothing that is worth a price: between a position
/// and the next trial of the same sweep no change of one layer fits, and where
/// the sweep ends first, none does up to its end. The search ends only with a
/// sweep that improved nothing, or with the last.
pub proof fn the_search_passes_over_nothing(
    layers: Seq<LayerRank>,
    ring_slots: nat,
    budget: u64,
    s: SearchState,
    layer: int,
    cand: int,
)
    requires
        in_search(s),
        !s.done,
        0 <= layer < s.actions.len(),
        0 <= cand < 3,
        not_before(layer, cand, s),
        s.actions[layer] != candidate_action(cand),
        fits(
            layers,
            s.actions.update(layer, candidate_action(cand)),
            ring_slots,
            budget,
        ),
    ensures
        ({
            let t = next_trial(layers, ring_slots, budget, s);
            &&& !t.done
            &&& t.sweep == s.sweep
            &&& t.actions == s.actions
            &&& t.layer < layer || (t.layer == layer && t.cand <= cand)
        }),
    decreases positions_left(s),
{
    lemma_positions_left(s);
    if worth_pricing(layers, ring_slots, budget, s) {
    } else {
        let next = advanced(s);
        assert(!(s.layer == layer && s.cand == cand));
        assert(next.sweep == s.sweep && !next.done && not_before(layer, cand, next));
        the_search_passes_over_nothing(layers, ring_slots, budget, next, layer, cand);
    }
}

/// The search ends only behind the last layer, with a sweep that improved
/// nothing or with the eighth; and what it hands out until then fits and is a
/// change.
pub proof fn the_search_ends_when_nothing_improves(s: SearchState)
    requires
        in_search(s),
        !s.done,
    ensures
        advanced(s).done ==> s.layer == s.actions.len() - 1 && s.cand == 2 && (!s.improved
            || s.sweep == 7),
        s.layer == s.actions.len() - 1 && s.cand == 2 && !s.improved ==> advanced(s).done,
        s.layer == s.actions.len() - 1 && s.cand == 2 && s.improved && s.sweep < 7 ==> {
            let t = advanced(s);
            !t.done && t.sweep == s.sweep + 1 && t.layer == 0 && t.cand == 0 && !t.improved
        },
        advanced(s).actions == s.actions,
        MAX_SWEEPS == 8,
{
}

/// What the next trial is: a change of one layer that fits, or the end.
pub proof fn a_trial_fits_and_is_a_change(
    layers: Seq<LayerRank>,
    ring_slots: nat,
    budget: u64,
    s: SearchState,
)
    requires
        in_search(s),
    ensures
        ({
            let t = next_trial(layers, ring_slots, budget, s);
            &&& t.actions == s.actions
            &&& in_search(t)
            &&& !t.done ==> t.actions[t.layer] != trial(t)[t.layer] && fits(
                layers,
                trial(t),
                ring_slots,
                budget,
            )
        }),
    decreases positions_left(s),
{
    if !s.done && !worth_pricing(layers, ring_slots, budget, s) {
        lemma_positions_left(s);
        a_trial_fits_and_is_a_change(layers, ring_slots, budget, advanced(s));
    }
}

/// One run of layers on the host among others costs two hops, coming and
/// going, wherever it stands.
pub proof fn one_host_run_costs_two_hops(actions: Seq<LayerAction>, a: int, b: int)
    requires
        0 <= a < b <= actions.len(),
        b - a < actions.len(),
        forall|i: int|
            0 <= i < actions.len() ==> (#[trigger] actions[i] == LayerAction::Host <==> a <= i < b),
    ensures
        crossings(actions, actions.len()) == 2,
{
    lemma_run(actions, a, b, actions.len());
}

/// The hops among the first `n` layers of a plan with one host run.
proof fn lemma_run(actions: Seq<LayerAction>, a: int, b: int, n: nat)
    requires
        0 <= a < b <= actions.len(),
        b - a < actions.len(),
        n <= actions.len(),
        forall|i: int|
            0 <= i < actions.len() ==> (#[trigger] actions[i] == LayerAction::Host <==> a <= i < b),
    ensures
        crossings(actions, n) == (if 0 < a && a <= n {
            1int
        } else {
            0int
        }) + (if b < actions.len() && b <= n {
            1int
        } else {
            0int
        }) + (if n == actions.len() && (a == 0 || b == actions.len()) {
            1int
        } else {
            0int
        }),
    decreases n,
{
    if n > 0 {
        lemma_run(actions, a, b, (n - 1) as nat);
        let i = n - 1;
        let next: int = if i + 1 == actions.len() {
            0
        } else {
            i + 1
        };
        assert(actions[i] == LayerAction::Host <==> a <= i < b);
        assert(actions[next] == LayerAction::Host <==> a <= next < b);
        assert(crosses_at(actions, i) == ((a <= i < b) != (a <= next < b)));
    }
}

/// The largest of a list is one of it, and none is larger; of an empty list it
/// is zero.
pub proof fn the_largest_is_one_of_them(bytes: Seq<u64>)
    ensures
        forall|i: int| 0 <= i < bytes.len() ==> #[trigger] bytes[i] <= largest(bytes),
        bytes.len() == 0 ==> largest(bytes) == 0,
        bytes.len() > 0 ==> exists|i: int|
            0 <= i < bytes.len() && #[trigger] bytes[i] == largest(bytes),
    decreases bytes.len(),
{
    if bytes.len() > 0 {
        let init = bytes.drop_last();
        the_largest_is_one_of_them(init);
        assert forall|i: int| 0 <= i < bytes.len() implies #[trigger] bytes[i] <= largest(
            bytes,
        ) by {
            if i < init.len() {
                assert(init[i] == bytes[i]);
            }
        }
        if bytes.last() > largest(init) || init.len() == 0 {
            assert(bytes[bytes.len() - 1] == largest(bytes));
        } else {
            let i = choose|i: int| 0 <= i < init.len() && #[trigger] init[i] == largest(init);
            assert(bytes[i] == largest(bytes));
        }
    }
}

// ---- what callers are given ------------------------------------------------

/// A plan fits its budget. A layer that would be cheapest on the device and
/// was put off it lost, for each byte, no more than any that stayed, and stood
/// before those that would have lost as much; a layer that would not be
/// cheapest on the device is not put on it.
pub proof fn a_plan_puts_off_what_loses_least(
    layers: Vec<LayerRank>,
    budget: u64,
    ring_slots: usize,
    r: PlanSearch,
    i: int,
    j: int,
)
    requires
        call_ensures(plan, (layers, budget, ring_slots), r),
        0 <= i < layers@.len(),
        0 <= j < layers@.len(),
    ensures
        r.actions@.len() == layers@.len(),
        r.layers@ == layers@,
        r.budget == budget,
        r.ring_slots == ring_slots,
        pinned(layers@, r.actions@, layers@.len()) + ring_reserve(
            layers@,
            r.actions@,
            ring_slots as nat,
        ) <= budget,
        unconstrained_action(layers@[i]) == LayerAction::Resident && r.actions@[i]
            != LayerAction::Resident && r.actions@[j] == LayerAction::Resident ==> {
            &&& unconstrained_action(layers@[j]) == LayerAction::Resident
            &&& !below(layers@[j].penalty, layers@[i].penalty)
            &&& layers@[i].penalty is Some && layers@[j].penalty == layers@[i].penalty ==> i < j
        },
        unconstrained_action(layers@[i]) != LayerAction::Resident ==> r.actions@[i]
            != LayerAction::Resident,
        r.sweep == 0 && r.layer == 0 && r.cand == 0 && !r.improved,
        !r.done,
{
    let start = unconstrained(layers@);
    let slots = ring_slots as nat;
    eviction_ends_in_a_fit(layers@, start, slots, budget);
    a_placement_fits_within_the_budget(layers@, r.actions@, slots, budget);
    an_evicted_layer_goes_where_it_is_cheaper(layers@, start, slots, budget, i);
    if start[i] == LayerAction::Resident && r.actions@[i] != LayerAction::Resident && r.actions@[j]
        == LayerAction::Resident {
        what_stays_loses_no_less(layers@, start, slots, budget, i, j);
    }
}

/// A placement is given its bytes exactly when they are within the budget.
pub proof fn a_fit_is_told_its_bytes(
    layers: Vec<LayerRank>,
    actions: Vec<LayerAction>,
    ring_slots: usize,
    budget: u64,
    r: Option<(u64, u64)>,
)
    requires
        call_ensures(fit, (&layers, &actions, ring_slots, budget), r),
    ensures
        r is Some <==> pinned(layers@, actions@, actions@.len()) + ring_reserve(
            layers@,
            actions@,
            ring_slots as nat,
        ) <= budget,
        r matches Some(b) ==> b.0 == pinned(layers@, actions@, actions@.len()) && b.1
            == ring_reserve(layers@, actions@, ring_slots as nat),
{
    a_placement_fits_within_the_budget(layers@, actions@, ring_slots as nat, budget);
}

/// A trial differs from the placement in one layer, fits, and changes nothing
/// yet; the search is over where there is none.
pub proof fn a_trial_is_offered(
    s: &mut PlanSearch,
    r: Option<Vec<LayerAction>>,
    i: int,
)
    requires
        old(s).wf(),
        call_ensures(PlanSearch::candidate, (s,), r),
    ensures
        final(s).actions@ == old(s).actions@,
        r is None <==> final(s).done,
        r matches Some(a) ==> {
            &&& fits(final(s).layers@, a@, final(s).ring_slots as nat, final(s).budget)
            &&& a@.len() == final(s).actions@.len()
            &&& a@[final(s).layer as int] != final(s).actions@[final(s).layer as int]
            &&& 0 <= i < a@.len() && i != final(s).layer ==> a@[i] == final(s).actions@[i]
        },
{
    a_trial_fits_and_is_a_change(
        old(s).layers@,
        old(s).ring_slots as nat,
        old(s).budget,
        old(s).state(),
    );
    if r is Some && 0 <= i < final(s).actions@.len() {
        a_trial_changes_one_layer(final(s).state(), i);
    }
}

/// A better trial becomes the placement, and any other leaves it.
pub proof fn a_better_trial_is_adopted(s: &mut PlanSearch, better: bool)
    requires
        old(s).wf(),
        !old(s).done,
        call_ensures(PlanSearch::settle, (s, better), ()),
    ensures
        better ==> final(s).actions@ == old(s).actions@.update(
            old(s).layer as int,
            candidate_action(old(s).cand as int),
        ),
        !better ==> final(s).actions@ == old(s).actions@,
        final(s).layers@ == old(s).layers@,
        final(s).budget == old(s).budget,
{
    a_verdict_adopts_or_keeps(old(s).state(), better);
}

/// The finished plan is the placement that the search ends with, and its bytes.
pub proof fn the_plan_is_what_the_search_ends_with(s: PlanSearch, r: OverlayPlan)
    requires
        call_ensures(PlanSearch::finish, (&s,), r),
    ensures
        r.actions@ == s.actions@,
        r.resident_bytes == pinned(s.layers@, s.actions@, s.actions@.len()),
        r.ring_bytes == ring_reserve(s.layers@, s.actions@, s.ring_slots as nat),
{
}

/// The least memory that streaming needs: the ring's slots for the largest
/// layer, the activations and the cache, or as much as can be said.
pub proof fn streaming_needs_room_for_the_largest_layer(
    layers: Vec<u64>,
    ring_slots: usize,
    activations: u64,
    kv: u64,
    r: u64,
    i: int,
)
    requires
        call_ensures(min_vram_bytes, (&layers, ring_slots, activations, kv), r),
        0 <= i < layers@.len(),
    ensures
        r == u64::MAX || r >= ring_slots * layers@[i] + activations + kv,
        r == u64::MAX || exists|k: int|
            0 <= k < layers@.len() && r == ring_slots * #[trigger] layers@[k] + activations + kv,
{
    the_largest_is_one_of_them(layers@);
    let most = largest(layers@);
    assert(layers@[i] <= most);
    assert(ring_slots * layers@[i] <= ring_slots * most) by (nonlinear_arith)
        requires
            layers@[i] <= most,
    ;
    let k = choose|k: int| 0 <= k < layers@.len() && #[trigger] layers@[k] == most;
    assert(ring_slots as nat * most == ring_slots * layers@[k]);
}

/// The split of a row that is measured fastest, the coarsest of those as fast.
pub proof fn the_fastest_split_of_a_row(keys: Vec<Option<u64>>, r: usize, i: int)
    requires
        keys@.len() > 0,
        call_ensures(best_row_blocks, (&keys,), r),
        0 <= i < keys@.len(),
    ensures
        1 <= r <= keys@.len(),
        keys@[0] is None ==> r == 1,
        keys@[0] is Some && keys@[i] is Some ==> keys@[r - 1] is Some && keys@[r - 1]->0
            <= keys@[i]->0,
        keys@[0] is Some && keys@[i] is Some && i < r - 1 ==> keys@[r - 1]->0 < keys@[i]->0,
{
}

} // verus!
