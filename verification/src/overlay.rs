//! The overlay floor: where each layer's weights live and compute happens.
//!
//! VRAM is treated as a cache over whole layers. With a small fixed ring of
//! slots a model of any depth runs its every layer on the device, so memory
//! stops being a capacity bound: [`min_vram_bytes`] does not depend on how
//! many layers there are.
//!
//! Prices are measured times. They enter only through comparisons, so here a
//! price is an integer that ranks as the time does ([`order_key`]), or `None`
//! for a time that is not a number: no comparison with one holds.

use vstd::prelude::*;

pub mod placement;
pub mod ring;

verus! {

/// Where one layer's weights live and compute happens.
#[derive(Debug, Clone, Copy, PartialEq, Eq, Structural)]
pub enum LayerAction {
    /// Pinned in VRAM for the whole run.
    Resident,
    /// Computed on the host, where the bytes already are; holds no VRAM.
    Host,
    /// Weights ride the ring through a recycled slot; computed on the device.
    Stream,
}

/// One layer's measured inputs: its device bytes, and the ranks of its
/// prices.
#[derive(Debug, Clone, Copy, PartialEq, Eq)]
pub struct LayerRank {
    /// Device bytes the layer's weights occupy.
    pub bytes: u64,
    /// Rank of the compute time on the device.
    pub gpu: Option<u64>,
    /// Rank of the compute time on the host.
    pub host: Option<u64>,
    /// Rank of the charge when streamed: the slower of compute and transfer,
    /// plus the slot handoff spread over the ring.
    pub stream: Option<u64>,
    /// Rank of the off-device penalty per byte.
    pub penalty: Option<u64>,
}

/// The signed magnitude of a double's bit pattern: among doubles that are
/// numbers it orders as the values do, and both zeros are the same.
pub open spec fn signed_magnitude(bits: u64) -> int {
    if bits >= 0x8000_0000_0000_0000 {
        0x8000_0000_0000_0000 - bits
    } else {
        bits as int
    }
}

/// Is the bit pattern one of a double that is not a number: the exponent all
/// ones, and the fraction not zero?
pub open spec fn is_nan(bits: u64) -> bool {
    bits % 0x8000_0000_0000_0000 > 0x7FF0_0000_0000_0000
}

/// The rank of a double by its bit pattern, `None` for a double that is not a
/// number.
pub open spec fn key_of(bits: u64) -> Option<u64> {
    if is_nan(bits) {
        None
    } else {
        Some((signed_magnitude(bits) + 0x8000_0000_0000_0000) as u64)
    }
}

/// The rank of a double by its bit pattern: ranks compare as the doubles do.
/// `None` for a double that is not a number.
pub fn order_key(bits: u64) -> (r: Option<u64>)
    ensures
        r == key_of(bits),
{
    if bits % 0x8000_0000_0000_0000 > 0x7FF0_0000_0000_0000 {
        None
    } else if bits >= 0x8000_0000_0000_0000 {
        Some(0x8000_0000_0000_0000 - (bits - 0x8000_0000_0000_0000))
    } else {
        Some(bits + 0x8000_0000_0000_0000)
    }
}

/// Is the first price below the second? Never when one is not a number.
pub open spec fn below(a: Option<u64>, b: Option<u64>) -> bool {
    a is Some && b is Some && a->0 < b->0
}

/// Is the first price at most the second? Never when one is not a number.
pub open spec fn at_most(a: Option<u64>, b: Option<u64>) -> bool {
    a is Some && b is Some && a->0 <= b->0
}

/// Ranks compare as the doubles do: in the order of their signed magnitudes,
/// and not at all when one of them is not a number.
pub proof fn ranks_compare_as_the_times_do(a: u64, b: u64)
    ensures
        below(key_of(a), key_of(b)) <==> !is_nan(a) && !is_nan(b) && signed_magnitude(a)
            < signed_magnitude(b),
        at_most(key_of(a), key_of(b)) <==> !is_nan(a) && !is_nan(b) && signed_magnitude(a)
            <= signed_magnitude(b),
{
}

/// Is the first price below the second?
fn is_below(a: Option<u64>, b: Option<u64>) -> (r: bool)
    ensures
        r == below(a, b),
{
    match (a, b) {
        (Some(x), Some(y)) => x < y,
        _ => false,
    }
}

/// Is the first price at most the second?
fn is_at_most(a: Option<u64>, b: Option<u64>) -> (r: bool)
    ensures
        r == at_most(a, b),
{
    match (a, b) {
        (Some(x), Some(y)) => x <= y,
        _ => false,
    }
}

/// A layer's cheapest action as if the budget were infinite. Ties prefer
/// Resident, then Stream; what no comparison settles stays on the host.
pub open spec fn unconstrained_action(l: LayerRank) -> LayerAction {
    if at_most(l.gpu, l.stream) && at_most(l.gpu, l.host) {
        LayerAction::Resident
    } else if at_most(l.stream, l.host) {
        LayerAction::Stream
    } else {
        LayerAction::Host
    }
}

/// Where a layer goes that cannot stay resident: it streams exactly when that
/// is cheaper than the host.
pub open spec fn evicted_action(l: LayerRank) -> LayerAction {
    if below(l.stream, l.host) {
        LayerAction::Stream
    } else {
        LayerAction::Host
    }
}

/// A layer whose host time is not a number goes to the host, whatever its
/// other prices are, and it goes there when it is evicted too.
pub proof fn an_unmeasured_host_keeps_its_layer(l: LayerRank)
    requires
        l.host is None,
    ensures
        unconstrained_action(l) == LayerAction::Host,
        evicted_action(l) == LayerAction::Host,
{
}

/// Bytes pinned by the resident layers among the first `n`.
pub open spec fn pinned(layers: Seq<LayerRank>, actions: Seq<LayerAction>, n: nat) -> nat
    decreases n,
{
    if n == 0 {
        0
    } else {
        pinned(layers, actions, (n - 1) as nat) + (if actions[n - 1] == LayerAction::Resident {
            layers[n - 1].bytes as nat
        } else {
            0
        })
    }
}

/// The largest streamed layer among the first `n`.
pub open spec fn widest(layers: Seq<LayerRank>, actions: Seq<LayerAction>, n: nat) -> nat
    decreases n,
{
    if n == 0 {
        0
    } else {
        let w = widest(layers, actions, (n - 1) as nat);
        if actions[n - 1] == LayerAction::Stream && layers[n - 1].bytes > w {
            layers[n - 1].bytes as nat
        } else {
            w
        }
    }
}

/// The ring reserve: slots are recycled, so it is paid once, for the largest
/// streamed layer.
pub open spec fn ring_reserve(
    layers: Seq<LayerRank>,
    actions: Seq<LayerAction>,
    ring_slots: nat,
) -> nat {
    ring_slots * widest(layers, actions, actions.len())
}

/// Does the assignment fit the budget?
pub open spec fn fits(
    layers: Seq<LayerRank>,
    actions: Seq<LayerAction>,
    ring_slots: nat,
    budget: u64,
) -> bool {
    pinned(layers, actions, actions.len()) + ring_reserve(layers, actions, ring_slots) <= budget
}

/// Pinned bytes only grow with the layers counted.
proof fn lemma_pinned_grows(layers: Seq<LayerRank>, actions: Seq<LayerAction>, i: nat, n: nat)
    requires
        i <= n,
    ensures
        pinned(layers, actions, i) <= pinned(layers, actions, n),
    decreases n,
{
    if i < n {
        lemma_pinned_grows(layers, actions, i, (n - 1) as nat);
    }
}

/// `(resident bytes, ring bytes)` of an assignment that fits the budget.
pub fn fit(layers: &Vec<LayerRank>, actions: &Vec<LayerAction>, ring_slots: usize, budget: u64) -> (r:
    Option<(u64, u64)>)
    requires
        layers@.len() == actions@.len(),
    ensures
        match r {
            Some(b) => {
                &&& fits(layers@, actions@, ring_slots as nat, budget)
                &&& b.0 == pinned(layers@, actions@, actions@.len())
                &&& b.1 == ring_reserve(layers@, actions@, ring_slots as nat)
            },
            None => !fits(layers@, actions@, ring_slots as nat, budget),
        },
{
    let mut resident: u64 = 0;
    let mut wide: u64 = 0;
    let mut i: usize = 0;
    while i < layers.len()
        invariant
            i <= layers@.len(),
            layers@.len() == actions@.len(),
            resident == pinned(layers@, actions@, i as nat),
            wide == widest(layers@, actions@, i as nat),
        decreases layers@.len() - i,
    {
        match actions[i] {
            LayerAction::Resident => {
                match resident.checked_add(layers[i].bytes) {
                    Some(v) => {
                        resident = v;
                    },
                    None => {
                        proof {
                            lemma_pinned_grows(
                                layers@,
                                actions@,
                                (i + 1) as nat,
                                actions@.len(),
                            );
                            assert(0 <= ring_slots as nat * widest(
                                layers@,
                                actions@,
                                actions@.len(),
                            ));
                        }
                        return None;
                    },
                }
            },
            LayerAction::Stream => {
                if layers[i].bytes > wide {
                    wide = layers[i].bytes;
                }
            },
            LayerAction::Host => {},
        }
        i += 1;
    }
    let ring: u64 = match (ring_slots as u64).checked_mul(wide) {
        Some(v) => v,
        None => {
            return None;
        },
    };
    match resident.checked_add(ring) {
        Some(v) => if v > budget {
            None
        } else {
            Some((resident, ring))
        },
        None => None,
    }
}

/// Do the actions of the layers at `i` and after it, around the token loop,
/// differ in being on the host?
pub open spec fn crosses_at(actions: Seq<LayerAction>, i: int) -> bool {
    (actions[i] == LayerAction::Host) != (actions[if i + 1 == actions.len() {
        0
    } else {
        i + 1
    }] == LayerAction::Host)
}

/// The boundaries among the first `n` where the plan changes between host and
/// device.
pub open spec fn crossings(actions: Seq<LayerAction>, n: nat) -> nat
    decreases n,
{
    if n == 0 {
        0
    } else {
        crossings(actions, (n - 1) as nat) + (if crosses_at(actions, n - 1) {
            1nat
        } else {
            0nat
        })
    }
}

/// Host boundaries, counted around the repeating token loop: every change
/// between host and device costs one activation hop.
pub fn boundaries(actions: &Vec<LayerAction>) -> (r: usize)
    ensures
        r == crossings(actions@, actions@.len()),
{
    let n: usize = actions.len();
    let mut count: usize = 0;
    let mut i: usize = 0;
    while i < n
        invariant
            n == actions@.len(),
            i <= n,
            count <= i,
            count == crossings(actions@, i as nat),
        decreases n - i,
    {
        let after: usize = if i + 1 == n {
            0
        } else {
            i + 1
        };
        let here: bool = actions[i] == LayerAction::Host;
        let next: bool = actions[after] == LayerAction::Host;
        if here != next {
            count += 1;
        }
        i += 1;
    }
    count
}

/// What is counted up to a layer has the parity of "this layer is on the
/// other side than the first".
proof fn lemma_crossing_parity(actions: Seq<LayerAction>, n: nat)
    requires
        n < actions.len(),
    ensures
        (crossings(actions, n) % 2 == 0) == ((actions[0] == LayerAction::Host) == (
        actions[n as int] == LayerAction::Host)),
    decreases n,
{
    if n > 0 {
        lemma_crossing_parity(actions, (n - 1) as nat);
    }
}

/// Every host run pays for coming and for going: around the loop the number
/// of crossings is even, and a plan that never changes sides pays none.
pub proof fn host_runs_pay_both_ways(actions: Seq<LayerAction>)
    ensures
        crossings(actions, actions.len()) % 2 == 0,
        (forall|i: int, j: int|
            0 <= i < actions.len() && 0 <= j < actions.len() ==> ((#[trigger] actions[i])
                == LayerAction::Host) == ((#[trigger] actions[j]) == LayerAction::Host))
            ==> crossings(actions, actions.len()) == 0,
{
    let n = actions.len();
    if n > 0 {
        lemma_crossing_parity(actions, (n - 1) as nat);
        if forall|i: int, j: int|
            0 <= i < actions.len() && 0 <= j < actions.len() ==> ((#[trigger] actions[i])
                == LayerAction::Host) == ((#[trigger] actions[j]) == LayerAction::Host) {
            lemma_no_crossings(actions, n);
        }
    }
}

/// One side throughout: no crossings.
proof fn lemma_no_crossings(actions: Seq<LayerAction>, n: nat)
    requires
        n <= actions.len(),
        forall|i: int, j: int|
            0 <= i < actions.len() && 0 <= j < actions.len() ==> ((#[trigger] actions[i])
                == LayerAction::Host) == ((#[trigger] actions[j]) == LayerAction::Host),
    ensures
        crossings(actions, n) == 0,
    decreases n,
{
    if n > 0 {
        lemma_no_crossings(actions, (n - 1) as nat);
    }
}

/// Resident layers among the first `n`.
pub open spec fn residents(actions: Seq<LayerAction>, n: nat) -> nat
    decreases n,
{
    if n == 0 {
        0
    } else {
        residents(actions, (n - 1) as nat) + (if actions[n - 1] == LayerAction::Resident {
            1nat
        } else {
            0nat
        })
    }
}

/// Evicting a resident layer leaves one fewer.
pub proof fn lemma_evicting_counts(actions: Seq<LayerAction>, i: int, a: LayerAction, n: nat)
    requires
        n <= actions.len(),
        0 <= i < actions.len(),
        actions[i] == LayerAction::Resident,
        a != LayerAction::Resident,
    ensures
        residents(actions.update(i, a), n) + (if i < n {
            1nat
        } else {
            0nat
        }) == residents(actions, n),
    decreases n,
{
    if n > 0 {
        lemma_evicting_counts(actions, i, a, (n - 1) as nat);
    }
}

/// The resident layer among the first `n` with the least penalty per byte,
/// the earliest of equals: a later one takes its place only when its penalty
/// is below.
pub open spec fn victim(layers: Seq<LayerRank>, actions: Seq<LayerAction>, n: nat) -> Option<int>
    decreases n,
{
    if n == 0 {
        None
    } else {
        let best = victim(layers, actions, (n - 1) as nat);
        if actions[n - 1] != LayerAction::Resident {
            best
        } else {
            match best {
                Some(b) => if below(layers[n - 1].penalty, layers[b].penalty) {
                    Some(n - 1)
                } else {
                    Some(b)
                },
                None => Some(n - 1),
            }
        }
    }
}

/// A victim is a resident layer; there is none only when nothing is resident.
pub proof fn lemma_victim(layers: Seq<LayerRank>, actions: Seq<LayerAction>, n: nat)
    requires
        n <= actions.len(),
    ensures
        match victim(layers, actions, n) {
            Some(i) => 0 <= i < n && actions[i] == LayerAction::Resident,
            None => forall|i: int|
                0 <= i < n ==> (#[trigger] actions[i]) != LayerAction::Resident,
        },
    decreases n,
{
    if n > 0 {
        lemma_victim(layers, actions, (n - 1) as nat);
    }
}

/// The assignment with every streamed layer on the host.
pub open spec fn unstreamed(actions: Seq<LayerAction>) -> Seq<LayerAction> {
    actions.map(
        |i: int, a: LayerAction|
            if a == LayerAction::Stream {
                LayerAction::Host
            } else {
                a
            },
    )
}

/// Evict until the assignment fits: the cheapest resident layer per byte
/// first; with none left and the ring itself too large, streaming falls back
/// to the host.
pub open spec fn fitted(
    layers: Seq<LayerRank>,
    actions: Seq<LayerAction>,
    ring_slots: nat,
    budget: u64,
) -> Seq<LayerAction>
    decreases residents(actions, actions.len()),
{
    if fits(layers, actions, ring_slots, budget) {
        actions
    } else {
        match victim(layers, actions, actions.len()) {
            Some(i) => {
                proof {
                    lemma_victim(layers, actions, actions.len());
                    lemma_evicting_counts(
                        actions,
                        i,
                        evicted_action(layers[i]),
                        actions.len(),
                    );
                }
                fitted(layers, actions.update(i, evicted_action(layers[i])), ring_slots, budget)
            },
            None => unstreamed(actions),
        }
    }
}

/// With nothing resident and nothing streamed any budget is enough.
proof fn lemma_all_host_fits(
    layers: Seq<LayerRank>,
    actions: Seq<LayerAction>,
    ring_slots: nat,
    n: nat,
)
    requires
        n <= actions.len(),
        forall|i: int| 0 <= i < actions.len() ==> (#[trigger] actions[i]) == LayerAction::Host,
    ensures
        pinned(layers, actions, n) == 0,
        widest(layers, actions, n) == 0,
        ring_slots * widest(layers, actions, n) == 0,
    decreases n,
{
    if n > 0 {
        lemma_all_host_fits(layers, actions, ring_slots, (n - 1) as nat);
    }
    assert(ring_slots * 0 == 0);
}

/// Eviction always ends with a plan that fits: the all-host plan needs no
/// device bytes.
pub proof fn eviction_ends_in_a_fit(
    layers: Seq<LayerRank>,
    actions: Seq<LayerAction>,
    ring_slots: nat,
    budget: u64,
)
    ensures
        fits(layers, fitted(layers, actions, ring_slots, budget), ring_slots, budget),
        fitted(layers, actions, ring_slots, budget).len() == actions.len(),
    decreases residents(actions, actions.len()),
{
    lemma_victim(layers, actions, actions.len());
    if !fits(layers, actions, ring_slots, budget) {
        match victim(layers, actions, actions.len()) {
            Some(i) => {
                lemma_evicting_counts(actions, i, evicted_action(layers[i]), actions.len());
                eviction_ends_in_a_fit(
                    layers,
                    actions.update(i, evicted_action(layers[i])),
                    ring_slots,
                    budget,
                );
            },
            None => {
                let host = unstreamed(actions);
                assert forall|i: int| 0 <= i < host.len() implies (#[trigger] host[i])
                    == LayerAction::Host by {
                    assert(actions[i] != LayerAction::Resident);
                }
                lemma_all_host_fits(layers, host, ring_slots, host.len());
            },
        }
    }
}

/// Sweeps the exchange makes at most.
pub const MAX_SWEEPS: usize = 8;

/// Candidate `c` of a layer, in the order they are tried.
pub open spec fn candidate_action(c: int) -> LayerAction {
    if c == 0 {
        LayerAction::Resident
    } else if c == 1 {
        LayerAction::Stream
    } else {
        LayerAction::Host
    }
}

/// The search for a cheaper plan: sweep the layers, trying each other action
/// per layer against the full price, adopting strict improvements, until a
/// sweep changes nothing or the sweeps are used up.
///
/// The search holds which assignment is current and which is tried next; the
/// prices are the caller's.
#[derive(Debug)]
pub struct PlanSearch {
    pub layers: Vec<LayerRank>,
    pub ring_slots: usize,
    pub budget: u64,
    pub actions: Vec<LayerAction>,
    pub sweep: usize,
    pub layer: usize,
    pub cand: usize,
    pub improved: bool,
    pub done: bool,
}

/// The search's position, assignment and verdicts so far.
#[verifier::ext_equal]
pub struct SearchState {
    pub actions: Seq<LayerAction>,
    pub sweep: int,
    pub layer: int,
    pub cand: int,
    pub improved: bool,
    pub done: bool,
}

/// The position after this one.
pub open spec fn advanced(s: SearchState) -> SearchState {
    let n = s.actions.len();
    if s.cand + 1 < 3 {
        SearchState { cand: s.cand + 1, ..s }
    } else if s.layer + 1 < n {
        SearchState { cand: 0, layer: s.layer + 1, ..s }
    } else if !s.improved || s.sweep + 1 >= MAX_SWEEPS {
        SearchState { done: true, ..s }
    } else {
        SearchState { cand: 0, layer: 0, sweep: s.sweep + 1, improved: false, ..s }
    }
}

/// How many positions are left.
pub open spec fn positions_left(s: SearchState) -> int {
    if s.done {
        0
    } else {
        (MAX_SWEEPS - s.sweep) * (3 * s.actions.len()) - 3 * s.layer - s.cand + 1
    }
}

/// The position is one of the search.
pub open spec fn in_search(s: SearchState) -> bool {
    s.done || (0 <= s.sweep < MAX_SWEEPS && 0 <= s.layer < s.actions.len() && 0 <= s.cand < 3)
}

/// Moving on uses up a position.
pub proof fn lemma_positions_left(s: SearchState)
    requires
        in_search(s),
        !s.done,
    ensures
        in_search(advanced(s)),
        0 <= positions_left(advanced(s)) < positions_left(s),
{
    let w = 3 * s.actions.len() as int;
    let k = MAX_SWEEPS - s.sweep;
    assert(k * w >= w) by (nonlinear_arith)
        requires
            k >= 1,
            w >= 0,
    ;
    assert((k - 1) * w == k * w - w) by (nonlinear_arith);
    assert((k - 1) * w >= 0) by (nonlinear_arith)
        requires
            k >= 1,
            w >= 0,
    ;
}

/// The assignment under trial.
pub open spec fn trial(s: SearchState) -> Seq<LayerAction> {
    s.actions.update(s.layer, candidate_action(s.cand))
}

/// Is the position worth a price: a change, and one that fits?
pub open spec fn worth_pricing(
    layers: Seq<LayerRank>,
    ring_slots: nat,
    budget: u64,
    s: SearchState,
) -> bool {
    &&& s.actions[s.layer] != candidate_action(s.cand)
    &&& fits(layers, trial(s), ring_slots, budget)
}

/// The next position worth a price, or the end.
pub open spec fn next_trial(
    layers: Seq<LayerRank>,
    ring_slots: nat,
    budget: u64,
    s: SearchState,
) -> SearchState
    decreases positions_left(s),
    when in_search(s)
{
    if s.done || worth_pricing(layers, ring_slots, budget, s) {
        s
    } else {
        proof {
            lemma_positions_left(s);
        }
        next_trial(layers, ring_slots, budget, advanced(s))
    }
}

/// The state after a verdict on the trial.
pub open spec fn settled(s: SearchState, better: bool) -> SearchState {
    if better {
        advanced(SearchState { actions: trial(s), improved: true, ..s })
    } else {
        advanced(s)
    }
}

/// A plan: per-layer placements with what they hold on the device.
#[derive(Debug)]
pub struct OverlayPlan {
    /// Per-layer placement, same order as the input.
    pub actions: Vec<LayerAction>,
    /// Bytes pinned by resident layers.
    pub resident_bytes: u64,
    /// Bytes reserved for the ring.
    pub ring_bytes: u64,
}

impl PlanSearch {
    /// The search's state.
    pub open spec fn state(self) -> SearchState {
        SearchState {
            actions: self.actions@,
            sweep: self.sweep as int,
            layer: self.layer as int,
            cand: self.cand as int,
            improved: self.improved,
            done: self.done,
        }
    }

    /// The current assignment fits and the position is one of the search.
    pub open spec fn wf(self) -> bool {
        &&& self.layers@.len() == self.actions@.len()
        &&& fits(self.layers@, self.actions@, self.ring_slots as nat, self.budget)
        &&& in_search(self.state())
    }

    /// Move to the next position.
    fn advance(&mut self)
        requires
            old(self).wf(),
            !old(self).done,
        ensures
            final(self).wf(),
            final(self).layers@ == old(self).layers@,
            final(self).ring_slots == old(self).ring_slots,
            final(self).budget == old(self).budget,
            final(self).state() == advanced(old(self).state()),
    {
        proof {
            lemma_positions_left(self.state());
        }
        let n: usize = self.actions.len();
        if self.cand + 1 < 3 {
            self.cand = self.cand + 1;
        } else if self.layer + 1 < n {
            self.cand = 0;
            self.layer = self.layer + 1;
        } else if !self.improved || self.sweep + 1 >= MAX_SWEEPS {
            self.done = true;
        } else {
            self.cand = 0;
            self.layer = 0;
            self.sweep = self.sweep + 1;
            self.improved = false;
        }
    }

    /// The next assignment to price, or `None` when the search is over.
    pub fn candidate(&mut self) -> (r: Option<Vec<LayerAction>>)
        requires
            old(self).wf(),
        ensures
            final(self).wf(),
            final(self).layers@ == old(self).layers@,
            final(self).ring_slots == old(self).ring_slots,
            final(self).budget == old(self).budget,
            final(self).actions@ == old(self).actions@,
            final(self).state() == next_trial(
                old(self).layers@,
                old(self).ring_slots as nat,
                old(self).budget,
                old(self).state(),
            ),
            match r {
                None => final(self).done,
                Some(a) => {
                    &&& !final(self).done
                    &&& a@ == trial(final(self).state())
                    &&& fits(
                        final(self).layers@,
                        a@,
                        final(self).ring_slots as nat,
                        final(self).budget,
                    )
                },
            },
    {
        let ghost target = next_trial(
            self.layers@,
            self.ring_slots as nat,
            self.budget,
            self.state(),
        );
        while !self.done
            invariant
                self.wf(),
                self.layers@ == old(self).layers@,
                self.ring_slots == old(self).ring_slots,
                self.budget == old(self).budget,
                self.actions@ == old(self).actions@,
                target == next_trial(
                    old(self).layers@,
                    old(self).ring_slots as nat,
                    old(self).budget,
                    old(self).state(),
                ),
                target == next_trial(
                    self.layers@,
                    self.ring_slots as nat,
                    self.budget,
                    self.state(),
                ),
            decreases positions_left(self.state()),
        {
            let ghost s = self.state();
            proof {
                lemma_positions_left(s);
            }
            let act: LayerAction = if self.cand == 0 {
                LayerAction::Resident
            } else if self.cand == 1 {
                LayerAction::Stream
            } else {
                LayerAction::Host
            };
            if act != self.actions[self.layer] {
                let mut tried: Vec<LayerAction> = copy_actions(&self.actions);
                tried.set(self.layer, act);
                assert(tried@ =~= trial(s));
                let fit_now: Option<(u64, u64)> = fit(
                    &self.layers,
                    &tried,
                    self.ring_slots,
                    self.budget,
                );
                if fit_now.is_some() {
                    return Some(tried);
                }
            }
            self.advance();
        }
        None
    }

    /// The verdict on the assignment that was handed out: adopt it when it is
    /// strictly cheaper, and move on.
    pub fn settle(&mut self, better: bool)
        requires
            old(self).wf(),
            !old(self).done,
            worth_pricing(
                old(self).layers@,
                old(self).ring_slots as nat,
                old(self).budget,
                old(self).state(),
            ),
        ensures
            final(self).wf(),
            final(self).layers@ == old(self).layers@,
            final(self).ring_slots == old(self).ring_slots,
            final(self).budget == old(self).budget,
            final(self).state() == settled(old(self).state(), better),
            positions_left(final(self).state()) < positions_left(old(self).state()),
    {
        let ghost before = self.state();
        if better {
            let act: LayerAction = if self.cand == 0 {
                LayerAction::Resident
            } else if self.cand == 1 {
                LayerAction::Stream
            } else {
                LayerAction::Host
            };
            self.actions.set(self.layer, act);
            self.improved = true;
            assert(self.actions@ =~= trial(before));
        }
        proof {
            lemma_positions_left(self.state());
        }
        self.advance();
    }

    /// The current plan.
    pub fn finish(&self) -> (r: OverlayPlan)
        requires
            self.wf(),
        ensures
            r.actions@ == self.actions@,
            r.resident_bytes == pinned(self.layers@, self.actions@, self.actions@.len()),
            r.ring_bytes == ring_reserve(self.layers@, self.actions@, self.ring_slots as nat),
            r.resident_bytes + r.ring_bytes <= self.budget,
    {
        let held: (u64, u64) = match fit(
            &self.layers,
            &self.actions,
            self.ring_slots,
            self.budget,
        ) {
            Some(h) => h,
            None => (0, 0),
        };
        OverlayPlan {
            actions: copy_actions(&self.actions),
            resident_bytes: held.0,
            ring_bytes: held.1,
        }
    }
}

/// A copy of an assignment.
fn copy_actions(v: &Vec<LayerAction>) -> (r: Vec<LayerAction>)
    ensures
        r@ == v@,
{
    let mut out: Vec<LayerAction> = Vec::new();
    let mut i: usize = 0;
    while i < v.len()
        invariant
            i <= v@.len(),
            out@ == v@.take(i as int),
        decreases v@.len() - i,
    {
        out.push(v[i]);
        assert(v@.take(i + 1) =~= v@.take(i as int).push(v@[i as int]));
        i += 1;
    }
    assert(v@.take(i as int) =~= v@);
    out
}

/// Every layer's cheapest action as if the budget were infinite.
pub open spec fn unconstrained(layers: Seq<LayerRank>) -> Seq<LayerAction> {
    layers.map(|i: int, l: LayerRank| unconstrained_action(l))
}

/// Choose per-layer placements: every layer's cheapest action, then eviction
/// until the plan fits. What is returned is ready for the exchange against
/// the full price.
pub fn plan(layers: Vec<LayerRank>, vram_budget_bytes: u64, ring_slots: usize) -> (r: PlanSearch)
    ensures
        r.wf(),
        r.layers@ == layers@,
        r.ring_slots == ring_slots,
        r.budget == vram_budget_bytes,
        r.actions@ == fitted(
            layers@,
            unconstrained(layers@),
            ring_slots as nat,
            vram_budget_bytes,
        ),
        r.sweep == 0,
        r.layer == 0,
        r.cand == 0,
        !r.improved,
        r.done == (layers@.len() == 0),
{
    let n: usize = layers.len();
    let mut actions: Vec<LayerAction> = Vec::new();
    let mut i: usize = 0;
    while i < n
        invariant
            n == layers@.len(),
            i <= n,
            actions@.len() == i,
            forall|k: int|
                0 <= k < i ==> (#[trigger] actions@[k]) == unconstrained_action(layers@[k]),
        decreases n - i,
    {
        let l: LayerRank = layers[i];
        let a: LayerAction = if is_at_most(l.gpu, l.stream) && is_at_most(l.gpu, l.host) {
            LayerAction::Resident
        } else if is_at_most(l.stream, l.host) {
            LayerAction::Stream
        } else {
            LayerAction::Host
        };
        actions.push(a);
        i += 1;
    }
    assert(actions@ =~= unconstrained(layers@));
    let ghost goal = fitted(layers@, actions@, ring_slots as nat, vram_budget_bytes);
    proof {
        eviction_ends_in_a_fit(layers@, actions@, ring_slots as nat, vram_budget_bytes);
    }
    let mut settled_down: bool = false;
    while !settled_down
        invariant
            n == layers@.len(),
            actions@.len() == n,
            goal.len() == n,
            fits(layers@, goal, ring_slots as nat, vram_budget_bytes),
            !settled_down ==> goal == fitted(
                layers@,
                actions@,
                ring_slots as nat,
                vram_budget_bytes,
            ),
            settled_down ==> actions@ == goal,
        decreases
                residents(actions@, actions@.len()),
                (if settled_down {
                    0int
                } else {
                    1int
                }),
    {
        let now: Option<(u64, u64)> = fit(&layers, &actions, ring_slots, vram_budget_bytes);
        if now.is_some() {
            settled_down = true;
        } else {
            let mut best: Option<usize> = None;
            let mut k: usize = 0;
            while k < n
                invariant
                    n == layers@.len(),
                    actions@.len() == n,
                    k <= n,
                    match best {
                        Some(b) => b < k && victim(layers@, actions@, k as nat) == Some(
                            b as int,
                        ),
                        None => victim(layers@, actions@, k as nat) is None,
                    },
                decreases n - k,
            {
                if actions[k] == LayerAction::Resident {
                    match best {
                        Some(b) => {
                            if is_below(layers[k].penalty, layers[b].penalty) {
                                best = Some(k);
                            }
                        },
                        None => {
                            best = Some(k);
                        },
                    }
                }
                k += 1;
            }
            proof {
                lemma_victim(layers@, actions@, actions@.len());
            }
            match best {
                Some(v) => {
                    let l: LayerRank = layers[v];
                    let a: LayerAction = if is_below(l.stream, l.host) {
                        LayerAction::Stream
                    } else {
                        LayerAction::Host
                    };
                    proof {
                        lemma_evicting_counts(actions@, v as int, a, actions@.len());
                    }
                    actions.set(v, a);
                },
                None => {
                    let ghost before = actions@;
                    let mut k: usize = 0;
                    while k < n
                        invariant
                            n == before.len(),
                            actions@.len() == n,
                            k <= n,
                            forall|q: int|
                                0 <= q < k ==> (#[trigger] actions@[q]) == unstreamed(before)[q],
                            forall|q: int| k <= q < n ==> (#[trigger] actions@[q]) == before[q],
                        decreases n - k,
                    {
                        if actions[k] == LayerAction::Stream {
                            actions.set(k, LayerAction::Host);
                        }
                        k += 1;
                    }
                    assert(actions@ =~= unstreamed(before));
                    proof {
                        assert forall|q: int| 0 <= q < n implies (#[trigger] actions@[q])
                            != LayerAction::Resident by {
                            assert(before[q] != LayerAction::Resident);
                        }
                        lemma_no_residents(before, before.len());
                        lemma_no_residents(actions@, actions@.len());
                    }
                    settled_down = true;
                },
            }
        }
    }
    PlanSearch {
        layers,
        ring_slots,
        budget: vram_budget_bytes,
        actions,
        sweep: 0,
        layer: 0,
        cand: 0,
        improved: false,
        done: n == 0,
    }
}

/// Nothing resident: none counted.
proof fn lemma_no_residents(actions: Seq<LayerAction>, n: nat)
    requires
        n <= actions.len(),
        forall|i: int|
            0 <= i < actions.len() ==> (#[trigger] actions[i]) != LayerAction::Resident,
    ensures
        residents(actions, n) == 0,
    decreases n,
{
    if n > 0 {
        lemma_no_residents(actions, (n - 1) as nat);
    }
}

/// The largest of a list of sizes, 0 for none.
pub open spec fn largest(bytes: Seq<u64>) -> nat
    decreases bytes.len(),
{
    if bytes.len() == 0 {
        0
    } else {
        let rest = largest(bytes.drop_last());
        if bytes.last() > rest {
            bytes.last() as nat
        } else {
            rest
        }
    }
}

/// The device memory a model needs to run every layer through the ring: the
/// slots, each as large as the largest layer, the activations and the KV
/// cache, saturating.
pub fn min_vram_bytes(
    layers: &Vec<u64>,
    ring_slots: usize,
    activation_reserve_bytes: u64,
    kv_bytes: u64,
) -> (r: u64)
    ensures
        ({
            let need = ring_slots as nat * largest(layers@) + activation_reserve_bytes + kv_bytes;
            r == if need > u64::MAX {
                u64::MAX as int
            } else {
                need
            }
        }),
{
    let mut wide: u64 = 0;
    let mut i: usize = 0;
    assert(layers@.take(0) =~= Seq::<u64>::empty());
    while i < layers.len()
        invariant
            i <= layers@.len(),
            wide == largest(layers@.take(i as int)),
        decreases layers@.len() - i,
    {
        let ghost next = layers@.take(i + 1);
        assert(next.drop_last() =~= layers@.take(i as int));
        assert(next.last() == layers@[i as int]);
        if layers[i] > wide {
            wide = layers[i];
        }
        i += 1;
    }
    assert(layers@.take(i as int) =~= layers@);
    assert(0 <= ring_slots as nat * largest(layers@));
    let ring: u64 = match (ring_slots as u64).checked_mul(wide) {
        Some(v) => v,
        None => u64::MAX,
    };
    ring.saturating_add(activation_reserve_bytes).saturating_add(kv_bytes)
}

/// Depth costs bandwidth, never capacity: adding layers no larger than the
/// largest leaves the largest, and with it the memory needed, unchanged.
pub proof fn depth_costs_no_memory(layers: Seq<u64>, more: Seq<u64>)
    requires
        forall|i: int| 0 <= i < more.len() ==> (#[trigger] more[i]) <= largest(layers),
    ensures
        largest(layers + more) == largest(layers),
    decreases more.len(),
{
    if more.len() == 0 {
        assert(layers + more =~= layers);
    } else {
        let fewer = more.drop_last();
        assert forall|i: int| 0 <= i < fewer.len() implies (#[trigger] fewer[i])
            <= largest(layers) by {
            assert(fewer[i] == more[i]);
        }
        depth_costs_no_memory(layers, fewer);
        assert((layers + more).drop_last() =~= layers + fewer);
        assert((layers + more).last() == more[more.len() - 1]);
    }
}

/// The sizes of a list of layers.
pub open spec fn sizes(layers: Seq<LayerRank>) -> Seq<u64> {
    layers.map(|i: int, l: LayerRank| l.bytes)
}

/// A plan that streams every layer fits in the ring alone, whatever the
/// depth: `ring_slots` times the largest layer is budget enough.
pub proof fn streaming_fits_in_the_ring(
    layers: Seq<LayerRank>,
    actions: Seq<LayerAction>,
    ring_slots: nat,
    budget: u64,
)
    requires
        layers.len() == actions.len(),
        forall|i: int| 0 <= i < actions.len() ==> (#[trigger] actions[i]) == LayerAction::Stream,
        ring_slots * largest(sizes(layers)) <= budget,
    ensures
        fits(layers, actions, ring_slots, budget),
{
    lemma_all_streamed(layers, actions, actions.len());
    assert(sizes(layers).take(actions.len() as int) =~= sizes(layers));
}

/// All streamed: nothing pinned, and the widest is the largest.
proof fn lemma_all_streamed(layers: Seq<LayerRank>, actions: Seq<LayerAction>, n: nat)
    requires
        layers.len() == actions.len(),
        n <= actions.len(),
        forall|i: int| 0 <= i < actions.len() ==> (#[trigger] actions[i]) == LayerAction::Stream,
    ensures
        pinned(layers, actions, n) == 0,
        widest(layers, actions, n) == largest(sizes(layers).take(n as int)),
    decreases n,
{
    if n > 0 {
        lemma_all_streamed(layers, actions, (n - 1) as nat);
        let t = sizes(layers).take(n as int);
        assert(t.drop_last() =~= sizes(layers).take(n - 1));
        assert(t.last() == layers[n - 1].bytes);
        assert(actions[n - 1] == LayerAction::Stream);
    }
}

/// The block count with the least price: `keys[n - 1]` ranks the price of `n`
/// blocks, and ties keep the smaller count. A price that is not a number never
/// replaces another, and is never replaced.
pub fn best_row_blocks(keys: &Vec<Option<u64>>) -> (r: usize)
    requires
        keys@.len() > 0,
    ensures
        1 <= r <= keys@.len(),
        keys@[0] is None ==> r == 1,
        keys@[0] is Some ==> {
            &&& keys@[r - 1] is Some
            &&& forall|i: int|
                0 <= i < keys@.len() && (#[trigger] keys@[i]) is Some ==> at_most(
                    keys@[r - 1],
                    keys@[i],
                )
            &&& forall|i: int|
                0 <= i < r - 1 && (#[trigger] keys@[i]) is Some ==> below(keys@[r - 1], keys@[i])
        },
{
    let mut best: usize = 0;
    let mut i: usize = 1;
    while i < keys.len()
        invariant
            1 <= i <= keys@.len(),
            best < i,
            keys@[0] is None ==> best == 0,
            keys@[0] is Some ==> {
                &&& keys@[best as int] is Some
                &&& forall|k: int|
                    0 <= k < i && (#[trigger] keys@[k]) is Some ==> at_most(
                        keys@[best as int],
                        keys@[k],
                    )
                &&& forall|k: int|
                    0 <= k < best && (#[trigger] keys@[k]) is Some ==> below(
                        keys@[best as int],
                        keys@[k],
                    )
            },
        decreases keys@.len() - i,
    {
        if is_below(keys[i], keys[best]) {
            best = i;
        }
        i += 1;
    }
    best + 1
}

/// One row block landing during a blocked upload.
#[derive(Debug, Clone, Copy, PartialEq, Eq, Structural)]
pub struct Block {
    /// The layer being uploaded.
    pub layer: usize,
    /// This block's index, `0..of`.
    pub index: usize,
    /// Total blocks in this upload.
    pub of: usize,
}

/// Something that can make one layer's weights device-resident.
pub trait SlotStage: Send + Sync {
    /// The device-resident handle that an upload gives.
    type Payload: Send;

    /// Make a layer's weights device-resident.
    fn upload(&self, layer: usize) -> Self::Payload;

    /// Upload in row blocks, reporting each as it lands. By default one upload,
    /// reported as a single block: right for any stage, and without overlap.
    fn upload_blocks<F: FnMut(Block)>(&self, layer: usize, on_block: &mut F) -> (r: Self::Payload)
        requires
            forall|b: Block| b.layer == layer ==> #[trigger] call_requires(*old(on_block), (b,)),
        default_ensures
            call_ensures(Self::upload, (self, layer), r),
            call_ensures(*old(on_block), ((Block { layer, index: 0, of: 1 }),), ()),
    {
        let payload: Self::Payload = self.upload(layer);
        on_block(Block { layer, index: 0, of: 1 });
        payload
    }
}

} // verus!
