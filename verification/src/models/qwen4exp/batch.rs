//! A token is routed and served alike alone and in any batch: the same
//! experts with the same weights, added up in the same order.

use crate::models::qwen4exp::experts::{is_selection, row_of, Routing};
use crate::routing::{groups_from, places_of, top_is_unique};
use vstd::arithmetic::mul::lemma_mul_inequality;
use vstd::prelude::*;

verus! {

/// The slots of token `t` among some routed places, `k` slots per token, in
/// the order of the places.
pub open spec fn slots_in(places: Seq<int>, k: nat, t: int) -> Seq<int>
    decreases places.len(),
{
    if places.len() == 0 {
        Seq::empty()
    } else {
        let rest = slots_in(places.drop_last(), k, t);
        if places.last() / (k as int) == t {
            rest.push(places.last() % (k as int))
        } else {
            rest
        }
    }
}

/// What one expert adds to token `t`: itself with each slot, in order.
pub open spec fn terms_of(expert: u32, slots: Seq<int>) -> Seq<(u32, int)> {
    slots.map(|i: int, s: int| (expert, s))
}

/// What is added to token `t` when the groups are worked off in order: the
/// expert and the token's slot of each addition.
pub open spec fn terms(groups: Seq<(u32, Seq<int>)>, k: nat, t: int) -> Seq<(u32, int)>
    decreases groups.len(),
{
    if groups.len() == 0 {
        Seq::empty()
    } else {
        terms_of(groups[0].0, slots_in(groups[0].1, k, t)) + terms(groups.drop_first(), k, t)
    }
}

/// A token's additions, read off its own row of ids: its experts from `from`
/// on, ascending.
spec fn own_terms(row: Seq<u32>, from: nat, n_experts: nat) -> Seq<(u32, int)>
    decreases n_experts - from,
{
    if from >= n_experts {
        Seq::empty()
    } else {
        terms_of(from as u32, places_of(row, from as u32, row.len())) + own_terms(
            row,
            from + 1,
            n_experts,
        )
    }
}

/// How many of token `t`'s slots lie among the first `n` places.
spec fn slots_before(n: int, k: nat, t: int) -> nat {
    if n <= t * k {
        0
    } else if n >= t * k + k {
        k
    } else {
        (n - t * k) as nat
    }
}

/// The places of an expert that belong to a token are the slots of the
/// token's row that name the expert.
proof fn lemma_slots_in(ids: Seq<u32>, e: u32, n: nat, k: nat, t: int)
    requires
        k > 0,
        t >= 0,
        n <= ids.len(),
        t * k + k <= ids.len(),
    ensures
        slots_in(places_of(ids, e, n), k, t) == places_of(
            row_of(ids, k as int, t),
            e,
            slots_before(n as int, k, t),
        ),
    decreases n,
{
    assert(0 <= t * k) by (nonlinear_arith)
        requires
            t >= 0,
    ;
    if n > 0 {
        let m = n - 1;
        lemma_slots_in(ids, e, m as nat, k, t);
        let kk = k as int;
        let q = m / kk;
        vstd::arithmetic::div_mod::lemma_fundamental_div_mod(m, kk);
        vstd::arithmetic::div_mod::lemma_mod_bound(m, kk);
        assert(q == t <==> t * kk <= m < t * kk + kk) by (nonlinear_arith)
            requires
                m == kk * q + m % kk,
                0 <= m % kk < kk,
        ;
        if q == t {
            assert(kk * t == t * kk) by (nonlinear_arith);
            assert(m % kk == m - t * kk);
            assert(row_of(ids, kk, t)[m - t * kk] == ids[m]);
        }
        let before = places_of(ids, e, m as nat);
        if ids[m] == e {
            assert(places_of(ids, e, n).drop_last() =~= before);
        }
    }
}

/// All additions to a token are those read off its own row.
proof fn lemma_terms(ids: Seq<u32>, k: nat, t: int, from: nat, n_experts: nat)
    requires
        k > 0,
        t >= 0,
        t * k + k <= ids.len(),
    ensures
        terms(groups_from(ids, from, n_experts), k, t) == own_terms(
            row_of(ids, k as int, t),
            from,
            n_experts,
        ),
    decreases n_experts - from,
{
    if from < n_experts {
        lemma_terms(ids, k, t, from + 1, n_experts);
        lemma_slots_in(ids, from as u32, ids.len(), k, t);
        let mine = places_of(ids, from as u32, ids.len());
        let rest = groups_from(ids, from + 1, n_experts);
        let row = row_of(ids, k as int, t);
        assert(0 <= t * k) by (nonlinear_arith)
            requires
                t >= 0,
        ;
        assert(row.len() == k);
        assert(slots_in(mine, k, t) == places_of(row, from as u32, k));
        if mine.len() == 0 {
            assert(terms_of(from as u32, slots_in(mine, k, t)) =~= Seq::<(u32, int)>::empty());
            assert(own_terms(row, from, n_experts) =~= own_terms(row, from + 1, n_experts));
        } else {
            let all = groups_from(ids, from, n_experts);
            assert(all.drop_first() =~= rest);
            assert(all[0] == (from as u32, mine));
        }
    }
}

/// A token is served by the same experts, in the same order, with the same
/// slots, alone and in any batch.
pub proof fn a_token_is_served_as_alone(ids: Seq<u32>, k: nat, t: int, n_experts: nat)
    requires
        k > 0,
        t >= 0,
        t * k + k <= ids.len(),
    ensures
        terms(groups_from(ids, 0, n_experts), k, t) == terms(
            groups_from(row_of(ids, k as int, t), 0, n_experts),
            k,
            0,
        ),
{
    let row = row_of(ids, k as int, t);
    assert(0 <= t * k) by (nonlinear_arith)
        requires
            t >= 0,
    ;
    assert(0 * k == 0) by (nonlinear_arith);
    lemma_terms(ids, k, t, 0, n_experts);
    lemma_terms(row, k, 0, 0, n_experts);
    assert(row_of(row, k as int, 0) =~= row);
}

/// A token is routed alike alone and in any batch: selecting from its row of
/// probabilities alone gives the experts and the weights that it has in the
/// batch.
pub proof fn a_token_routes_as_alone(
    batch: Routing,
    alone: Routing,
    probs: Seq<u32>,
    n: nat,
    n_experts: nat,
    k: nat,
    t: int,
)
    requires
        1 <= k <= n_experts <= u32::MAX,
        0 <= t < n,
        probs.len() == n * n_experts,
        is_selection(batch, probs, n, n_experts, k),
        is_selection(alone, row_of(probs, n_experts as int, t), 1, n_experts, k),
    ensures
        alone.ids@ == row_of(batch.ids@, k as int, t),
        alone.weights@ == row_of(batch.weights@, k as int, t),
{
    let e = n_experts as int;
    let kk = k as int;
    lemma_mul_inequality(t + 1, n as int, e);
    lemma_mul_inequality(t + 1, n as int, kk);
    assert((t + 1) * e == t * e + e) by (nonlinear_arith);
    assert((t + 1) * kk == t * kk + kk) by (nonlinear_arith);
    assert(0 <= t * e && 0 <= t * kk) by (nonlinear_arith)
        requires
            0 <= t,
            0 <= e,
            0 <= kk,
    ;
    assert(0 * e == 0 && 0 * kk == 0 && 1 * k == k) by (nonlinear_arith);
    let row = row_of(probs, e, t);
    assert(row_of(row, e, 0) =~= row);
    assert(row_of(alone.ids@, kk, 0) =~= alone.ids@);
    assert(row_of(alone.weights@, kk, 0) =~= alone.weights@);
    top_is_unique(row, alone.ids@, row_of(batch.ids@, kk, t), k);
    assert forall|s: int| 0 <= s < k implies alone.weights@[s] == row_of(
        batch.weights@,
        kk,
        t,
    )[s] by {
        assert(row_of(alone.weights@, kk, 0)[s] == row[row_of(alone.ids@, kk, 0)[s] as int]);
    }
    assert(alone.weights@ =~= row_of(batch.weights@, kk, t));
}

} // verus!
