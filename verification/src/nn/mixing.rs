//! What a mixture of experts does, place by place: which tokens an expert
//! serves and with which weights, where a pool keeps an expert, and what it
//! counts.

use crate::nn::moe::{
    bytes_on, credit_shares, credit_whole, forward_flaw, hits_upto, in_service, layer_start,
    mixture_weight, routed_apart, serves_routed, slot_of, Counters, ExpertPool, MoeShape, Routing,
    Served, Share, Slot, SparseMoeConfig, StagedExpert,
};
use crate::routing::{places_are_the_routed_ones, places_of};
use vstd::arithmetic::div_mod::{lemma_fundamental_div_mod, lemma_fundamental_div_mod_converse};
use vstd::prelude::*;

verus! {

/// The slot of an expert is a slot that chose it, the first.
proof fn lemma_slot(ids: Seq<u32>, base: int, k: nat, e: int, s: int, a: int)
    requires
        0 <= s <= a < k,
        ids[base + a] == e,
        forall|b: int| s <= b < a ==> #[trigger] ids[base + b] != e,
    ensures
        slot_of(ids, base, k, e, s) == Some(a),
    decreases a - s,
{
    if s < a {
        assert(ids[base + s] != e);
        lemma_slot(ids, base, k, e, s + 1, a);
    }
}

/// An expert that no slot chose has none.
proof fn lemma_no_slot(ids: Seq<u32>, base: int, k: nat, e: int, s: int)
    requires
        0 <= s <= k,
        forall|b: int| s <= b < k ==> #[trigger] ids[base + b] != e,
    ensures
        slot_of(ids, base, k, e, s) is None,
    decreases k - s,
{
    if s < k {
        assert(ids[base + s] != e);
        lemma_no_slot(ids, base, k, e, s + 1);
    }
}

/// In a token's row of the mixture stands, at each expert that it chose, the
/// weight beside that choice, and zero at every other.
pub proof fn a_mixture_row_holds_the_chosen_weights(
    ids: Seq<u32>,
    vals: Seq<u32>,
    k: nat,
    t: int,
    e: int,
)
    requires
        routed_apart(ids, k, t),
    ensures
        forall|a: int|
            0 <= a < k && #[trigger] ids[t * k + a] == e ==> mixture_weight(ids, vals, k, t, e)
                == vals[t * k + a],
        (forall|a: int| 0 <= a < k ==> #[trigger] ids[t * k + a] != e) ==> mixture_weight(
            ids,
            vals,
            k,
            t,
            e,
        ) == 0,
{
    assert forall|a: int| 0 <= a < k && #[trigger] ids[t * k + a] == e implies mixture_weight(
        ids,
        vals,
        k,
        t,
        e,
    ) == vals[t * k + a] by {
        assert forall|b: int| 0 <= b < a implies #[trigger] ids[t * k + b] != e by {
            assert(ids[t * k + b] != ids[t * k + a]);
        }
        lemma_slot(ids, t * k, k, e, 0, a);
    }
    if forall|a: int| 0 <= a < k ==> #[trigger] ids[t * k + a] != e {
        lemma_no_slot(ids, t * k, k, e, 0);
    }
}

/// What stands at slot `a` of token `t`, of `k` slots each.
pub open spec fn at_slot(v: Seq<u32>, k: nat, t: int, a: int) -> u32 {
    v[t * k + a]
}

/// An expert serves a token at every slot in which the token chose it, with
/// the weight of that slot, and serves no other.
pub proof fn an_expert_serves_the_tokens_that_chose_it(
    s: Served,
    ids: Seq<u32>,
    vals: Seq<u32>,
    tokens: nat,
    k: nat,
    e: u32,
    i: int,
)
    requires
        k >= 1,
        ids.len() == tokens * k,
        0 <= i < s.rows@.len(),
        serves_routed(s, ids, vals, k, e as int),
    ensures
        s.weights@.len() == s.rows@.len(),
        exists|a: int|
            0 <= a < k && #[trigger] at_slot(ids, k, s.rows@[i] as int, a) == e && s.weights@[i]
                == at_slot(vals, k, s.rows@[i] as int, a),
        forall|t: int, a: int|
            #![trigger at_slot(ids, k, t, a)]
            0 <= t < tokens && 0 <= a < k && at_slot(ids, k, t, a) == e ==> exists|j: int|
                0 <= j < s.rows@.len() && (#[trigger] s.rows@[j]) == t && s.weights@[j] == at_slot(
                    vals,
                    k,
                    t,
                    a,
                ),
{
    let at = places_of(ids, e, ids.len());
    places_are_the_routed_ones(ids, e, ids.len());
    assert(exists|a: int|
        0 <= a < k && #[trigger] at_slot(ids, k, s.rows@[i] as int, a) == e && s.weights@[i]
            == at_slot(vals, k, s.rows@[i] as int, a)) by {
        let p = at[i];
        assert(at.contains(p));
        let a = p % (k as int);
        lemma_fundamental_div_mod(p, k as int);
        assert(k * (p / (k as int)) == (p / (k as int)) * k) by (nonlinear_arith);
        assert(s.weights@[i] == vals[at[i]]);
        assert(at_slot(ids, k, s.rows@[i] as int, a) == e);
    }
    assert forall|t: int, a: int|
        #![trigger at_slot(ids, k, t, a)]
        0 <= t < tokens && 0 <= a < k && at_slot(ids, k, t, a) == e implies exists|j: int|
        0 <= j < s.rows@.len() && (#[trigger] s.rows@[j]) == t && s.weights@[j] == at_slot(
            vals,
            k,
            t,
            a,
        ) by {
        let p = t * k + a;
        assert(0 <= p < tokens * k) by (nonlinear_arith)
            requires
                p == t * k + a,
                0 <= t < tokens,
                0 <= a < k,
        ;
        assert(at.contains(p));
        let j = choose|j: int| 0 <= j < at.len() && at[j] == p;
        lemma_fundamental_div_mod_converse(p, k as int, t, a);
        assert(s.rows@[j] == t);
        assert(s.weights@[j] == vals[at[j]]);
    }
}

/// The experts that compute are those with a token to serve, each once, in
/// ascending order.
pub proof fn work_is_for_the_experts_in_service(routing: Routing, from: int)
    requires
        0 <= from,
    ensures
        forall|e: int|
            (#[trigger] in_service(routing, from).contains(e)) <==> from <= e
                < routing.per_expert@.len() && routing.per_expert@[e].rows@.len() > 0,
        forall|i: int, j: int|
            0 <= i < j < in_service(routing, from).len() ==> (#[trigger] in_service(
                routing,
                from,
            )[i]) < (#[trigger] in_service(routing, from)[j]),
    decreases routing.per_expert@.len() - from,
{
    let all = in_service(routing, from);
    if from < routing.per_expert@.len() {
        work_is_for_the_experts_in_service(routing, from + 1);
        let rest = in_service(routing, from + 1);
        if routing.per_expert@[from].rows@.len() > 0 {
            assert(all == seq![from] + rest);
            assert(all[0] == from);
            assert forall|i: int| 0 < i < all.len() implies all[i] == rest[i - 1] && rest.contains(
                #[trigger] all[i],
            ) by {}
            assert forall|e: int| rest.contains(e) implies #[trigger] all.contains(e) by {
                let i = choose|i: int| 0 <= i < rest.len() && rest[i] == e;
                assert(all[i + 1] == e);
            }
            assert forall|i: int, j: int| 0 <= i < j < all.len() implies (#[trigger] all[i])
                < #[trigger] all[j] by {
                if i > 0 {
                    assert(rest[i - 1] < rest[j - 1]);
                }
            }
        }
    }
}

/// Routing a layer counts, for each of its experts, one hit for each token
/// that it serves, and touches no other count.
pub proof fn an_expert_is_hit_once_a_token(
    hits: Seq<u64>,
    start: int,
    routing: Routing,
    n: nat,
    i: int,
)
    requires
        n <= routing.per_expert@.len(),
        0 <= start,
        start + n <= hits.len(),
        0 <= i < hits.len(),
    ensures
        hits_upto(hits, start, routing, n).len() == hits.len(),
        hits_upto(hits, start, routing, n)[i] == if start <= i < start + n {
            hits[i].wrapping_add(routing.per_expert@[i - start].rows@.len() as u64)
        } else {
            hits[i]
        },
    decreases n,
{
    if n > 0 {
        an_expert_is_hit_once_a_token(hits, start, routing, (n - 1) as nat, i);
    }
}

/// A pass of every cluster over every row counts `tokens` hits for each
/// cluster of the layer and none elsewhere, no energy, and as many rows
/// computed as offered: `tokens` for each cluster.
pub proof fn a_whole_pass_counts_every_row(
    c: Counters,
    start: int,
    tokens: u64,
    n: nat,
    i: int,
)
    requires
        0 <= start,
        start + n <= c.hits.len(),
        c.energy.len() == c.hits.len(),
        0 <= i < c.hits.len(),
    ensures
        ({
            let r = credit_whole(c, start, tokens, n);
            &&& r.hits.len() == c.hits.len()
            &&& r.energy.len() == c.energy.len()
            &&& r.hits[i] == if start <= i < start + n {
                c.hits[i].wrapping_add(tokens)
            } else {
                c.hits[i]
            }
            &&& r.energy[i] == c.energy[i]
            &&& c.dense_rows.0 + n * tokens <= u64::MAX ==> r.dense_rows.0 == c.dense_rows.0 + n
                * tokens
            &&& c.dense_rows.1 + n * tokens <= u64::MAX ==> r.dense_rows.1 == c.dense_rows.1 + n
                * tokens
        }),
    decreases n,
{
    if n > 0 {
        a_whole_pass_counts_every_row(c, start, tokens, (n - 1) as nat, i);
        assert(n * tokens == (n - 1) * tokens + tokens) by (nonlinear_arith);
    }
}

/// A pass of each cluster over its own rows counts, for each cluster of the
/// layer, its rows and its energy as hits and its energy as energy, and
/// nothing elsewhere; `tokens` rows were offered to each.
pub proof fn a_sparse_pass_counts_its_shares(
    c: Counters,
    start: int,
    shares: Seq<Share>,
    tokens: u64,
    milli_energy: Seq<u64>,
    n: nat,
    i: int,
)
    requires
        0 <= start,
        n <= shares.len(),
        n <= milli_energy.len(),
        start + n <= c.hits.len(),
        c.energy.len() == c.hits.len(),
        0 <= i < c.hits.len(),
    ensures
        ({
            let r = credit_shares(c, start, shares, tokens, milli_energy, n);
            &&& r.hits.len() == c.hits.len()
            &&& r.energy.len() == c.energy.len()
            &&& r.hits[i] == if start <= i < start + n {
                c.hits[i].wrapping_add(
                    milli_energy[i - start].wrapping_add(shares[i - start].rows@.len() as u64),
                )
            } else {
                c.hits[i]
            }
            &&& r.energy[i] == if start <= i < start + n {
                c.energy[i].wrapping_add(milli_energy[i - start])
            } else {
                c.energy[i]
            }
            &&& c.dense_rows.1 + n * tokens <= u64::MAX ==> r.dense_rows.1 == c.dense_rows.1 + n
                * tokens
            &&& n > 0 ==> r.dense_rows.0 == credit_shares(
                c,
                start,
                shares,
                tokens,
                milli_energy,
                (n - 1) as nat,
            ).dense_rows.0.wrapping_add(shares[n - 1].rows@.len() as u64)
            &&& n == 0 ==> r.dense_rows.0 == c.dense_rows.0
        }),
    decreases n,
{
    if n > 0 {
        a_sparse_pass_counts_its_shares(
            c,
            start,
            shares,
            tokens,
            milli_energy,
            (n - 1) as nat,
            i,
        );
        assert(n * tokens == (n - 1) * tokens + tokens) by (nonlinear_arith);
    }
}

/// A pool keeps its layers one after another, each layer's experts in order;
/// where all layers are as long as the first, an expert's place is its layer
/// times that length and itself.
pub proof fn layers_stand_one_after_another(pool: ExpertPool, layer: int, expert: int)
    requires
        0 <= layer < pool.rows@.len(),
        0 <= expert < pool.rows@[layer],
    ensures
        pool.place(0, expert) == expert,
        pool.place(layer + 1, 0) == pool.place(layer, 0) + pool.rows@[layer],
        pool.place(layer, expert) == pool.place(layer, 0) + expert,
        (forall|l: int| 0 <= l < layer ==> #[trigger] pool.rows@[l] == pool.rows@[0])
            ==> pool.place(layer, expert) == layer * pool.rows@[0] + expert,
    decreases layer,
{
    assert(layer_start(pool.rows@, 0) == 0);
    if forall|l: int| 0 <= l < layer ==> #[trigger] pool.rows@[l] == pool.rows@[0] {
        lemma_even_layers(pool.rows@, layer as nat);
    }
}

/// The start of a layer among layers of one length.
proof fn lemma_even_layers(rows: Seq<usize>, l: nat)
    requires
        forall|i: int| 0 <= i < l ==> #[trigger] rows[i] == rows[0],
    ensures
        layer_start(rows, l) == l * rows[0],
    decreases l,
{
    if l == 0 {
        assert(l * rows[0] == 0) by (nonlinear_arith)
            requires
                l == 0,
        ;
    } else {
        assert(rows[l - 1] == rows[0]);
        lemma_even_layers(rows, (l - 1) as nat);
        assert(l * rows[0] == (l - 1) * rows[0] + rows[0]) by (nonlinear_arith);
    }
}

/// What a device holds: changing one slot frees what the slot held there and
/// takes what the new one holds there.
pub proof fn a_swap_moves_its_bytes(slots: Seq<Slot>, i: int, next: Slot, d: int, n: nat)
    requires
        0 <= i < n <= slots.len(),
    ensures
        bytes_on(slots.update(i, next), d, n) + (if slots[i].tier.device == d {
            slots[i].resident_bytes as int
        } else {
            0
        }) == bytes_on(slots, d, n) + (if next.tier.device == d {
            next.resident_bytes as int
        } else {
            0
        }),
    decreases n,
{
    if i == n - 1 {
        lemma_bytes_agree(slots, slots.update(i, next), d, (n - 1) as nat);
    } else {
        a_swap_moves_its_bytes(slots, i, next, d, (n - 1) as nat);
    }
}

/// What a device holds depends on the slots that are counted.
proof fn lemma_bytes_agree(a: Seq<Slot>, b: Seq<Slot>, d: int, n: nat)
    requires
        forall|i: int| 0 <= i < n ==> #[trigger] a[i] == b[i],
    ensures
        bytes_on(a, d, n) == bytes_on(b, d, n),
    decreases n,
{
    if n > 0 {
        assert(a[n - 1] == b[n - 1]);
        lemma_bytes_agree(a, b, d, (n - 1) as nat);
    }
}

/// A device that no slot is on holds nothing.
pub proof fn an_unused_device_holds_nothing(slots: Seq<Slot>, d: int, n: nat)
    requires
        n <= slots.len(),
        forall|i: int| 0 <= i < n ==> (#[trigger] slots[i]).tier.device != d,
    ensures
        bytes_on(slots, d, n) == 0,
    decreases n,
{
    if n > 0 {
        assert(slots[n - 1].tier.device != d);
        an_unused_device_holds_nothing(slots, d, (n - 1) as nat);
    }
}

/// A configuration is accepted exactly when it has at least two experts,
/// chooses at least one of them and no more than there are, and neither width
/// is nothing; a forward pass, when it chooses so and the input is as wide as
/// the experts.
pub proof fn a_mixture_must_fit(cfg: SparseMoeConfig, hidden: nat, expert_hidden: nat)
    ensures
        cfg.flaw() is None <==> {
            &&& 2 <= cfg.num_experts
            &&& 1 <= cfg.num_experts_per_tok <= cfg.num_experts
            &&& 1 <= cfg.hidden_size
            &&& 1 <= cfg.expert_intermediate_size
        },
        forward_flaw(
            cfg.num_experts_per_tok as nat,
            cfg.num_experts as nat,
            hidden,
            expert_hidden,
        ) is None <==> 1 <= cfg.num_experts_per_tok <= cfg.num_experts && hidden == expert_hidden,
{
}

/// What the layer is made of: the router scores each expert from the hidden
/// state; each expert's first two matrices write its intermediate width from
/// the hidden one, and the last one writes back from there.
pub proof fn an_expert_maps_the_hidden_state_to_itself(cfg: SparseMoeConfig, r: MoeShape)
    requires
        call_ensures(SparseMoeConfig::init, (&cfg,), r),
    ensures
        r.router@[0] == cfg.hidden_size,
        r.router@[1] == cfg.num_experts,
        r.gate@[0] == cfg.num_experts && r.up@[0] == cfg.num_experts && r.down@[0]
            == cfg.num_experts,
        r.gate@[2] == cfg.hidden_size && r.up@[2] == cfg.hidden_size,
        r.gate@[1] == cfg.expert_intermediate_size,
        r.up@[1] == r.gate@[1],
        r.down@[2] == r.gate@[1],
        r.down@[1] == cfg.hidden_size,
{
}

/// A staged expert computes and holds its bytes where it is staged; one that is
/// not computes on its host and holds none.
pub proof fn a_staged_expert_computes_where_it_lies(x: StagedExpert, device: usize, bytes: u64)
    requires
        call_ensures(StagedExpert::compute_device, (&x,), device),
        call_ensures(StagedExpert::resident_bytes, (&x,), bytes),
    ensures
        x.resident is None ==> device == x.host_device && bytes == 0,
        x.resident is Some ==> Some(device) == x.resident && bytes == x.bytes,
{
}

} // verus!
