//! Sparse mixture-of-experts feed-forward: which shapes are accepted, which
//! token rows each expert serves, and the bookkeeping of a pool of experts
//! that live on different devices at different precisions.

use crate::pack::Precision;
use crate::routing::{gather_rows, gathered, places, places_are_the_routed_ones, places_of};
use crate::text::{decimal, push_decimal};
use vstd::arithmetic::div_mod::{lemma_fundamental_div_mod, lemma_mod_bound};
use vstd::arithmetic::mul::lemma_mul_inequality;
use vstd::prelude::*;

verus! {

/// Shape of a sparse mixture of experts.
#[derive(Debug, Clone, Copy, PartialEq, Eq, Structural)]
pub struct SparseMoeConfig {
    pub hidden_size: usize,
    /// Per-expert intermediate width.
    pub expert_intermediate_size: usize,
    pub num_experts: usize,
    pub num_experts_per_tok: usize,
}

/// The shapes of the router and the fused banks.
#[derive(Debug, Clone, Copy, PartialEq, Eq)]
pub struct MoeShape {
    /// `[hidden, experts]`.
    pub router: [usize; 2],
    /// `[experts, intermediate, hidden]`.
    pub gate: [usize; 3],
    /// `[experts, intermediate, hidden]`.
    pub up: [usize; 3],
    /// `[experts, hidden, intermediate]`.
    pub down: [usize; 3],
}

impl SparseMoeConfig {
    /// What is wrong with the shape.
    pub open spec fn flaw(self) -> Option<Seq<char>> {
        if self.num_experts < 2 {
            Some(
                "MoE: num_experts must be >= 2 (got "@ + decimal(self.num_experts as nat)
                    + "); use SwiGluMlp for a dense FFN"@,
            )
        } else if self.num_experts_per_tok < 1 || self.num_experts_per_tok > self.num_experts {
            Some(
                "MoE: num_experts_per_tok ("@ + decimal(self.num_experts_per_tok as nat)
                    + ") must be in 1..=num_experts ("@ + decimal(self.num_experts as nat)
                    + ")"@,
            )
        } else if self.hidden_size < 1 || self.expert_intermediate_size < 1 {
            Some("MoE: hidden_size and expert_intermediate_size must be >= 1"@)
        } else {
            None
        }
    }

    /// What is wrong with the shape.
    pub fn complaint(&self) -> (r: Option<String>)
        ensures
            match r {
                Some(m) => self.flaw() == Some(m@),
                None => self.flaw() is None,
            },
    {
        if self.num_experts < 2 {
            let mut m: String = String::new();
            m.append("MoE: num_experts must be >= 2 (got ");
            push_decimal(&mut m, self.num_experts as u64);
            m.append("); use SwiGluMlp for a dense FFN");
            return Some(m);
        }
        if self.num_experts_per_tok < 1 || self.num_experts_per_tok > self.num_experts {
            let mut m: String = String::new();
            m.append("MoE: num_experts_per_tok (");
            push_decimal(&mut m, self.num_experts_per_tok as u64);
            m.append(") must be in 1..=num_experts (");
            push_decimal(&mut m, self.num_experts as u64);
            m.append(")");
            return Some(m);
        }
        if self.hidden_size < 1 || self.expert_intermediate_size < 1 {
            return Some("MoE: hidden_size and expert_intermediate_size must be >= 1".to_owned());
        }
        None
    }

    /// The shapes of the module.
    pub fn init(&self) -> (r: MoeShape)
        requires
            self.flaw() is None,
        ensures
            r.router@ == seq![self.hidden_size, self.num_experts],
            r.gate@ == seq![self.num_experts, self.expert_intermediate_size, self.hidden_size],
            r.up@ == seq![self.num_experts, self.expert_intermediate_size, self.hidden_size],
            r.down@ == seq![self.num_experts, self.hidden_size, self.expert_intermediate_size],
    {
        let e: usize = self.num_experts;
        let h: usize = self.hidden_size;
        let inter: usize = self.expert_intermediate_size;
        let r: MoeShape = MoeShape {
            router: [h, e],
            gate: [e, inter, h],
            up: [e, inter, h],
            down: [e, h, inter],
        };
        assert(r.router@ =~= seq![h, e]);
        assert(r.gate@ =~= seq![e, inter, h]);
        assert(r.up@ =~= seq![e, inter, h]);
        assert(r.down@ =~= seq![e, h, inter]);
        r
    }
}

/// What is wrong with running the top `top_k` of `experts` experts of width
/// `expert_hidden` on inputs of width `hidden`.
pub open spec fn forward_flaw(top_k: nat, experts: nat, hidden: nat, expert_hidden: nat) -> Option<
    Seq<char>,
> {
    if top_k < 1 || top_k > experts {
        Some(
            "MoE forward: top_k ("@ + decimal(top_k) + ") must be in 1..=num_experts ("@ + decimal(
                experts,
            ) + ")"@,
        )
    } else if hidden != expert_hidden {
        Some(
            "MoE forward: input hidden "@ + decimal(hidden) + " does not match expert hidden "@
                + decimal(expert_hidden),
        )
    } else {
        None
    }
}

/// What is wrong with a forward of these sizes.
pub fn forward_complaint(top_k: usize, experts: usize, hidden: usize, expert_hidden: usize) -> (r:
    Option<String>)
    ensures
        match r {
            Some(m) => forward_flaw(
                top_k as nat,
                experts as nat,
                hidden as nat,
                expert_hidden as nat,
            ) == Some(m@),
            None => forward_flaw(
                top_k as nat,
                experts as nat,
                hidden as nat,
                expert_hidden as nat,
            ) is None,
        },
{
    if top_k < 1 || top_k > experts {
        let mut m: String = String::new();
        m.append("MoE forward: top_k (");
        push_decimal(&mut m, top_k as u64);
        m.append(") must be in 1..=num_experts (");
        push_decimal(&mut m, experts as u64);
        m.append(")");
        return Some(m);
    }
    if hidden != expert_hidden {
        let mut m: String = String::new();
        m.append("MoE forward: input hidden ");
        push_decimal(&mut m, hidden as u64);
        m.append(" does not match expert hidden ");
        push_decimal(&mut m, expert_hidden as u64);
        return Some(m);
    }
    None
}

/// The first slot from `s` on, of the `k` slots at `base`, routed to expert
/// `e`.
pub open spec fn slot_of(ids: Seq<u32>, base: int, k: nat, e: int, s: int) -> Option<int>
    decreases k - s,
{
    if s < 0 || s >= k {
        None
    } else if ids[base + s] == e {
        Some(s)
    } else {
        slot_of(ids, base, k, e, s + 1)
    }
}

/// The mixture weight of expert `e` for token `t`: that of its slot, and
/// exactly zero for an expert the token was not routed to.
pub open spec fn mixture_weight(ids: Seq<u32>, vals: Seq<u32>, k: nat, t: int, e: int) -> u32 {
    match slot_of(ids, t * k, k, e, 0) {
        Some(s) => vals[t * k + s],
        None => 0,
    }
}

/// Are the `k` slots of token `t` routed to different experts, as the top `k`
/// of one ranking are?
pub open spec fn routed_apart(ids: Seq<u32>, k: nat, t: int) -> bool {
    forall|a: int, b: int|
        0 <= a < b < k ==> #[trigger] ids[t * k + a] != #[trigger] ids[t * k + b]
}

/// The dense mixture rows of the dense-mask path, `[tokens, experts]`: the
/// routed weight where an expert is in the token's top `k`, exact zero
/// elsewhere.
pub fn mixture_rows(ids: &Vec<u32>, vals: &Vec<u32>, tokens: usize, k: usize, experts: usize) -> (r:
    Vec<u32>)
    requires
        ids@.len() == tokens * k,
        vals@.len() == tokens * k,
        tokens * experts <= usize::MAX,
        forall|t: int| 0 <= t < tokens ==> #[trigger] routed_apart(ids@, k as nat, t),
    ensures
        r@.len() == tokens * experts,
        forall|t: int, e: int|
            0 <= t < tokens && 0 <= e < experts ==> #[trigger] cell(r@, experts as int, t, e)
                == mixture_weight(ids@, vals@, k as nat, t, e),
{
    let mut out: Vec<u32> = Vec::new();
    let mut t: usize = 0;
    assert(0 * experts == 0) by (nonlinear_arith);
    while t < tokens
        invariant
            t <= tokens,
            ids@.len() == tokens * k,
            vals@.len() == tokens * k,
            tokens * experts <= usize::MAX,
            out@.len() == t * experts,
            forall|a: int, e: int|
                0 <= a < t && 0 <= e < experts ==> #[trigger] cell(out@, experts as int, a, e)
                    == mixture_weight(ids@, vals@, k as nat, a, e),
        decreases tokens - t,
    {
        let ghost before = out@;
        proof {
            lemma_mul_inequality(t + 1, tokens as int, k as int);
            assert((t + 1) * k == t * k + k) by (nonlinear_arith);
            assert(0 <= t * k) by (nonlinear_arith);
            assert(ids.len() == ids@.len());
        }
        let base: usize = t * k;
        let mut e: usize = 0;
        while e < experts
            invariant
                t < tokens,
                base == t * k,
                base + k <= ids@.len(),
                ids@.len() == vals@.len(),
                ids@.len() <= usize::MAX,
                before.len() == t * experts,
                out@.len() == t * experts + e,
                e <= experts,
                forall|q: int| 0 <= q < before.len() ==> out@[q] == before[q],
                forall|x: int| 0 <= x < e ==> #[trigger] out@[t * experts + x] == mixture_weight(
                    ids@,
                    vals@,
                    k as nat,
                    t as int,
                    x,
                ),
            decreases experts - e,
        {
            let mut weight: u32 = 0;
            let mut found: bool = false;
            let mut s: usize = 0;
            while s < k && !found
                invariant
                    s <= k,
                    base == t * k,
                    base + k <= ids@.len(),
                    ids@.len() == vals@.len(),
                    ids@.len() <= usize::MAX,
                    !found ==> weight == 0 && slot_of(ids@, base as int, k as nat, e as int, 0)
                        == slot_of(ids@, base as int, k as nat, e as int, s as int),
                    found ==> weight == mixture_weight(
                        ids@,
                        vals@,
                        k as nat,
                        t as int,
                        e as int,
                    ),
                decreases k - s,
            {
                if ids[base + s] as usize == e {
                    weight = vals[base + s];
                    found = true;
                }
                s += 1;
            }
            out.push(weight);
            e += 1;
        }
        proof {
            assert((t + 1) * experts == t * experts + experts) by (nonlinear_arith);
            assert forall|a: int, e: int|
                0 <= a < t + 1 && 0 <= e < experts implies #[trigger] cell(
                out@,
                experts as int,
                a,
                e,
            ) == mixture_weight(ids@, vals@, k as nat, a, e) by {
                if a < t {
                    lemma_mul_inequality(a + 1, t as int, experts as int);
                    assert((a + 1) * experts == a * experts + experts) by (nonlinear_arith);
                    assert(0 <= a * experts) by (nonlinear_arith)
                        requires
                            0 <= a,
                    ;
                    assert(cell(before, experts as int, a, e) == mixture_weight(
                        ids@,
                        vals@,
                        k as nat,
                        a,
                        e,
                    ));
                }
            }
        }
        t += 1;
    }
    out
}

/// Cell `(t, e)` of a row-major matrix `width` wide.
pub open spec fn cell(v: Seq<u32>, width: int, t: int, e: int) -> u32 {
    v[t * width + e]
}

/// The token rows one expert serves, with the weight of each.
#[derive(Debug)]
pub struct Served {
    pub rows: Vec<usize>,
    pub weights: Vec<u32>,
}

/// One batch's routing decision: for every expert, the token rows it serves
/// and their weights.
#[derive(Debug)]
pub struct Routing {
    pub tokens: usize,
    pub per_expert: Vec<Served>,
}

/// Expert `e` serves exactly the rows routed to it, in order.
pub open spec fn serves_routed(
    s: Served,
    ids: Seq<u32>,
    vals: Seq<u32>,
    k: nat,
    e: int,
) -> bool {
    let at = places_of(ids, e as u32, ids.len());
    &&& s.rows@.len() == at.len()
    &&& s.weights@.len() == at.len()
    &&& forall|i: int| 0 <= i < at.len() ==> (#[trigger] s.rows@[i]) == at[i] / (k as int)
    &&& forall|i: int| 0 <= i < at.len() ==> (#[trigger] s.weights@[i]) == vals[at[i]]
}

/// The routing of `tokens` tokens to their top `k` of `experts` experts:
/// `ids` and `vals` hold `k` slots per token.
pub fn route(ids: &Vec<u32>, vals: &Vec<u32>, tokens: usize, k: usize, experts: usize) -> (r:
    Routing)
    requires
        1 <= k <= experts <= u32::MAX,
        ids@.len() == tokens * k,
        vals@.len() == tokens * k,
        forall|i: int| 0 <= i < ids@.len() ==> (#[trigger] ids@[i]) < experts,
    ensures
        r.tokens == tokens,
        r.per_expert@.len() == experts,
        forall|e: int|
            0 <= e < experts ==> serves_routed(
                #[trigger] r.per_expert@[e],
                ids@,
                vals@,
                k as nat,
                e,
            ),
        forall|e: int, i: int|
            0 <= e < experts && 0 <= i < r.per_expert@[e].rows@.len()
                ==> (#[trigger] r.per_expert@[e].rows@[i]) < tokens,
{
    let mut per_expert: Vec<Served> = Vec::new();
    let mut e: usize = 0;
    while e < experts
        invariant
            1 <= k <= experts <= u32::MAX,
            ids@.len() == tokens * k,
            vals@.len() == tokens * k,
            e <= experts,
            per_expert@.len() == e,
            forall|x: int|
                0 <= x < e ==> serves_routed(
                    #[trigger] per_expert@[x],
                    ids@,
                    vals@,
                    k as nat,
                    x,
                ),
            forall|x: int, i: int|
                0 <= x < e && 0 <= i < per_expert@[x].rows@.len()
                    ==> (#[trigger] per_expert@[x].rows@[i]) < tokens,
        decreases experts - e,
    {
        let at: Vec<usize> = places(ids, e as u32);
        let ghost listed = places_of(ids@, e as u32, ids@.len());
        assert(listed =~= at@.map(|q: int, p: usize| p as int));
        let mut rows: Vec<usize> = Vec::new();
        let mut weights: Vec<u32> = Vec::new();
        let mut i: usize = 0;
        while i < at.len()
            invariant
                k >= 1,
                ids@.len() == tokens * k,
                vals@.len() == tokens * k,
                listed == at@.map(|q: int, p: usize| p as int),
                forall|q: int| 0 <= q < at@.len() ==> (#[trigger] at@[q]) < ids@.len(),
                i <= at@.len(),
                rows@.len() == i,
                weights@.len() == i,
                forall|q: int| 0 <= q < i ==> (#[trigger] rows@[q]) == listed[q] / (k as int),
                forall|q: int| 0 <= q < i ==> (#[trigger] rows@[q]) < tokens,
                forall|q: int| 0 <= q < i ==> (#[trigger] weights@[q]) == vals@[listed[q]],
            decreases at@.len() - i,
        {
            let p: usize = at[i];
            proof {
                assert(listed[i as int] == p);
                lemma_fundamental_div_mod(p as int, k as int);
                lemma_mod_bound(p as int, k as int);
                let t = p as int / k as int;
                assert(t < tokens) by (nonlinear_arith)
                    requires
                        p < tokens * k,
                        p == k * t + p as int % k as int,
                        p as int % k as int >= 0,
                        k >= 1,
                ;
            }
            rows.push(p / k);
            weights.push(vals[p]);
            i += 1;
        }
        let ghost before = per_expert@;
        per_expert.push(Served { rows, weights });
        proof {
            assert forall|x: int, i: int|
                0 <= x < e + 1 && 0 <= i < per_expert@[x].rows@.len() implies (
            #[trigger] per_expert@[x].rows@[i]) < tokens by {
                if x < e {
                    assert(per_expert@[x] == before[x]);
                    assert(before[x].rows@[i] < tokens);
                }
            }
        }
        e += 1;
    }
    Routing { tokens, per_expert }
}

/// Rows served by the experts below `n`.
pub open spec fn rows_served(ids: Seq<u32>, n: nat) -> nat
    decreases n,
{
    if n == 0 {
        0
    } else {
        rows_served(ids, (n - 1) as nat) + places_of(ids, (n - 1) as u32, ids.len()).len()
    }
}

/// Places among the first `m` routed to an expert below `n`.
spec fn routed_below(ids: Seq<u32>, n: nat, m: nat) -> nat
    decreases m,
{
    if m == 0 {
        0
    } else {
        routed_below(ids, n, (m - 1) as nat) + (if ids[m - 1] < n {
            1nat
        } else {
            0nat
        })
    }
}

/// One more expert serves its own places.
proof fn lemma_routed_below(ids: Seq<u32>, n: nat, m: nat)
    requires
        n < u32::MAX,
        m <= ids.len(),
    ensures
        routed_below(ids, n + 1, m) == routed_below(ids, n, m) + places_of(
            ids,
            n as u32,
            m,
        ).len(),
    decreases m,
{
    if m > 0 {
        lemma_routed_below(ids, n, (m - 1) as nat);
    }
}

/// No place is routed below the first expert.
proof fn lemma_none_below(ids: Seq<u32>, m: nat)
    ensures
        routed_below(ids, 0, m) == 0,
    decreases m,
{
    if m > 0 {
        lemma_none_below(ids, (m - 1) as nat);
    }
}

/// Everything is routed below the number of experts.
proof fn lemma_all_below(ids: Seq<u32>, n: nat, m: nat)
    requires
        m <= ids.len(),
        forall|i: int| 0 <= i < ids.len() ==> (#[trigger] ids[i]) < n,
    ensures
        routed_below(ids, n, m) == m,
    decreases m,
{
    if m > 0 {
        lemma_all_below(ids, n, (m - 1) as nat);
    }
}

/// The rows served are counted by expert or by place.
proof fn lemma_rows_served(ids: Seq<u32>, n: nat)
    requires
        n <= u32::MAX,
    ensures
        rows_served(ids, n) == routed_below(ids, n, ids.len()),
    decreases n,
{
    if n == 0 {
        lemma_none_below(ids, ids.len());
    } else {
        lemma_rows_served(ids, (n - 1) as nat);
        lemma_routed_below(ids, (n - 1) as nat, ids.len());
    }
}

/// Nothing is lost or counted twice: the rows served by all experts together
/// are the routed slots.
pub proof fn every_slot_is_served_once(ids: Seq<u32>, experts: nat)
    requires
        experts <= u32::MAX,
        forall|i: int| 0 <= i < ids.len() ==> (#[trigger] ids[i]) < experts,
    ensures
        rows_served(ids, experts) == ids.len(),
{
    lemma_rows_served(ids, experts);
    lemma_all_below(ids, experts, ids.len());
}

/// What a search for an expert's slot finds: the first slot that names it.
proof fn lemma_slot_of(ids: Seq<u32>, base: int, k: nat, e: int, s: int)
    requires
        0 <= s <= k,
    ensures
        match slot_of(ids, base, k, e, s) {
            Some(x) => s <= x < k && ids[base + x] == e,
            None => forall|y: int| s <= y < k ==> ids[#[trigger] (base + y)] != e,
        },
    decreases k - s,
{
    if s < k && ids[base + s] != e {
        lemma_slot_of(ids, base, k, e, s + 1);
    }
}

/// The dense mixture and the sparse routing agree: for a token routed to `k`
/// distinct experts, an expert that serves it does so with the weight the
/// mixture gives the expert, and an expert that does not serve it has weight
/// zero there.
pub proof fn the_dense_mixture_is_the_sparse_routing(
    s: Served,
    ids: Seq<u32>,
    vals: Seq<u32>,
    tokens: nat,
    k: nat,
    t: int,
    e: int,
)
    requires
        k >= 1,
        ids.len() == tokens * k,
        0 <= t < tokens,
        0 <= e <= u32::MAX,
        serves_routed(s, ids, vals, k, e),
        routed_apart(ids, k, t),
    ensures
        forall|i: int|
            0 <= i < s.rows@.len() && (#[trigger] s.rows@[i]) == t ==> s.weights@[i]
                == mixture_weight(ids, vals, k, t, e),
        (forall|i: int| 0 <= i < s.rows@.len() ==> (#[trigger] s.rows@[i]) != t)
            ==> mixture_weight(ids, vals, k, t, e) == 0,
{
    let kk = k as int;
    let base = t * k;
    let at = places_of(ids, e as u32, ids.len());
    places_are_the_routed_ones(ids, e as u32, ids.len());
    lemma_slot_of(ids, base, k, e, 0);
    lemma_mul_inequality(t + 1, tokens as int, kk);
    assert((t + 1) * kk == t * kk + kk) by (nonlinear_arith);
    assert(0 <= base) by (nonlinear_arith)
        requires
            base == t * k,
            0 <= t,
    ;
    assert forall|i: int| 0 <= i < s.rows@.len() && (#[trigger] s.rows@[i]) == t implies s.weights@[i]
        == mixture_weight(ids, vals, k, t, e) by {
        let p = at[i];
        assert(at.contains(p));
        lemma_fundamental_div_mod(p, kk);
        lemma_mod_bound(p, kk);
        assert(kk * t == t * kk) by (nonlinear_arith);
        let x = p - base;
        assert(ids[base + x] == e);
        match slot_of(ids, base, k, e, 0) {
            None => {},
            Some(y) => {
                if x < y {
                    assert(ids[t * k + x] != ids[t * k + y]);
                }
                if y < x {
                    assert(ids[t * k + y] != ids[t * k + x]);
                }
                assert(s.weights@[i] == vals[at[i]]);
            },
        }
    }
    if forall|i: int| 0 <= i < s.rows@.len() ==> (#[trigger] s.rows@[i]) != t {
        if let Some(y) = slot_of(ids, base, k, e, 0) {
            let p = base + y;
            assert(at.contains(p));
            let i = choose|i: int| 0 <= i < at.len() && at[i] == p;
            assert(p / kk == t) by (nonlinear_arith)
                requires
                    p == t * kk + y,
                    0 <= y < kk,
            ;
            assert(s.rows@[i] == t);
        }
    }
}

/// Where and how an expert is resident.
#[derive(Debug, Clone, Copy, PartialEq, Eq, Structural)]
pub struct Tier {
    pub device: usize,
    pub precision: Precision,
}

/// One expert of the pool, as the planner sees it.
#[derive(Debug, Clone, Copy, PartialEq, Eq, Structural)]
pub struct Slot {
    pub tier: Tier,
    /// Bytes it holds on its device.
    pub resident_bytes: u64,
}

/// The bookkeeping of a tiered expert bank: layer-major, one slot per expert
/// (rows may be ragged), with routing hit and energy counters that wrap.
#[derive(Debug)]
pub struct ExpertPool {
    /// Experts of each layer.
    pub rows: Vec<usize>,
    pub slots: Vec<Slot>,
    pub hits: Vec<u64>,
    /// Output energy per expert, in thousandths.
    pub energy: Vec<u64>,
    /// Dense-path rows computed, and rows offered.
    pub dense_rows: (u64, u64),
}

/// Experts of the layers below `l`.
pub open spec fn layer_start(rows: Seq<usize>, l: nat) -> nat
    decreases l,
{
    if l == 0 {
        0
    } else {
        layer_start(rows, (l - 1) as nat) + rows[l - 1] as nat
    }
}

/// Later layers start later.
proof fn lemma_layer_start(rows: Seq<usize>, a: nat, b: nat)
    requires
        a <= b,
    ensures
        layer_start(rows, a) <= layer_start(rows, b),
    decreases b,
{
    if a < b {
        lemma_layer_start(rows, a, (b - 1) as nat);
    }
}

/// Zeros.
fn zeros(n: usize) -> (r: Vec<u64>)
    ensures
        r@ == Seq::new(n as nat, |i: int| 0u64),
{
    let mut v: Vec<u64> = Vec::new();
    let mut i: usize = 0;
    while i < n
        invariant
            i <= n,
            v@.len() == i,
            forall|k: int| 0 <= k < i ==> (#[trigger] v@[k]) == 0,
        decreases n - i,
    {
        v.push(0);
        i += 1;
    }
    assert(v@ =~= Seq::new(n as nat, |i: int| 0u64));
    v
}

/// Bytes of the first `n` slots on device `d`.
pub open spec fn bytes_on(slots: Seq<Slot>, d: int, n: nat) -> nat
    decreases n,
{
    if n == 0 {
        0
    } else {
        bytes_on(slots, d, (n - 1) as nat) + (if slots[n - 1].tier.device == d {
            slots[n - 1].resident_bytes as nat
        } else {
            0
        })
    }
}

/// Bytes only grow with the slots counted.
proof fn lemma_bytes_grow(slots: Seq<Slot>, d: int, a: nat, b: nat)
    requires
        a <= b,
    ensures
        bytes_on(slots, d, a) <= bytes_on(slots, d, b),
    decreases b,
{
    if a < b {
        lemma_bytes_grow(slots, d, a, (b - 1) as nat);
    }
}

/// The input of one expert in service.
#[derive(Debug)]
pub struct Work {
    pub expert: usize,
    pub input: Vec<u32>,
}

/// The experts from `e` on that serve any row.
pub open spec fn in_service(routing: Routing, e: int) -> Seq<int>
    decreases routing.per_expert@.len() - e,
{
    if e < 0 || e >= routing.per_expert@.len() {
        Seq::empty()
    } else if routing.per_expert@[e].rows@.len() == 0 {
        in_service(routing, e + 1)
    } else {
        seq![e] + in_service(routing, e + 1)
    }
}

/// The hits after the experts below `e` of a layer were counted.
pub open spec fn hits_upto(hits: Seq<u64>, start: int, routing: Routing, e: nat) -> Seq<u64>
    decreases e,
{
    if e == 0 {
        hits
    } else {
        let before = hits_upto(hits, start, routing, (e - 1) as nat);
        let n = routing.per_expert@[e - 1].rows@.len() as u64;
        if n == 0 {
            before
        } else {
            before.update(start + e - 1, before[start + e - 1].wrapping_add(n))
        }
    }
}

/// The rows a cluster computes: those it is kept for, in order.
pub open spec fn kept_rows(keep: Seq<bool>, n: nat) -> Seq<usize>
    decreases n,
{
    if n == 0 {
        Seq::empty()
    } else {
        let rest = kept_rows(keep, (n - 1) as nat);
        if keep[n - 1] {
            rest.push((n - 1) as usize)
        } else {
            rest
        }
    }
}

/// The counters of a pool.
pub struct Counters {
    pub hits: Seq<u64>,
    pub energy: Seq<u64>,
    pub dense_rows: (u64, u64),
}

/// The counters after the cluster at `at` computed `computed` of `offered` rows
/// with this output energy in thousandths.
pub open spec fn credit(
    c: Counters,
    at: int,
    computed: u64,
    offered: u64,
    milli_energy: u64,
) -> Counters {
    Counters {
        hits: c.hits.update(at, c.hits[at].wrapping_add(milli_energy.wrapping_add(computed))),
        energy: c.energy.update(at, c.energy[at].wrapping_add(milli_energy)),
        dense_rows: (
            c.dense_rows.0.wrapping_add(computed),
            c.dense_rows.1.wrapping_add(offered),
        ),
    }
}

/// The counters after the first `n` clusters from `start` on ran on every one
/// of `tokens` rows.
pub open spec fn credit_whole(c: Counters, start: int, tokens: u64, n: nat) -> Counters
    decreases n,
{
    if n == 0 {
        c
    } else {
        credit(
            credit_whole(c, start, tokens, (n - 1) as nat),
            start + n - 1,
            tokens,
            tokens,
            0,
        )
    }
}

/// The counters after the first `n` clusters from `start` on ran on their
/// shares of `tokens` rows.
pub open spec fn credit_shares(
    c: Counters,
    start: int,
    shares: Seq<Share>,
    tokens: u64,
    milli_energy: Seq<u64>,
    n: nat,
) -> Counters
    decreases n,
{
    if n == 0 {
        c
    } else {
        credit(
            credit_shares(c, start, shares, tokens, milli_energy, (n - 1) as nat),
            start + n - 1,
            shares[n - 1].rows@.len() as u64,
            tokens,
            milli_energy[n - 1],
        )
    }
}

/// What one cluster of a dense layer runs on: the rows it matters for and
/// their inputs.
#[derive(Debug)]
pub struct Share {
    pub rows: Vec<usize>,
    pub input: Vec<u32>,
}

/// How the clusters of a dense layer run.
#[derive(Debug)]
pub enum DenseRun {
    /// Each of this many clusters on every row.
    Whole(usize),
    /// Each cluster on its own rows.
    Shares(Vec<Share>),
}

/// The share of a cluster: `keep[r]` says whether its gate energy matters for
/// row `r`.
fn share_of(keep: &Vec<bool>, xs: &Vec<u32>, hidden: usize) -> (r: Share)
    requires
        xs@.len() == keep@.len() * hidden,
    ensures
        r.rows@ == kept_rows(keep@, keep@.len()),
        r.input@ == gathered(xs@, hidden as nat, r.rows@),
{
    let mut rows: Vec<usize> = Vec::new();
    let mut i: usize = 0;
    while i < keep.len()
        invariant
            i <= keep@.len(),
            rows@ == kept_rows(keep@, i as nat),
            forall|k: int| 0 <= k < rows@.len() ==> (#[trigger] rows@[k]) < i,
        decreases keep@.len() - i,
    {
        if keep[i] {
            rows.push(i);
        }
        i += 1;
    }
    proof {
        assert forall|k: int| 0 <= k < rows@.len() implies (#[trigger] rows@[k] + 1) * hidden
            <= xs@.len() by {
            lemma_mul_inequality(rows@[k] + 1, keep@.len() as int, hidden as int);
        }
    }
    let input: Vec<u32> = gather_rows(xs, hidden, &rows);
    Share { rows, input }
}

/// Nothing skipped is nothing lost: a cluster that is kept for every row runs
/// on all of them in order.
pub proof fn keeping_every_row_is_exact(keep: Seq<bool>, n: nat)
    requires
        n <= keep.len() <= usize::MAX,
        forall|i: int| 0 <= i < keep.len() ==> #[trigger] keep[i],
    ensures
        kept_rows(keep, n) == Seq::new(n, |i: int| i as usize),
    decreases n,
{
    if n > 0 {
        keeping_every_row_is_exact(keep, (n - 1) as nat);
        assert(keep[n - 1]);
    }
    assert(kept_rows(keep, n) =~= Seq::new(n, |i: int| i as usize));
}

/// A share is a selection of the rows: ascending, each once, exactly those the
/// cluster is kept for.
pub proof fn a_share_selects_rows(keep: Seq<bool>, n: nat)
    requires
        n <= keep.len() <= usize::MAX,
    ensures
        kept_rows(keep, n).len() <= n,
        forall|i: int, j: int|
            0 <= i < j < kept_rows(keep, n).len() ==> #[trigger] kept_rows(keep, n)[i]
                < #[trigger] kept_rows(keep, n)[j],
        forall|r: usize|
            #[trigger] kept_rows(keep, n).contains(r) <==> r < n && keep[r as int],
    decreases n,
{
    if n > 0 {
        let rest = kept_rows(keep, (n - 1) as nat);
        let all = kept_rows(keep, n);
        a_share_selects_rows(keep, (n - 1) as nat);
        assert forall|i: int| 0 <= i < rest.len() implies #[trigger] rest[i] < n - 1 by {
            assert(rest.contains(rest[i]));
        }
        assert forall|r: usize| #[trigger] all.contains(r) <==> r < n && keep[r as int] by {
            assert(rest.contains(r) <==> r < n - 1 && keep[r as int]);
            if rest.contains(r) {
                let i = choose|i: int| 0 <= i < rest.len() && rest[i] == r;
                assert(all[i] == r);
            }
            if all.contains(r) {
                let i = choose|i: int| 0 <= i < all.len() && all[i] == r;
                if i < rest.len() {
                    assert(rest[i] == r);
                }
            }
            if r == n - 1 && keep[n - 1] {
                assert(all[rest.len() as int] == r);
            }
        }
    }
}

impl ExpertPool {
    /// One slot and one counter of each kind per expert.
    pub open spec fn wf(self) -> bool {
        &&& self.slots@.len() == layer_start(self.rows@, self.rows@.len())
        &&& self.hits@.len() == self.slots@.len()
        &&& self.energy@.len() == self.slots@.len()
    }

    /// The place of an expert among all slots.
    pub open spec fn place(self, layer: int, expert: int) -> int {
        layer_start(self.rows@, layer as nat) + expert
    }

    /// Build from the experts of each layer, in order.
    pub fn new(rows: Vec<usize>, slots: Vec<Slot>) -> (r: Self)
        requires
            slots@.len() == layer_start(rows@, rows@.len()),
        ensures
            r.wf(),
            r.rows@ == rows@,
            r.slots@ == slots@,
            forall|i: int| 0 <= i < r.hits@.len() ==> (#[trigger] r.hits@[i]) == 0,
            forall|i: int| 0 <= i < r.energy@.len() ==> (#[trigger] r.energy@[i]) == 0,
            r.dense_rows == (0u64, 0u64),
    {
        let n: usize = slots.len();
        ExpertPool { rows, slots, hits: zeros(n), energy: zeros(n), dense_rows: (0, 0) }
    }

    /// Output energy per expert since the last call, in thousandths,
    /// layer-major; resets.
    pub fn take_energy(&mut self) -> (r: Vec<u64>)
        requires
            old(self).wf(),
        ensures
            final(self).wf(),
            r@ == old(self).energy@,
            forall|i: int|
                0 <= i < final(self).energy@.len() ==> (#[trigger] final(self).energy@[i]) == 0,
            final(self).rows@ == old(self).rows@,
            final(self).slots@ == old(self).slots@,
            final(self).hits@ == old(self).hits@,
            final(self).dense_rows == old(self).dense_rows,
    {
        let mut taken: Vec<u64> = zeros(self.slots.len());
        std::mem::swap(&mut taken, &mut self.energy);
        taken
    }

    /// `(rows computed, rows offered)` on the dense path since the last call;
    /// resets.
    pub fn take_dense_rows(&mut self) -> (r: (u64, u64))
        requires
            old(self).wf(),
        ensures
            final(self).wf(),
            r == old(self).dense_rows,
            final(self).dense_rows == (0u64, 0u64),
            final(self).rows@ == old(self).rows@,
            final(self).slots@ == old(self).slots@,
            final(self).hits@ == old(self).hits@,
            final(self).energy@ == old(self).energy@,
    {
        let taken: (u64, u64) = self.dense_rows;
        self.dense_rows = (0, 0);
        taken
    }

    /// Routing hits since the last call, layer-major; resets.
    pub fn take_hits(&mut self) -> (r: Vec<u64>)
        requires
            old(self).wf(),
        ensures
            final(self).wf(),
            r@ == old(self).hits@,
            forall|i: int|
                0 <= i < final(self).hits@.len() ==> (#[trigger] final(self).hits@[i]) == 0,
            final(self).rows@ == old(self).rows@,
            final(self).slots@ == old(self).slots@,
            final(self).energy@ == old(self).energy@,
            final(self).dense_rows == old(self).dense_rows,
    {
        let mut taken: Vec<u64> = zeros(self.slots.len());
        std::mem::swap(&mut taken, &mut self.hits);
        taken
    }

    /// Layers of the pool.
    pub fn num_layers(&self) -> (r: usize)
        ensures
            r == self.rows@.len(),
    {
        self.rows.len()
    }

    /// Experts of the first layer.
    pub fn experts_per_layer(&self) -> (r: usize)
        ensures
            r == (if self.rows@.len() == 0 {
                0
            } else {
                self.rows@[0]
            }),
    {
        if self.rows.len() == 0 {
            0
        } else {
            self.rows[0]
        }
    }

    /// Flat index of an expert in the planner's order: every layer as wide as
    /// the first.
    pub fn flat(&self, layer: usize, expert: usize) -> (r: usize)
        requires
            self.rows@.len() > 0,
            layer * self.rows@[0] + expert <= usize::MAX,
        ensures
            r == layer * self.rows@[0] + expert,
    {
        let per: usize = self.experts_per_layer();
        assert(0 <= layer * per) by (nonlinear_arith);
        layer * per + expert
    }

    /// Experts in a layer.
    pub fn row_len(&self, layer: usize) -> (r: usize)
        ensures
            r == (if layer < self.rows@.len() {
                self.rows@[layer as int]
            } else {
                0
            }),
    {
        if layer < self.rows.len() {
            self.rows[layer]
        } else {
            0
        }
    }

    /// The place of an expert among all slots.
    fn locate(&self, layer: usize, expert: usize) -> (r: usize)
        requires
            self.wf(),
            layer < self.rows@.len(),
            expert < self.rows@[layer as int],
        ensures
            r == self.place(layer as int, expert as int),
            r < self.slots@.len(),
    {
        let mut at: usize = 0;
        let mut l: usize = 0;
        proof {
            lemma_layer_start(self.rows@, (layer + 1) as nat, self.rows@.len());
            assert(self.slots.len() == self.slots@.len());
        }
        while l < layer
            invariant
                l <= layer < self.rows@.len(),
                at == layer_start(self.rows@, l as nat),
                layer_start(self.rows@, self.rows@.len()) <= usize::MAX,
            decreases layer - l,
        {
            proof {
                lemma_layer_start(self.rows@, (l + 1) as nat, self.rows@.len());
            }
            at = at + self.rows[l];
            l += 1;
        }
        at + expert
    }

    /// An expert.
    pub fn get(&self, layer: usize, expert: usize) -> (r: Slot)
        requires
            self.wf(),
            layer < self.rows@.len(),
            expert < self.rows@[layer as int],
        ensures
            r == self.slots@[self.place(layer as int, expert as int)],
    {
        let at: usize = self.locate(layer, expert);
        self.slots[at]
    }

    /// Replace an expert; the old one is handed back.
    pub fn swap(&mut self, layer: usize, expert: usize, next: Slot) -> (r: Slot)
        requires
            old(self).wf(),
            layer < old(self).rows@.len(),
            expert < old(self).rows@[layer as int],
        ensures
            final(self).wf(),
            r == old(self).slots@[old(self).place(layer as int, expert as int)],
            final(self).slots@ == old(self).slots@.update(
                old(self).place(layer as int, expert as int),
                next,
            ),
            final(self).rows@ == old(self).rows@,
            final(self).hits@ == old(self).hits@,
            final(self).energy@ == old(self).energy@,
            final(self).dense_rows == old(self).dense_rows,
    {
        let at: usize = self.locate(layer, expert);
        let was: Slot = self.slots[at];
        self.slots.set(at, next);
        was
    }

    /// Every expert's tier, layer-major.
    pub fn tiers(&self) -> (r: Vec<Tier>)
        ensures
            r@.len() == self.slots@.len(),
            forall|i: int| 0 <= i < r@.len() ==> (#[trigger] r@[i]) == self.slots@[i].tier,
    {
        let mut out: Vec<Tier> = Vec::new();
        let mut i: usize = 0;
        while i < self.slots.len()
            invariant
                i <= self.slots@.len(),
                out@.len() == i,
                forall|k: int| 0 <= k < i ==> (#[trigger] out@[k]) == self.slots@[k].tier,
            decreases self.slots@.len() - i,
        {
            out.push(self.slots[i].tier);
            i += 1;
        }
        out
    }

    /// Resident bytes per device index; experts on other devices do not
    /// count.
    pub fn used_bytes(&self, num_devices: usize) -> (r: Vec<u64>)
        requires
            forall|d: int|
                0 <= d < num_devices ==> #[trigger] bytes_on(
                    self.slots@,
                    d,
                    self.slots@.len(),
                ) <= u64::MAX,
        ensures
            r@.len() == num_devices,
            forall|d: int|
                0 <= d < num_devices ==> (#[trigger] r@[d]) == bytes_on(
                    self.slots@,
                    d,
                    self.slots@.len(),
                ),
    {
        let mut used: Vec<u64> = zeros(num_devices);
        let mut i: usize = 0;
        while i < self.slots.len()
            invariant
                i <= self.slots@.len(),
                used@.len() == num_devices,
                forall|d: int|
                    0 <= d < num_devices ==> #[trigger] bytes_on(
                        self.slots@,
                        d,
                        self.slots@.len(),
                    ) <= u64::MAX,
                forall|d: int|
                    0 <= d < num_devices ==> (#[trigger] used@[d]) == bytes_on(
                        self.slots@,
                        d,
                        i as nat,
                    ),
            decreases self.slots@.len() - i,
        {
            let d: usize = self.slots[i].tier.device;
            if d < num_devices {
                proof {
                    lemma_bytes_grow(self.slots@, d as int, (i + 1) as nat, self.slots@.len());
                }
                let more: u64 = used[d] + self.slots[i].resident_bytes;
                used.set(d, more);
            }
            i += 1;
        }
        used
    }

    /// Account for one expert of a dense layer that computed `computed` of
    /// `offered` rows with this output energy in thousandths.
    fn count_dense(
        &mut self,
        layer: usize,
        expert: usize,
        computed: u64,
        offered: u64,
        milli_energy: u64,
    )
        requires
            old(self).wf(),
            layer < old(self).rows@.len(),
            expert < old(self).rows@[layer as int],
        ensures
            final(self).wf(),
            final(self).rows@ == old(self).rows@,
            final(self).slots@ == old(self).slots@,
            final(self).counters() == credit(
                old(self).counters(),
                old(self).place(layer as int, expert as int),
                computed,
                offered,
                milli_energy,
            ),
    {
        let at: usize = self.locate(layer, expert);
        let hit: u64 = self.hits[at].wrapping_add(milli_energy.wrapping_add(computed));
        self.hits.set(at, hit);
        let energy: u64 = self.energy[at].wrapping_add(milli_energy);
        self.energy.set(at, energy);
        let rows: (u64, u64) = self.dense_rows;
        self.dense_rows = (rows.0.wrapping_add(computed), rows.1.wrapping_add(offered));
    }

    /// The counters.
    pub open spec fn counters(self) -> Counters {
        Counters {
            hits: self.hits@,
            energy: self.energy@,
            dense_rows: self.dense_rows,
        }
    }

    /// How the clusters of a dense layer run on `tokens` rows: nothing where
    /// the layer has none; without `keep` every cluster on every row, counted
    /// here; with it each cluster on the rows that it is kept for, to be
    /// counted by [`Self::finish_dense`] once its output is known.
    pub fn run_dense(
        &mut self,
        layer: usize,
        xs: &Vec<u32>,
        tokens: usize,
        hidden: usize,
        keep: Option<&Vec<Vec<bool>>>,
    ) -> (r: Option<DenseRun>)
        requires
            old(self).wf(),
            xs@.len() == tokens * hidden,
            keep matches Some(k) ==> {
                &&& layer < old(self).rows@.len() ==> k@.len() == old(self).rows@[layer as int]
                &&& forall|e: int| 0 <= e < k@.len() ==> (#[trigger] k@[e])@.len() == tokens
            },
        ensures
            final(self).wf(),
            final(self).rows@ == old(self).rows@,
            final(self).slots@ == old(self).slots@,
            ({
                let n = if layer < old(self).rows@.len() {
                    old(self).rows@[layer as int] as int
                } else {
                    0
                };
                if n == 0 {
                    r is None && final(self).counters() == old(self).counters()
                } else {
                    match keep {
                        None => {
                            &&& r == Some(DenseRun::Whole(n as usize))
                            &&& final(self).counters() == credit_whole(
                                old(self).counters(),
                                old(self).place(layer as int, 0),
                                tokens as u64,
                                n as nat,
                            )
                        },
                        Some(k) => {
                            &&& final(self).counters() == old(self).counters()
                            &&& r is Some
                            &&& r->0 is Shares
                            &&& r->0->Shares_0@.len() == n
                            &&& forall|e: int|
                                0 <= e < n ==> {
                                    let s = #[trigger] r->0->Shares_0@[e];
                                    &&& s.rows@ == kept_rows(k@[e]@, tokens as nat)
                                    &&& s.input@ == gathered(xs@, hidden as nat, s.rows@)
                                }
                        },
                    }
                }
            }),
    {
        let n: usize = self.row_len(layer);
        if n == 0 {
            return None;
        }
        match keep {
            None => {
                let ghost start = self.place(layer as int, 0);
                let mut e: usize = 0;
                while e < n
                    invariant
                        self.wf(),
                        self.rows@ == old(self).rows@,
                        self.slots@ == old(self).slots@,
                        layer < self.rows@.len(),
                        n == self.rows@[layer as int],
                        e <= n,
                        start == old(self).place(layer as int, 0),
                        self.counters() == credit_whole(
                            old(self).counters(),
                            start,
                            tokens as u64,
                            e as nat,
                        ),
                    decreases n - e,
                {
                    self.count_dense(layer, e, tokens as u64, tokens as u64, 0);
                    e += 1;
                }
                Some(DenseRun::Whole(n))
            },
            Some(k) => {
                let mut shares: Vec<Share> = Vec::new();
                let mut e: usize = 0;
                while e < n
                    invariant
                        *self == *old(self),
                        n == k@.len(),
                        e <= n,
                        xs@.len() == tokens * hidden,
                        forall|i: int| 0 <= i < k@.len() ==> (#[trigger] k@[i])@.len() == tokens,
                        shares@.len() == e,
                        forall|i: int|
                            0 <= i < e ==> {
                                let s = #[trigger] shares@[i];
                                &&& s.rows@ == kept_rows(k@[i]@, tokens as nat)
                                &&& s.input@ == gathered(xs@, hidden as nat, s.rows@)
                            },
                    decreases n - e,
                {
                    shares.push(share_of(&k[e], xs, hidden));
                    e += 1;
                }
                Some(DenseRun::Shares(shares))
            },
        }
    }

    /// Count the clusters of a dense layer that ran on their shares of
    /// `tokens` rows, each with the energy of its output in thousandths.
    pub fn finish_dense(
        &mut self,
        layer: usize,
        shares: &Vec<Share>,
        tokens: usize,
        milli_energy: &Vec<u64>,
    )
        requires
            old(self).wf(),
            layer < old(self).rows@.len(),
            shares@.len() == old(self).rows@[layer as int],
            milli_energy@.len() == shares@.len(),
        ensures
            final(self).wf(),
            final(self).rows@ == old(self).rows@,
            final(self).slots@ == old(self).slots@,
            final(self).counters() == credit_shares(
                old(self).counters(),
                old(self).place(layer as int, 0),
                shares@,
                tokens as u64,
                milli_energy@,
                shares@.len(),
            ),
    {
        let ghost start = self.place(layer as int, 0);
        let mut e: usize = 0;
        while e < shares.len()
            invariant
                self.wf(),
                self.rows@ == old(self).rows@,
                self.slots@ == old(self).slots@,
                layer < self.rows@.len(),
                shares@.len() == self.rows@[layer as int],
                milli_energy@.len() == shares@.len(),
                e <= shares@.len(),
                start == old(self).place(layer as int, 0),
                self.counters() == credit_shares(
                    old(self).counters(),
                    start,
                    shares@,
                    tokens as u64,
                    milli_energy@,
                    e as nat,
                ),
            decreases shares@.len() - e,
        {
            self.count_dense(
                layer,
                e,
                shares[e].rows.len() as u64,
                tokens as u64,
                milli_energy[e],
            );
            e += 1;
        }
    }

    /// The work of one layer's routed experts, in ascending order: each on
    /// exactly the rows routed to it, gathered from `xs`. Every expert in
    /// service is credited with the rows it serves.
    pub fn run_layer(&mut self, layer: usize, routing: &Routing, xs: &Vec<u32>, hidden: usize) -> (r:
        Vec<Work>)
        requires
            old(self).wf(),
            layer < old(self).rows@.len(),
            routing.per_expert@.len() == old(self).rows@[layer as int],
            xs@.len() == routing.tokens * hidden,
            forall|e: int, i: int|
                0 <= e < routing.per_expert@.len() && 0 <= i < routing.per_expert@[e].rows@.len()
                    ==> (#[trigger] routing.per_expert@[e].rows@[i]) < routing.tokens,
        ensures
            final(self).wf(),
            final(self).rows@ == old(self).rows@,
            final(self).slots@ == old(self).slots@,
            final(self).energy@ == old(self).energy@,
            final(self).dense_rows == old(self).dense_rows,
            final(self).hits@ == hits_upto(
                old(self).hits@,
                old(self).place(layer as int, 0),
                *routing,
                routing.per_expert@.len(),
            ),
            r@.len() == in_service(*routing, 0).len(),
            forall|i: int|
                0 <= i < r@.len() ==> {
                    let w = #[trigger] r@[i];
                    &&& w.expert == in_service(*routing, 0)[i]
                    &&& w.input@ == gathered(
                        xs@,
                        hidden as nat,
                        routing.per_expert@[w.expert as int].rows@,
                    )
                },
    {
        let ghost all = in_service(*routing, 0);
        let ghost start = self.place(layer as int, 0);
        let mut out: Vec<Work> = Vec::new();
        let mut e: usize = 0;
        while e < routing.per_expert.len()
            invariant
                self.wf(),
                self.rows@ == old(self).rows@,
                self.slots@ == old(self).slots@,
                self.energy@ == old(self).energy@,
                self.dense_rows == old(self).dense_rows,
                layer < self.rows@.len(),
                routing.per_expert@.len() == self.rows@[layer as int],
                xs@.len() == routing.tokens * hidden,
                forall|x: int, i: int|
                    0 <= x < routing.per_expert@.len() && 0 <= i
                        < routing.per_expert@[x].rows@.len()
                        ==> (#[trigger] routing.per_expert@[x].rows@[i]) < routing.tokens,
                start == old(self).place(layer as int, 0),
                start == self.place(layer as int, 0),
                e <= routing.per_expert@.len(),
                self.hits@ == hits_upto(old(self).hits@, start, *routing, e as nat),
                all == in_service(*routing, 0),
                out@.len() + in_service(*routing, e as int).len() == all.len(),
                forall|i: int|
                    0 <= i < in_service(*routing, e as int).len() ==> all[out@.len() + i]
                        == #[trigger] in_service(*routing, e as int)[i],
                forall|i: int|
                    0 <= i < out@.len() ==> {
                        let w = #[trigger] out@[i];
                        &&& w.expert == all[i]
                        &&& w.input@ == gathered(
                            xs@,
                            hidden as nat,
                            routing.per_expert@[w.expert as int].rows@,
                        )
                    },
            decreases routing.per_expert@.len() - e,
        {
            let served: &Served = &routing.per_expert[e];
            let ghost rest = in_service(*routing, e as int);
            if served.rows.len() > 0 {
                let at: usize = self.locate(layer, e);
                let hit: u64 = self.hits[at].wrapping_add(served.rows.len() as u64);
                self.hits.set(at, hit);
                proof {
                    assert forall|i: int| 0 <= i < served.rows@.len() implies (
                    #[trigger] served.rows@[i] + 1) * hidden <= xs@.len() by {
                        assert(routing.per_expert@[e as int].rows@[i] < routing.tokens);
                        lemma_mul_inequality(
                            served.rows@[i] + 1,
                            routing.tokens as int,
                            hidden as int,
                        );
                    }
                }
                let input: Vec<u32> = gather_rows(xs, hidden, &served.rows);
                let ghost before = out@;
                proof {
                    assert(rest[0] == e);
                    assert(all[before.len() as int] == e);
                }
                out.push(Work { expert: e, input });
                proof {
                    let next = in_service(*routing, e + 1);
                    assert(rest =~= seq![e as int] + next);
                    assert forall|i: int| 0 <= i < next.len() implies all[out@.len() + i]
                        == #[trigger] next[i] by {
                        assert(rest[i + 1] == next[i]);
                        assert(all[before.len() + (i + 1)] == rest[i + 1]);
                    }
                }
            }
            e += 1;
        }
        out
    }
}

/// An expert whose weights live on the host, staged onto a device only while
/// it computes. The host copy is authoritative; the device copy is a cache
/// entry.
#[derive(Debug, Clone, Copy, PartialEq, Eq, Structural)]
pub struct StagedExpert {
    pub host_device: usize,
    /// The device that holds a staged copy.
    pub resident: Option<usize>,
    pub tier: Tier,
    pub bytes: u64,
}

impl StagedExpert {
    /// Hold the weights on the host, unstaged.
    pub fn new(host_device: usize, tier: Tier, bytes: u64) -> (r: Self)
        ensures
            r == (StagedExpert { host_device, resident: None, tier, bytes }),
    {
        StagedExpert { host_device, resident: None, tier, bytes }
    }

    /// Is a device copy currently staged?
    pub fn is_staged(&self) -> (r: bool)
        ensures
            r == (self.resident is Some),
    {
        self.resident.is_some()
    }

    /// Stage onto a device; is a transfer needed? Staging onto the device it
    /// already sits on does nothing.
    pub fn stage(&mut self, device: usize) -> (r: bool)
        ensures
            r == (old(self).resident != Some(device)),
            *final(self) == (StagedExpert { resident: Some(device), ..*old(self) }),
    {
        let here: bool = match self.resident {
            Some(d) => d == device,
            None => false,
        };
        if here {
            return false;
        }
        self.resident = Some(device);
        true
    }

    /// Drop the device copy. The host copy is untouched.
    pub fn evict(&mut self)
        ensures
            *final(self) == (StagedExpert { resident: None, ..*old(self) }),
    {
        self.resident = None;
    }

    /// Device bytes: the host copy is the backing store and does not count.
    pub fn resident_bytes(&self) -> (r: u64)
        ensures
            r == (if self.resident is Some {
                self.bytes
            } else {
                0
            }),
    {
        if self.is_staged() {
            self.bytes
        } else {
            0
        }
    }

    /// Where the expert computes: on the device that holds a copy, else on
    /// the host, rather than wait for a transfer that was never issued.
    pub fn compute_device(&self) -> (r: usize)
        ensures
            r == (match self.resident {
                Some(d) => d,
                None => self.host_device,
            }),
    {
        match self.resident {
            Some(d) => d,
            None => self.host_device,
        }
    }
}

} // verus!
