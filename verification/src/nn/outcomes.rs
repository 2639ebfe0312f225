//! What callers of the shared blocks are given, place by place.

use crate::gguf::{GgmlType, GgufFile};
use crate::models::qwen4exp::header::carries_number;
use crate::nn::attending::{
    a_group_reads_one_head, a_rotation_swaps_the_halves, new_positions_follow_the_cached,
};
use crate::nn::attention::{
    append_positions, at, causal_mask, kv_append_as, kv_f16_enabled, mask_complaint, repeat_kv,
    CachedKv, GqaAttentionConfig, KvType,
};
use crate::nn::choosing::{
    a_run_stays_in_its_row, a_score_stands_at_its_column, rows_decide_the_product,
    the_first_of_the_fastest_wins, the_tried_splits, timed_splits_divide,
};
use crate::nn::conv::ShortConvConfig;
use crate::nn::folding::{
    a_contract_is_declared_by_a_key, a_contract_is_what_its_keys_say, a_head_moves_to_its_group,
    a_width_is_transformed_in_whole_blocks, carries_text, carries_texts,
    each_width_has_its_own_signs, heads_are_grouped_where_the_header_says, is_row,
};
use crate::nn::hadamard::{
    entry, explicit_signs, is_row_of, sign, sign_models, sylvester_matrix, tiled_to_grouped_host,
    HadamardSpec, SignRow,
};
use crate::nn::mixing::{
    a_mixture_row_holds_the_chosen_weights, a_sparse_pass_counts_its_shares,
    a_whole_pass_counts_every_row, an_expert_is_hit_once_a_token,
    an_expert_serves_the_tokens_that_chose_it, at_slot, work_is_for_the_experts_in_service,
};
use crate::nn::mlp::SwiGluMlpConfig;
use crate::nn::moe::{
    a_share_selects_rows, bytes_on, cell, in_service, kept_rows, layer_start, mixture_rows, route,
    routed_apart, DenseRun, ExpertPool, Routing, Share, Slot, SparseMoeConfig, StagedExpert, Tier,
    Work,
};
use crate::nn::packed_gemv::{
    candidates, decode_word, dense_bytes, evaluated_bytes, fastest_place, fastest_split,
    gemv_split_override, packed_gemv_enabled, scatter_top, scheme_supported, supported,
    the_fastest_split_wins, timed_splits, try_q4s_gemv, weight_bytes, QuantScheme, QuantStore,
    QuantValue, Route, SplitCache, NEVER,
};
use crate::nn::refarith::{
    dtype_of, enabled, fake_quant_rows, linear_input2, register_linear, set_enabled, Grid, RefArith,
    Run, Switch,
};
use crate::nn::rope::{
    both_halves_agree, rope_tables, rotate_complaint, rotate_half, tables_complaint,
};
use crate::pack::{field_base, power};
use crate::routing::gathered;
use crate::text::{lowered, parsed_size};
use vstd::prelude::*;

verus! {

// ---- attention -------------------------------------------------------------

/// A mask has a row for each query and a column for each position, cached ones
/// first: nothing up to the query's own position, minus ten thousand behind.
pub proof fn a_mask_hides_what_comes_later(t: usize, past: usize, r: Vec<u32>, i: int, j: int)
    requires
        call_ensures(causal_mask, (t, past), r),
        0 <= i < t,
        0 <= j < past + t,
    ensures
        r@.len() == t * (past + t),
        r@[i * (past + t) + j] == if j <= past + i {
            0u32
        } else {
            0xC61C_4000u32
        },
{
    assert(at(r@, past + t, i, j) == r@[i * (past + t) + j]);
}

/// A mask is complained of where there is no query or the context is too long.
pub proof fn a_mask_is_within_the_context(t: usize, past: usize, r: Option<String>)
    requires
        call_ensures(mask_complaint, (t, past), r),
    ensures
        r is None <==> t >= 1 && past + t <= 131_072,
{
}

/// Each key/value head is given once for each query head of its group.
pub proof fn a_repeated_head_serves_its_group(
    x: Vec<u32>,
    heads: usize,
    block: usize,
    group: usize,
    r: Vec<u32>,
    h: int,
    g: int,
    j: int,
)
    requires
        x@.len() == heads * block,
        call_ensures(repeat_kv, (&x, heads, block, group), r),
        0 <= h < heads,
        0 <= g < group,
        0 <= j < block,
    ensures
        r@.len() == heads * group * block,
        r@[(h * group + g) * block + j] == x@[h * block + j],
{
    a_group_reads_one_head(x@, heads as int, block as int, group as int, h, g, j);
}

/// New positions stand behind the cached ones, head by head.
pub proof fn positions_are_appended_by_head(
    cached: Vec<u32>,
    new: Vec<u32>,
    heads: usize,
    a: usize,
    b: usize,
    r: Vec<u32>,
    h: int,
    p: int,
)
    requires
        call_ensures(append_positions, (&cached, &new, heads, a, b), r),
        0 <= h < heads,
        0 <= p < a + b,
    ensures
        r@.len() == heads * (a + b),
        p < a ==> r@[h * (a + b) + p] == cached@[h * a + p],
        p >= a ==> r@[h * (a + b) + p] == new@[h * b + (p - a)],
{
    new_positions_follow_the_cached(cached@, new@, heads as int, a as int, b as int, h, p);
}

/// A cache keeps its type and grows by what is appended; an empty one takes
/// the type of what comes first, half precision where that is asked for.
pub proof fn a_cache_grows_by_what_is_appended(
    cache: &mut Option<CachedKv>,
    incoming: KvType,
    t: usize,
    half: bool,
    r: KvType,
)
    requires
        *old(cache) matches Some(c) ==> c.positions + t <= usize::MAX,
        call_ensures(kv_append_as, (cache, incoming, t, half), r),
    ensures
        final(cache).is_some(),
        *old(cache) matches Some(c) ==> {
            let after = *final(cache);
            after->0.positions == c.positions + t && after->0.dtype == c.dtype
        },
        *old(cache) is None ==> {
            let after = *final(cache);
            after->0.positions == t && after->0.dtype == r
        },
        incoming != KvType::Single ==> r == incoming,
        incoming == KvType::Single && *old(cache) is None ==> r == if half {
            KvType::Half
        } else {
            KvType::Single
        },
        incoming == KvType::Single ==> (*old(cache) matches Some(c) ==> r == if c.dtype
            == KvType::Half {
            KvType::Half
        } else {
            KvType::Single
        }),
{
}

/// A rotated row has its halves swapped and the sign of the first flipped.
pub proof fn a_rotated_row_has_its_halves_swapped(
    x: Vec<u32>,
    rows: usize,
    dim: usize,
    r: Vec<u32>,
    row: int,
    k: int,
)
    requires
        dim >= 2,
        dim % 2 == 0,
        x@.len() == rows * dim,
        call_ensures(rotate_half, (&x, rows, dim), r),
        0 <= row < rows,
        0 <= k < dim as int / 2,
    ensures
        r@.len() == x@.len(),
        r@[row * dim + k] == x@[row * dim + k + dim as int / 2] ^ 0x8000_0000u32,
        r@[row * dim + k + dim as int / 2] == x@[row * dim + k],
{
    a_rotation_swaps_the_halves(x@, rows as int, dim as int, row, k);
}

/// A table repeats the angles of a position for both halves of a head.
pub proof fn a_table_serves_both_halves(
    half_rows: Vec<u32>,
    t: usize,
    past: usize,
    head_dim: usize,
    r: Vec<u32>,
    i: int,
    k: int,
)
    requires
        head_dim >= 2,
        head_dim % 2 == 0,
        call_ensures(rope_tables, (&half_rows, t, past, head_dim), r),
        0 <= i < t,
        0 <= k < head_dim as int / 2,
    ensures
        r@[i * head_dim + k] == half_rows@[i * (head_dim as int / 2) + k],
        r@[i * head_dim + k + head_dim as int / 2] == half_rows@[i * (head_dim as int / 2) + k],
{
    both_halves_agree(half_rows@, t as int, head_dim as int, i, k);
    let d = head_dim as int;
    assert(at(r@, d, i, k) == r@[i * d + k]);
    assert(at(r@, d, i, k + d / 2) == r@[i * d + (k + d / 2)]);
}

// ---- experts ---------------------------------------------------------------

/// A mixture has a row of every expert for each token: the weight beside the
/// token's choice of it, or nothing.
pub proof fn a_mixture_holds_the_chosen_weights(
    ids: Vec<u32>,
    vals: Vec<u32>,
    tokens: usize,
    k: usize,
    experts: usize,
    r: Vec<u32>,
    t: int,
    e: int,
)
    requires
        call_ensures(mixture_rows, (&ids, &vals, tokens, k, experts), r),
        0 <= t < tokens,
        0 <= e < experts,
        routed_apart(ids@, k as nat, t),
    ensures
        r@.len() == tokens * experts,
        forall|a: int|
            0 <= a < k && #[trigger] ids@[t * k as nat + a] == e ==> r@[t * experts + e] == vals@[t
                * k as nat + a],
        (forall|a: int| 0 <= a < k ==> #[trigger] ids@[t * k as nat + a] != e) ==> r@[t * experts
            + e] == 0,
{
    a_mixture_row_holds_the_chosen_weights(ids@, vals@, k as nat, t, e);
    assert(cell(r@, experts as int, t, e) == r@[t * experts + e]);
}

/// Routing gives each expert the tokens that chose it, with the weights of
/// their choices, and no others.
pub proof fn routing_gives_tokens_to_their_choices(
    ids: Vec<u32>,
    vals: Vec<u32>,
    tokens: usize,
    k: usize,
    experts: usize,
    r: Routing,
    e: u32,
    i: int,
)
    requires
        1 <= k <= experts <= u32::MAX,
        ids@.len() == tokens * k,
        call_ensures(route, (&ids, &vals, tokens, k, experts), r),
        e < experts,
        0 <= i < r.per_expert@[e as int].rows@.len(),
    ensures
        r.tokens == tokens,
        r.per_expert@.len() == experts,
        ({
            let s = r.per_expert@[e as int];
            &&& exists|a: int|
                0 <= a < k && #[trigger] at_slot(ids@, k as nat, s.rows@[i] as int, a) == e
                    && s.weights@[i] == at_slot(vals@, k as nat, s.rows@[i] as int, a)
            &&& forall|t: int, a: int|
                #![trigger at_slot(ids@, k as nat, t, a)]
                0 <= t < tokens && 0 <= a < k && at_slot(ids@, k as nat, t, a) == e ==> exists|
                    j: int,
                |
                    0 <= j < s.rows@.len() && (#[trigger] s.rows@[j]) == t && s.weights@[j]
                        == at_slot(vals@, k as nat, t, a)
        }),
{
    let s = r.per_expert@[e as int];
    an_expert_serves_the_tokens_that_chose_it(s, ids@, vals@, tokens as nat, k as nat, e, i);
}

/// Running a layer gives one piece of work for each expert with a token to
/// serve, in ascending order, of that expert's rows, and counts a hit for each.
pub proof fn a_layer_works_for_the_experts_in_service(
    pool: &mut ExpertPool,
    layer: usize,
    routing: Routing,
    xs: Vec<u32>,
    hidden: usize,
    r: Vec<Work>,
    e: int,
    i: int,
)
    requires
        old(pool).wf(),
        layer < old(pool).rows@.len(),
        routing.per_expert@.len() == old(pool).rows@[layer as int],
        call_ensures(ExpertPool::run_layer, (pool, layer, &routing, &xs, hidden), r),
        0 <= i < old(pool).hits@.len(),
    ensures
        0 <= e < routing.per_expert@.len() && routing.per_expert@[e].rows@.len() > 0 ==> exists|
            w: int,
        |
            0 <= w < r@.len() && (#[trigger] r@[w]).expert == e && r@[w].input@ == gathered(
                xs@,
                hidden as nat,
                routing.per_expert@[e].rows@,
            ),
        forall|w: int|
            0 <= w < r@.len() ==> (#[trigger] r@[w]).expert < routing.per_expert@.len()
                && routing.per_expert@[r@[w].expert as int].rows@.len() > 0,
        forall|a: int, b: int|
            0 <= a < b < r@.len() ==> (#[trigger] r@[a]).expert < (#[trigger] r@[b]).expert,
        final(pool).slots@ == old(pool).slots@,
        final(pool).energy@ == old(pool).energy@,
        ({
            let start = old(pool).place(layer as int, 0);
            let n = routing.per_expert@.len();
            start + n <= old(pool).hits@.len() ==> final(pool).hits@[i] == if start <= i < start
                + n {
                old(pool).hits@[i].wrapping_add(
                    routing.per_expert@[i - start].rows@.len() as u64,
                )
            } else {
                old(pool).hits@[i]
            }
        }),
{
    let all = in_service(routing, 0);
    work_is_for_the_experts_in_service(routing, 0);
    if 0 <= e < routing.per_expert@.len() && routing.per_expert@[e].rows@.len() > 0 {
        assert(all.contains(e));
        let w = choose|w: int| 0 <= w < all.len() && all[w] == e;
        assert(r@[w].expert == e);
    }
    assert forall|w: int| 0 <= w < r@.len() implies (#[trigger] r@[w]).expert
        < routing.per_expert@.len() && routing.per_expert@[r@[w].expert as int].rows@.len() > 0 by {
        assert(all.contains(all[w]));
    }
    assert forall|a: int, b: int| 0 <= a < b < r@.len() implies (#[trigger] r@[a]).expert < (
    #[trigger] r@[b]).expert by {
        assert(all[a] < all[b]);
    }
    let start = old(pool).place(layer as int, 0);
    if start + routing.per_expert@.len() <= old(pool).hits@.len() {
        an_expert_is_hit_once_a_token(
            old(pool).hits@,
            start,
            routing,
            routing.per_expert@.len(),
            i,
        );
    }
}

/// A dense pass over kept rows gives each cluster of the layer the rows that it
/// is kept for, in order, and counts nothing until it is finished.
pub proof fn a_cluster_computes_the_rows_it_is_kept_for(
    pool: &mut ExpertPool,
    layer: usize,
    xs: Vec<u32>,
    tokens: usize,
    hidden: usize,
    keep: &Vec<Vec<bool>>,
    r: Option<DenseRun>,
    e: int,
    row: usize,
)
    requires
        call_ensures(ExpertPool::run_dense, (pool, layer, &xs, tokens, hidden, Some(keep)), r),
        layer < old(pool).rows@.len(),
        0 <= e < old(pool).rows@[layer as int],
        keep@.len() == old(pool).rows@[layer as int],
        keep@[e]@.len() == tokens,
    ensures
        final(pool).hits@ == old(pool).hits@,
        r is Some && r->0 is Shares,
        r->0->Shares_0@.len() == keep@.len(),
        r->0->Shares_0@[e].rows@.contains(row) <==> row < tokens && keep@[e]@[row as int],
        r->0->Shares_0@[e].input@ == gathered(xs@, hidden as nat, r->0->Shares_0@[e].rows@),
{
    a_share_selects_rows(keep@[e]@, tokens as nat);
    assert(old(pool).counters() == final(pool).counters());
    let s = r->0->Shares_0@[e];
    assert(s.rows@ == kept_rows(keep@[e]@, tokens as nat));
}

/// A device holds the bytes of its slots: nothing where it has none.
pub proof fn the_used_bytes_are_the_slots(
    pool: ExpertPool,
    num_devices: usize,
    r: Vec<u64>,
    d: int,
)
    requires
        call_ensures(ExpertPool::used_bytes, (&pool, num_devices), r),
        0 <= d < num_devices,
    ensures
        r@.len() == num_devices,
        r@[d] == bytes_on(pool.slots@, d, pool.slots@.len()),
        (forall|i: int| 0 <= i < pool.slots@.len() ==> (#[trigger] pool.slots@[i]).tier.device != d)
            ==> r@[d] == 0,
{
    if forall|i: int|
        0 <= i < pool.slots@.len() ==> (#[trigger] pool.slots@[i]).tier.device != d {
        crate::nn::mixing::an_unused_device_holds_nothing(pool.slots@, d, pool.slots@.len());
    }
}

// ---- packed products -------------------------------------------------------

/// The product that a row count takes, of a weight that is packed.
pub proof fn a_row_count_takes_its_product(
    s: QuantScheme,
    m: usize,
    on_host: bool,
    r: Option<Route>,
)
    requires
        supported(s),
        m >= 1,
        call_ensures(try_q4s_gemv, (true, Some(s), m, on_host), r),
    ensures
        r == if m == 1 {
            Some(Route::Gemv)
        } else if on_host && m <= 1024 {
            Some(Route::Gemm)
        } else if !on_host && m <= 64 {
            Some(Route::Rows)
        } else {
            None
        },
{
    rows_decide_the_product(s, m as nat, on_host);
}

/// The splits that are timed are those of the tried ones that divide the inner
/// dimension; one always does.
pub proof fn the_timed_splits_divide(
    weight_bytes: u64,
    l2_bytes: Option<u64>,
    k_len: usize,
    r: Vec<usize>,
    c: usize,
)
    requires
        call_ensures(timed_splits, (weight_bytes, l2_bytes, k_len), r),
    ensures
        ({
            let cached = l2_bytes is Some && weight_bytes <= l2_bytes->0;
            let tried = if cached {
                c == 1 || c == 2 || c == 4 || c == 8
            } else {
                c == 1 || c == 4 || c == 8 || c == 16 || c == 32
            };
            r@.contains(c) <==> tried && k_len as int % c as int == 0
        }),
        r@.contains(1),
{
    the_tried_splits(weight_bytes as nat, l2_bytes, c);
    the_tried_splits(weight_bytes as nat, l2_bytes, 1);
    timed_splits_divide(candidates(weight_bytes as nat, l2_bytes), k_len as nat, c);
    timed_splits_divide(candidates(weight_bytes as nat, l2_bytes), k_len as nat, 1);
}

/// The fastest of the timed splits wins, the first of equally fast ones; one
/// that never ended does not.
pub proof fn the_fastest_timed_split_wins(splits: Vec<usize>, times: Vec<u64>, r: usize, k: int)
    requires
        splits@.len() == times@.len(),
        call_ensures(fastest_split, (&splits, &times), r),
        0 <= k < times@.len(),
    ensures
        (forall|i: int| 0 <= i < times@.len() ==> #[trigger] times@[i] >= NEVER) ==> r == 1,
        times@[k] < NEVER ==> exists|j: int|
            0 <= j < times@.len() && r == #[trigger] splits@[j] && times@[j] <= times@[k] && (k < j
                ==> times@[j] < times@[k]),
{
    the_fastest_split_wins(times@, NEVER, 0, k);
    let best = fastest_place(times@, NEVER, 0);
    if times@[k] < NEVER {
        assert(best is Some);
        let j = best->0;
        if k < j {
            the_first_of_the_fastest_wins(times@, NEVER, 0, k);
        }
        assert(r == splits@[j]);
    }
    if forall|i: int| 0 <= i < times@.len() ==> #[trigger] times@[i] >= NEVER {
        if let Some(j) = best {
            assert(times@[j] >= NEVER);
        }
    }
}

/// A word decodes field by field from the lowest, each a signed number of its
/// bits.
pub proof fn a_word_decodes_from_its_lowest_field(word: u32, bits: u32, r: Vec<i8>, j: int)
    requires
        bits == 4 || bits == 8,
        call_ensures(decode_word, (word, bits), r),
        0 <= j < r@.len(),
    ensures
        bits == 4 ==> r@.len() == 8,
        bits == 8 ==> r@.len() == 4,
        ({
            let base: int = if bits == 4 {
                16
            } else {
                256
            };
            let raw = word as int / power(base, j as nat) % base;
            r@[j] == if raw < base / 2 {
                raw
            } else {
                raw - base
            }
        }),
{
    assert(field_base(4) == 16 && field_base(8) == 256);
}

/// Scores stand at their columns, the last given for each, and the filler where
/// none was.
pub proof fn scores_stand_at_their_columns(
    n: usize,
    filler: u32,
    ids: Vec<u32>,
    vals: Vec<u32>,
    r: Vec<u32>,
    p: int,
)
    requires
        ids@.len() == vals@.len(),
        forall|i: int| 0 <= i < ids@.len() ==> (#[trigger] ids@[i]) < n,
        call_ensures(scatter_top, (n, filler, &ids, &vals), r),
        0 <= p < n,
    ensures
        r@.len() == n,
        (forall|i: int| 0 <= i < ids@.len() ==> (#[trigger] ids@[i]) != p) ==> r@[p] == filler,
        forall|i: int|
            0 <= i < ids@.len() && (#[trigger] ids@[i]) == p && (forall|j: int|
                i < j < ids@.len() ==> (#[trigger] ids@[j]) != p) ==> r@[p] == vals@[i],
{
    a_score_stands_at_its_column(n as nat, filler, ids@, vals@, p);
}

/// A split is forced by a number of one to thirty-two.
pub proof fn a_forced_split_is_in_range(value: &str, r: Option<usize>)
    requires
        call_ensures(gemv_split_override, (Some(value),), r),
    ensures
        r matches Some(n) ==> parsed_size(value@) == Some(n as nat) && 1 <= n <= 32,
        r is None ==> forall|n: nat| 1 <= n <= 32 ==> parsed_size(value@) != Some(n),
{
}

// ---- reference arithmetic --------------------------------------------------

/// Activations are rounded in runs of the weight's blocks: thirty-two for the
/// plain types, two hundred and fifty-six for the grouped ones, row by row.
pub proof fn activations_are_rounded_by_the_weights_blocks(
    total: usize,
    width: usize,
    dtype: GgmlType,
    r: Option<(Grid, Vec<Run>)>,
    i: int,
)
    requires
        width > 0,
        call_ensures(fake_quant_rows, (total, width, dtype), r),
    ensures
        r is None <==> dtype.block() == 1 || dtype == GgmlType::Iq4Nl,
        r matches Some(p) ==> 0 <= i < p.1@.len() ==> {
            let run = p.1@[i];
            let column = run.start as int % width as int;
            let left = if total - run.start < width - column {
                total - run.start
            } else {
                width - column
            };
            &&& run.start < total
            &&& column % (dtype.block() as int) == 0
            &&& run.len == if left < dtype.block() {
                left
            } else {
                dtype.block() as int
            }
        },
{
    if let Some(p) = r {
        if 0 <= i < p.1@.len() {
            a_run_stays_in_its_row(0, total as nat, width as nat, dtype.block(), i);
        }
    }
}

// ---- the Hadamard contract -------------------------------------------------

/// A contract that is read of a file is the file's own.
pub proof fn a_contract_is_the_files(f: GgufFile, r: Result<Option<HadamardSpec>, String>)
    requires
        call_ensures(HadamardSpec::from_gguf, (&f,), r),
    ensures
        r matches Ok(None) ==> forall|i: int|
            0 <= i < f.metadata@.len() ==> !"prism.hadamard."@.is_prefix_of(
                (#[trigger] f.metadata@[i]).0@,
            ),
        r matches Ok(Some(s)) ==> {
            &&& carries_number(f, "prism.hadamard."@ + "version"@, 1)
            &&& carries_number(f, "prism.hadamard."@ + "block_size"@, s.block as int)
            &&& carries_text(f, "prism.hadamard."@ + "axis"@, "input-last-dimension"@)
            &&& carries_texts(f, "prism.hadamard."@ + "weight_names"@, s@.weights)
            &&& f.value("prism.hadamard."@ + "gdn_v_grouped"@) is None ==> !s.gdn_v_grouped
        },
{
    a_contract_is_declared_by_a_key(f);
    if let Ok(Some(s)) = r {
        a_contract_is_what_its_keys_say(f, s@);
        heads_are_grouped_where_the_header_says(f, s@);
    }
}

/// The explicit signs: one row for each width, cut from the values in order.
pub proof fn explicit_signs_are_cut_in_order(
    widths: Vec<i64>,
    values: Vec<i64>,
    block: usize,
    r: Result<Vec<SignRow>, String>,
    a: int,
)
    requires
        block > 0,
        call_ensures(explicit_signs, (&widths, &values, block), r),
        r is Ok,
        0 <= a < widths@.len(),
    ensures
        r->Ok_0@.len() == widths@.len(),
        is_row(widths@, values@, block as nat, a, sign_models(r->Ok_0@)[a]),
        r->Ok_0@[a].width == widths@[a],
        r->Ok_0@[a].signs@.len() == widths@[a],
{
    let rows = sign_models(r->Ok_0@);
    each_width_has_its_own_signs(widths@, values@, block as nat, rows);
    assert(rows[a].width == r->Ok_0@[a].width);
}

/// The signs of a width are the row that is declared for it.
pub proof fn the_signs_are_of_the_width(
    s: HadamardSpec,
    width: usize,
    r: Result<Option<&Vec<i8>>, String>,
)
    requires
        call_ensures(HadamardSpec::forward_host, (&s, width), r),
    ensures
        r is Ok <==> width as int % s.block as int == 0 && (s@.signs.len() == 0 || exists|i: int|
            0 <= i < s@.signs.len() && (#[trigger] s@.signs[i]).width == width),
        r matches Ok(Some(v)) ==> exists|i: int|
            0 <= i < s@.signs.len() && (#[trigger] s@.signs[i]).width == width && s@.signs[i].signs
                == v@,
        r matches Ok(None) ==> s@.signs.len() == 0,
{
    a_width_is_transformed_in_whole_blocks(s, width);
    if let Ok(Some(v)) = r {
        let i = choose|i: int| #[trigger]
            is_row_of(s@.signs, width, i) && s@.signs[i].signs == v@;
        assert(s@.signs[i].width == width);
    }
}

/// The matrix is that of signs: its first entry positive, its halves copies but
/// for the last, which is negated.
pub proof fn the_matrix_holds_the_signs(n: usize, r: Vec<bool>, i: int, j: int)
    requires
        call_ensures(sylvester_matrix, (n,), r),
        0 <= i < n,
        0 <= j < n,
    ensures
        r@.len() == n * n,
        r@[i * n + j] <==> sign(i as nat, j as nat) == -1,
{
    assert(entry(r@, n as int, i, j) == r@[i * n + j]);
}

/// Value heads are regrouped by their key heads.
pub proof fn heads_are_regrouped(
    x: Vec<u32>,
    n_k: usize,
    n_v: usize,
    hd: usize,
    r: Vec<u32>,
    k: int,
    h: int,
    d: int,
)
    requires
        n_k > 0,
        n_v as int % n_k as int == 0,
        x@.len() == n_v * hd,
        call_ensures(tiled_to_grouped_host, (&x, n_k, n_v, hd), r),
        0 <= k < n_k,
        0 <= h < n_v as int / n_k as int,
        0 <= d < hd,
    ensures
        r@.len() == x@.len(),
        r@[(k * (n_v as int / n_k as int) + h) * hd + d] == x@[(h * n_k + k) * hd + d],
{
    let rep = n_v as int / n_k as int;
    vstd::arithmetic::div_mod::lemma_fundamental_div_mod(n_v as int, n_k as int);
    assert(n_k * rep == n_v);
    a_head_moves_to_its_group(x@, n_k as int, rep, hd as int, k, h, d);
}

// ---- what is remembered ----------------------------------------------------

/// A split that is remembered is the one given back for its shape; a forced one
/// comes before any.
pub proof fn a_remembered_split_is_given_back(
    c: &mut SplitCache,
    device: &str,
    n: usize,
    k_len: usize,
    per_word: usize,
    split: usize,
    found: Option<usize>,
    forced: usize,
    given: Option<usize>,
)
    requires
        call_ensures(SplitCache::insert, (c, device, n, k_len, per_word, split), ()),
        call_ensures(
            SplitCache::gemv_split_for,
            (final(c), None, device, n, k_len, per_word),
            found,
        ),
        call_ensures(
            SplitCache::gemv_split_for,
            (final(c), Some(forced), device, n, k_len, per_word),
            given,
        ),
    ensures
        found == Some(split),
        given == Some(forced),
{
}

/// A shape that is registered twice alike is of that type; with two types it is
/// of none, and the earlier one is reported.
pub proof fn a_shape_with_two_types_is_of_none(
    s: &mut RefArith,
    inp: usize,
    out: usize,
    dtype: GgmlType,
    r: Option<GgmlType>,
    after: Option<GgmlType>,
)
    requires
        call_ensures(register_linear, (s, inp, out, dtype), r),
        call_ensures(dtype_of, (final(s), inp, out), after),
    ensures
        ({
            let m = old(s).registry();
            let k = (inp, out);
            &&& !m.dom().contains(k) ==> r is None && after == Some(dtype)
            &&& m.dom().contains(k) && m[k] == Some(dtype) ==> r is None && after == Some(dtype)
            &&& m.dom().contains(k) && m[k] is Some && m[k] != Some(dtype) ==> r == m[k]
                && after is None
            &&& m.dom().contains(k) && m[k] is None ==> r is None && after is None
        }),
        final(s).switch == old(s).switch,
{
}

/// The setting is read once: what was switched stays, and what was not is
/// switched by it.
pub proof fn the_setting_is_read_once(s: &mut RefArith, setting: Option<&str>, r: bool)
    requires
        call_ensures(enabled, (s, setting), r),
    ensures
        old(s).switch == Switch::On ==> r,
        old(s).switch == Switch::Off ==> !r,
        old(s).switch == Switch::Unread ==> (r <==> setting is Some && setting->0@ == "1"@),
        final(s).switch == if r {
            Switch::On
        } else {
            Switch::Off
        },
        final(s).shapes@ == old(s).shapes@,
{
}

/// An input is rounded for the type of its weight's shape while the reference
/// arithmetic is on, and never while it is off.
pub proof fn an_input_is_rounded_for_its_weight(
    s: &mut RefArith,
    setting: Option<&str>,
    d_in: usize,
    d_out: usize,
    r: Option<GgmlType>,
)
    requires
        call_ensures(linear_input2, (s, setting, d_in, d_out), r),
    ensures
        old(s).switch == Switch::Off ==> r is None,
        old(s).switch == Switch::On ==> r == if old(s).registry().dom().contains((d_in, d_out)) {
            old(s).registry()[(d_in, d_out)]
        } else {
            None
        },
        old(s).switch == Switch::Unread && setting is None ==> r is None,
        final(s).registry() == old(s).registry(),
{
}

/// Layers start in order.
proof fn lemma_starts(rows: Seq<usize>, a: nat, b: nat)
    requires
        a <= b,
    ensures
        layer_start(rows, a) <= layer_start(rows, b),
    decreases b,
{
    if a < b {
        lemma_starts(rows, a, (b - 1) as nat);
    }
}

/// A pool gives the slot of a layer's expert and puts another in its place,
/// leaving every other.
pub proof fn a_slot_is_swapped_alone(
    pool: &mut ExpertPool,
    layer: usize,
    expert: usize,
    next: Slot,
    r: Slot,
    i: int,
)
    requires
        old(pool).wf(),
        layer < old(pool).rows@.len(),
        expert < old(pool).rows@[layer as int],
        call_ensures(ExpertPool::swap, (pool, layer, expert, next), r),
        0 <= i < old(pool).slots@.len(),
    ensures
        ({
            let at = old(pool).place(layer as int, expert as int);
            &&& r == old(pool).slots@[at]
            &&& final(pool).slots@.len() == old(pool).slots@.len()
            &&& i == at ==> final(pool).slots@[i] == next
            &&& i != at ==> final(pool).slots@[i] == old(pool).slots@[i]
        }),
        final(pool).hits@ == old(pool).hits@,
{
    lemma_starts(old(pool).rows@, (layer + 1) as nat, old(pool).rows@.len());
}

/// A whole pass counts, for each cluster of the layer, a hit for each token and
/// as many rows computed as offered.
pub proof fn a_whole_pass_is_counted(
    pool: &mut ExpertPool,
    layer: usize,
    xs: Vec<u32>,
    tokens: usize,
    hidden: usize,
    r: Option<DenseRun>,
    i: int,
)
    requires
        old(pool).wf(),
        layer < old(pool).rows@.len(),
        old(pool).rows@[layer as int] > 0,
        call_ensures(ExpertPool::run_dense, (pool, layer, &xs, tokens, hidden, None), r),
        0 <= i < old(pool).hits@.len(),
        tokens <= u64::MAX,
        old(pool).place(layer as int, 0) + old(pool).rows@[layer as int] <= old(pool).hits@.len(),
    ensures
        r == Some(DenseRun::Whole(old(pool).rows@[layer as int])),
        ({
            let start = old(pool).place(layer as int, 0);
            let n = old(pool).rows@[layer as int];
            &&& final(pool).hits@[i] == if start <= i < start + n {
                old(pool).hits@[i].wrapping_add(tokens as u64)
            } else {
                old(pool).hits@[i]
            }
            &&& final(pool).energy@[i] == old(pool).energy@[i]
            &&& old(pool).dense_rows.1 + n * tokens <= u64::MAX ==> final(pool).dense_rows.1
                == old(pool).dense_rows.1 + n * tokens
        }),
{
    let n = old(pool).rows@[layer as int] as nat;
    let start = old(pool).place(layer as int, 0);
    a_whole_pass_counts_every_row(old(pool).counters(), start, tokens as u64, n, i);
    assert(final(pool).counters().hits == final(pool).hits@);
    assert(final(pool).counters().energy == final(pool).energy@);
}

/// A sparse pass counts, for each cluster of the layer, its rows and its energy.
pub proof fn a_sparse_pass_is_counted(
    pool: &mut ExpertPool,
    layer: usize,
    shares: Vec<Share>,
    tokens: usize,
    milli_energy: Vec<u64>,
    i: int,
)
    requires
        old(pool).wf(),
        layer < old(pool).rows@.len(),
        shares@.len() == old(pool).rows@[layer as int],
        milli_energy@.len() == shares@.len(),
        call_ensures(ExpertPool::finish_dense, (pool, layer, &shares, tokens, &milli_energy), ()),
        0 <= i < old(pool).hits@.len(),
        old(pool).place(layer as int, 0) + shares@.len() <= old(pool).hits@.len(),
    ensures
        ({
            let start = old(pool).place(layer as int, 0);
            let k = i - start;
            &&& final(pool).hits@[i] == if 0 <= k < shares@.len() {
                old(pool).hits@[i].wrapping_add(
                    milli_energy@[k].wrapping_add(shares@[k].rows@.len() as u64),
                )
            } else {
                old(pool).hits@[i]
            }
            &&& final(pool).energy@[i] == if 0 <= k < shares@.len() {
                old(pool).energy@[i].wrapping_add(milli_energy@[k])
            } else {
                old(pool).energy@[i]
            }
        }),
        final(pool).slots@ == old(pool).slots@,
{
    let start = old(pool).place(layer as int, 0);
    a_sparse_pass_counts_its_shares(
        old(pool).counters(),
        start,
        shares@,
        tokens as u64,
        milli_energy@,
        shares@.len(),
        i,
    );
    assert(final(pool).counters().hits == final(pool).hits@);
    assert(final(pool).counters().energy == final(pool).energy@);
}

/// The bytes of a packed weight: four for each word and each scale; of an
/// unpacked one a byte for each value and four for each scale, for every row.
pub proof fn a_weight_takes_its_words_and_scales(
    n_words: u64,
    k_len: u64,
    scales: u64,
    packed: u64,
    k: usize,
    n: usize,
    s: usize,
    m: usize,
    dense: usize,
)
    requires
        call_ensures(weight_bytes, (n_words, k_len, scales), packed),
        call_ensures(dense_bytes, (k, n, s, m), dense),
    ensures
        packed == 4 * (n_words * k_len) + 4 * scales,
        dense == m * (k * n + 4 * s),
{
    assert((k * n + s * 4) * m == m * (k * n + 4 * s)) by (nonlinear_arith);
}

/// A weight is folded where the contract lists it, and inverted where it lists
/// it so.
pub proof fn a_weight_is_folded_where_it_is_listed(
    s: HadamardSpec,
    name: &str,
    folds: bool,
    inverts: bool,
)
    requires
        call_ensures(HadamardSpec::folds, (&s, name), folds),
        call_ensures(HadamardSpec::inverts, (&s, name), inverts),
    ensures
        folds <==> exists|i: int| 0 <= i < s.weights@.len() && (#[trigger] s.weights@[i])@ == name@,
        inverts <==> exists|i: int|
            0 <= i < s.inverses@.len() && (#[trigger] s.inverses@[i])@ == name@,
{
    if folds {
        let i = choose|i: int| 0 <= i < s@.weights.len() && s@.weights[i] == name@;
        assert(s.weights@[i]@ == name@);
    }
    if exists|i: int| 0 <= i < s.weights@.len() && (#[trigger] s.weights@[i])@ == name@ {
        let i = choose|i: int| 0 <= i < s.weights@.len() && (#[trigger] s.weights@[i])@ == name@;
        assert(s@.weights[i] == name@);
    }
    if inverts {
        let i = choose|i: int| 0 <= i < s@.inverses.len() && s@.inverses[i] == name@;
        assert(s.inverses@[i]@ == name@);
    }
    if exists|i: int| 0 <= i < s.inverses@.len() && (#[trigger] s.inverses@[i])@ == name@ {
        let i = choose|i: int| 0 <= i < s.inverses@.len() && (#[trigger] s.inverses@[i])@ == name@;
        assert(s@.inverses[i] == name@);
    }
}

// ---- complaints and counters -----------------------------------------------

/// Each block complains of exactly the configurations and shapes that it cannot
/// take.
pub proof fn blocks_complain_of_what_they_cannot_take(
    attention: GqaAttentionConfig,
    a: Option<String>,
    mlp: SwiGluMlpConfig,
    m: Option<String>,
    conv: ShortConvConfig,
    c: Option<String>,
    moe: SparseMoeConfig,
    e: Option<String>,
)
    requires
        call_ensures(GqaAttentionConfig::complaint, (&attention,), a),
        call_ensures(SwiGluMlpConfig::complaint, (&mlp,), m),
        call_ensures(ShortConvConfig::complaint, (&conv,), c),
        call_ensures(SparseMoeConfig::complaint, (&moe,), e),
    ensures
        a is None <==> attention.num_kv_heads >= 1 && attention.num_heads as int
            % attention.num_kv_heads as int == 0 && attention.head_dim >= 2 && attention.head_dim
            % 2 == 0,
        m is None <==> mlp.hidden_size >= 1 && mlp.intermediate_size >= 1,
        c is None <==> conv.hidden_size >= 1 && conv.kernel_len >= 2,
        e is None <==> moe.num_experts >= 2 && 1 <= moe.num_experts_per_tok <= moe.num_experts
            && moe.hidden_size >= 1 && moe.expert_intermediate_size >= 1,
{
}

/// A pass complains of exactly the shapes that do not fit it.
pub proof fn passes_complain_of_what_does_not_fit(
    heads: usize,
    kv_heads: usize,
    g: Option<String>,
    top_k: usize,
    experts: usize,
    hidden: usize,
    expert_hidden: usize,
    e: Option<String>,
    t: usize,
    past: usize,
    dim: usize,
    tables: Option<String>,
    rotate: Option<String>,
)
    requires
        call_ensures(crate::nn::attention::forward_complaint, (heads, kv_heads), g),
        call_ensures(
            crate::nn::moe::forward_complaint,
            (top_k, experts, hidden, expert_hidden),
            e,
        ),
        call_ensures(tables_complaint, (t, past, dim), tables),
        call_ensures(rotate_complaint, (dim,), rotate),
    ensures
        g is None <==> kv_heads >= 1 && heads as int % kv_heads as int == 0,
        e is None <==> 1 <= top_k <= experts && hidden == expert_hidden,
        tables is None <==> t >= 1 && dim >= 2 && dim % 2 == 0 && past + t <= 131_072,
        rotate is None <==> dim >= 2 && dim % 2 == 0,
{
}

/// What is taken of a pool's counters is what they were, and they start again.
pub proof fn taken_counters_start_again(pool: &mut ExpertPool, r: Vec<u64>, i: int)
    requires
        old(pool).wf(),
        call_ensures(ExpertPool::take_hits, (pool,), r),
        0 <= i < old(pool).hits@.len(),
    ensures
        r@ == old(pool).hits@,
        final(pool).hits@.len() == old(pool).hits@.len(),
        final(pool).hits@[i] == 0,
        final(pool).energy@ == old(pool).energy@,
        final(pool).dense_rows == old(pool).dense_rows,
{
}

/// What is taken of a pool's energy is what it was, and it starts again; so of
/// its rows.
pub proof fn taken_energy_starts_again(pool: &mut ExpertPool, r: Vec<u64>, i: int)
    requires
        old(pool).wf(),
        call_ensures(ExpertPool::take_energy, (pool,), r),
        0 <= i < old(pool).energy@.len(),
    ensures
        r@ == old(pool).energy@,
        final(pool).energy@.len() == old(pool).energy@.len(),
        final(pool).energy@[i] == 0,
        final(pool).hits@ == old(pool).hits@,
        final(pool).dense_rows == old(pool).dense_rows,
{
}

/// What is taken of a pool's rows is what they were, and they start again.
pub proof fn taken_rows_start_again(pool: &mut ExpertPool, r: (u64, u64))
    requires
        old(pool).wf(),
        call_ensures(ExpertPool::take_dense_rows, (pool,), r),
    ensures
        r == old(pool).dense_rows,
        final(pool).dense_rows.0 == 0 && final(pool).dense_rows.1 == 0,
        final(pool).hits@ == old(pool).hits@,
        final(pool).energy@ == old(pool).energy@,
{
}

/// What a pool says of itself.
pub proof fn a_pool_says_what_it_holds(
    pool: ExpertPool,
    layers: usize,
    layer: usize,
    len: usize,
    expert: usize,
    slot: Slot,
    tiers: Vec<Tier>,
    i: int,
)
    requires
        call_ensures(ExpertPool::num_layers, (&pool,), layers),
        call_ensures(ExpertPool::row_len, (&pool, layer), len),
        call_ensures(ExpertPool::get, (&pool, layer, expert), slot),
        call_ensures(ExpertPool::tiers, (&pool,), tiers),
        0 <= i < pool.slots@.len(),
    ensures
        layers == pool.rows@.len(),
        layer < layers ==> len == pool.rows@[layer as int],
        layer >= layers ==> len == 0,
        slot == pool.slots@[pool.place(layer as int, expert as int)],
        tiers@.len() == pool.slots@.len(),
        tiers@[i] == pool.slots@[i].tier,
{
}

/// A staged expert is staged where it was put, and nowhere once it is put out.
pub proof fn an_expert_is_staged_where_it_was_put(x: &mut StagedExpert, device: usize, r: bool)
    requires
        call_ensures(StagedExpert::stage, (x, device), r),
    ensures
        final(x).resident == Some(device),
        r <==> old(x).resident != Some(device),
        final(x).host_device == old(x).host_device && final(x).bytes == old(x).bytes
            && final(x).tier == old(x).tier,
{
}

/// An expert that is put out is staged nowhere.
pub proof fn an_expert_that_is_put_out_is_staged_nowhere(x: &mut StagedExpert)
    requires
        call_ensures(StagedExpert::evict, (x,), ()),
    ensures
        final(x).resident is None,
        final(x).host_device == old(x).host_device && final(x).bytes == old(x).bytes,
{
}

/// Bytes are counted for the rows that were evaluated, of all rows.
pub proof fn bytes_are_counted_for_evaluated_rows(streamed: u64, rows: u64, n: u64, r: u64)
    requires
        rows <= n,
        call_ensures(evaluated_bytes, (streamed, rows, n), r),
    ensures
        n > 0 ==> r * n <= streamed * rows < (r + 1) * n,
        n == 0 ==> r == 0,
        rows == n && n > 0 ==> r == streamed,
{
    if n > 0 {
        let (a, d) = ((streamed * rows) as int, n as int);
        vstd::arithmetic::div_mod::lemma_fundamental_div_mod(a, d);
        let q = a / d;
        assert(d * q == q * d) by (nonlinear_arith);
        assert((q + 1) * d == q * d + d) by (nonlinear_arith);
        if rows == n {
            vstd::arithmetic::div_mod::lemma_div_multiples_vanish(streamed as int, d);
            assert(streamed * rows == d * streamed as int) by (nonlinear_arith)
                requires
                    rows == d,
            ;
        }
    }
}

/// A switch is what it is set to, a perturbation what it is given, and neither
/// touches the other.
pub proof fn a_switch_is_what_it_is_set_to(s: &mut RefArith, on: bool)
    requires
        call_ensures(set_enabled, (s, on), ()),
    ensures
        final(s).switch == if on {
            Switch::On
        } else {
            Switch::Off
        },
        final(s).seed == old(s).seed,
{
}

/// The packed products run where nothing refuses them, and the half cache where
/// something asks for it.
pub proof fn settings_are_read_as_they_stand(
    value: &str,
    packed: bool,
    unset: bool,
    half: bool,
    none: bool,
    scheme: QuantScheme,
    fits: bool,
)
    requires
        call_ensures(packed_gemv_enabled, (Some(value),), packed),
        call_ensures(packed_gemv_enabled, (None,), unset),
        call_ensures(kv_f16_enabled, (Some(value),), half),
        call_ensures(kv_f16_enabled, (None,), none),
        call_ensures(scheme_supported, (&scheme,), fits),
    ensures
        unset && !none,
        packed <==> value@ != "0"@ && lowered(value@) != "off"@ && lowered(value@) != "false"@,
        half <==> value@ != "0"@ && lowered(value@) != "off"@ && lowered(value@) != "false"@,
        fits <==> scheme.value != QuantValue::Other && scheme.block == Some(32usize)
            && scheme.single_scales && (scheme.store == QuantStore::Native || scheme.store
            == QuantStore::PackedU32(0)),
{
}

} // verus!
