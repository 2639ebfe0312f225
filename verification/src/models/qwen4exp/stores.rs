//! What callers of the model's stores are given: rows of the hashed table,
//! bytes of the experts, work of a routing, windows of a convolution, and what
//! a load reads.

use crate::gguf::{GgmlType, GgufFile, GgufTensorInfo};
use crate::models::qwen4exp::cache::{
    cached, evictions_take_the_least_recent, fitted, total_bytes, CacheEntry, CacheStats,
    ExpertCache, Lookup,
};
use crate::models::qwen4exp::carrying::{
    a_history_ends_with_the_input, a_tap_reads_its_own_distance, streams_lie_one_after_another,
};
use crate::models::qwen4exp::complete::{
    a_complete_file_serves_three_banks_a_layer, every_tensor_has_one_use,
};
use crate::models::qwen4exp::config::Qwen4expConfig;
use crate::models::qwen4exp::experts::{
    check_len, check_route, chunk_rows, first_non_finite, first_stray_id, row_of, select, BankKind,
    ExpertBank, ExpertBytes, ExpertJob, LayerExperts, Payload, RoutedExperts, Routing,
};
use crate::models::qwen4exp::hc::{hc_combine, HyperConnection, Meeting};
use crate::models::qwen4exp::load::{plan_load, step_of, tally_step, tally_upto, LoadPlan, LoadStep};
use crate::models::qwen4exp::matvec::{
    block_minima, chunk_count, dense_matvec, every_row_is_in_one_chunk, gives,
    products_land_by_token, reads, row_chunks, token_major, DenseMatvec, Matvec, RowChunk,
};
use crate::models::qwen4exp::ple::{
    first_empty, first_overrun, mixed, vocab_sum, window_token, PleHash,
};
use crate::models::qwen4exp::ple_block::PleBlock;
use crate::models::qwen4exp::ple_conv::PleConvState;
use crate::models::qwen4exp::reading::{
    a_bank_has_its_blocks_name, a_gather_stays_below_the_bound,
    a_job_serves_the_tokens_that_chose_its_expert, a_payload_lies_whole_in_its_file,
    a_store_has_the_same_banks_everywhere, an_opened_table_is_the_files, jobs_come_by_expert,
    the_most_probable_experts_are_chosen,
};
use crate::models::qwen4exp::table::{
    payload_runs, row_layout, Gathered, GgufPayloadFiles, PleTable, TableSource,
};
use crate::models::qwen4exp::teacher::{
    entry_at, parsed_row, size_product, teach_start, teach_values, values, EntryModel, Teacher,
};
use crate::models::qwen4exp::trunk::{shapes_fit, specs_upto, Kind, TrunkModel};
use crate::text::{decimal, parsed_size, pieces};
use vstd::arithmetic::div_mod::lemma_fundamental_div_mod_converse;
use vstd::prelude::*;

verus! {

// ---- the hash --------------------------------------------------------------

/// A hash mixes its tokens one by one: each token that it sees by its own
/// multiplier, from the current one outward.
pub proof fn a_hash_mixes_each_token_by_its_multiplier(
    token: u32,
    prev: Seq<Option<u32>>,
    multipliers: Seq<u64>,
    eos: u32,
    n: nat,
)
    requires
        n >= 1,
    ensures
        mixed(token, prev, multipliers, eos, 1) == (token as u64).wrapping_mul(multipliers[0]),
        mixed(token, prev, multipliers, eos, n + 1) == mixed(token, prev, multipliers, eos, n) ^ (
        window_token(token, prev, eos, n as int) as u64).wrapping_mul(multipliers[n as int]),
{
}

/// The rows of a span stand token by token, head by head; each is of the
/// token and what is before it, within its head's slice of the table.
pub proof fn rows_of_a_span_stand_by_token(
    hash: PleHash,
    history: &[u32],
    tokens: &[u32],
    r: Vec<u64>,
    t: int,
    h: int,
)
    requires
        hash.wf(),
        call_ensures(PleHash::rows_for_span, (&hash, history, tokens), r),
        0 <= t < tokens@.len(),
        0 <= h < hash.head_vocab_sizes@.len(),
    ensures
        ({
            let heads = hash.head_vocab_sizes@.len();
            let row = r@[t * heads + h];
            &&& r@.len() == tokens@.len() * heads
            &&& row == hash.row_after(history@ + tokens@.take(t), tokens@[t], h)
            &&& hash.head_offsets@[h] <= row < hash.head_offsets@[h] + hash.head_vocab_sizes@[h]
        }),
{
    let heads = hash.head_vocab_sizes@.len() as int;
    let k = t * heads + h;
    hash.rows_stay_in_their_slices(history@, tokens@, t, h);
    lemma_fundamental_div_mod_converse(k, heads, t, h);
    assert(0 <= k < tokens@.len() * heads) by (nonlinear_arith)
        requires
            k == t * heads + h,
            0 <= t < tokens@.len(),
            0 <= h < heads,
    ;
    assert(r@[k] == hash.span_rows(history@, tokens@)[k]);
}

/// The window after a span: the last tokens, one fewer than a hash reads.
pub proof fn a_window_moves_on(hash: PleHash, history: &mut Vec<u32>, tokens: &[u32], i: int)
    requires
        hash.ngram_size > 0,
        call_ensures(PleHash::advance_history, (&hash, history, tokens), ()),
    ensures
        ({
            let all = old(history)@ + tokens@;
            let kept = final(history)@;
            &&& kept.len() == if all.len() < hash.ngram_size - 1 {
                all.len() as int
            } else {
                hash.ngram_size - 1
            }
            &&& 0 <= i < kept.len() ==> kept[kept.len() - 1 - i] == all[all.len() - 1 - i]
        }),
{
    let kept = hash.advanced(old(history)@, tokens@);
    if 0 <= i < kept.len() {
        crate::models::qwen4exp::carrying::a_history_keeps_the_last_tokens(
            hash,
            old(history)@,
            tokens@,
            i,
        );
    }
}

// ---- the table -------------------------------------------------------------

/// A table of bytes has rows of equal length, of whole blocks.
pub proof fn a_table_has_whole_rows(
    bytes: Vec<u8>,
    dtype: GgmlType,
    rows: u64,
    r: Result<PleTable, String>,
)
    requires
        call_ensures(PleTable::from_bytes, (bytes, dtype, rows), r),
        rows <= usize::MAX,
    ensures
        r is Ok ==> rows > 0 && bytes@.len() > 0 && bytes@.len() % rows as nat == 0 && (
        bytes@.len() / rows as nat) % dtype.block_bytes() == 0,
        rows > 0 && bytes@.len() > 0 && bytes@.len() % rows as nat == 0 && (bytes@.len()
            / rows as nat) % dtype.block_bytes() == 0 ==> r is Ok,
        r matches Ok(t) ==> {
            &&& t.rows == rows
            &&& t.row_bound == rows
            &&& t.dtype == dtype
            &&& t.source == TableSource::Memory(bytes)
            &&& t.row_bytes == bytes@.len() / rows as nat
        },
{
}

/// A bound is at least one row and at most all; it changes nothing else.
pub proof fn a_bound_is_within_the_rows(t: PleTable, bound: u64, r: Result<PleTable, String>)
    requires
        call_ensures(PleTable::with_row_bound, (t, bound), r),
    ensures
        r is Ok <==> 1 <= bound <= t.rows,
        r matches Ok(b) ==> b.row_bound == bound && b.rows == t.rows && b.source == t.source
            && b.dtype == t.dtype && b.row_bytes == t.row_bytes && b.row_width == t.row_width,
{
}

/// Rows are gathered exactly where there is room for them all and each is below
/// the bound.
pub proof fn rows_are_gathered_below_the_bound(
    t: PleTable,
    rows: &[u64],
    outputs: usize,
    r: Result<Gathered, String>,
    i: int,
)
    requires
        call_ensures(PleTable::gather, (&t, rows, outputs), r),
    ensures
        r is Ok <==> outputs == rows@.len() * t.row_width && forall|k: int|
            0 <= k < rows@.len() ==> #[trigger] rows@[k] < t.row_bound,
        r matches Ok(Gathered::Reads { slot, offsets }) ==> 0 <= i < rows@.len() ==> (
        t.source matches TableSource::File { slot: s, start } && slot == s && offsets@[i] == start
            + rows@[i] * t.row_bytes),
{
    a_gather_stays_below_the_bound(t, rows@, outputs as nat);
    if r is Ok && 0 <= i < rows@.len() {
        crate::models::qwen4exp::reading::a_read_is_at_its_row(t, rows@, r->Ok_0, i);
    }
}

/// A tensor is read from the file that owns it, whole.
pub proof fn a_tensor_is_read_from_its_file(
    files: GgufPayloadFiles,
    f: GgufFile,
    index: usize,
    r: Result<(usize, u64), String>,
)
    requires
        files.shards@.len() <= usize::MAX,
        call_ensures(GgufPayloadFiles::locate, (&files, &f, index), r),
        r is Ok,
    ensures
        ({
            let (slot, start) = r->Ok_0;
            let s = files.shards@[slot as int];
            let t = f.tensors@[index as int];
            &&& index < f.tensors@.len()
            &&& slot < files.shards@.len()
            &&& s.tensors.start <= index < s.tensors.end
            &&& start == s.data_offset + t.offset
            &&& start + t.payload_bytes() <= s.len
        }),
{
    a_payload_lies_whole_in_its_file(files.shards@, f, index as nat);
}

// ---- the experts -----------------------------------------------------------

/// An expert's bytes: as many rows as it gives, behind those of the experts
/// before it.
pub proof fn an_experts_bytes_follow_the_ones_before(
    b: ExpertBank,
    e: usize,
    r: Result<ExpertBytes, String>,
)
    requires
        call_ensures(ExpertBank::expert_bytes, (&b, e), r),
    ensures
        r is Ok <==> e < b.n_experts,
        r matches Ok(ExpertBytes::Read { offset, len }) ==> len == b.out_dim * b.row_bytes && (
        b.payload matches Payload::File { path, offset: start } && offset == start + e * (b.out_dim
            * b.row_bytes)),
        r matches Ok(ExpertBytes::Bytes(v)) ==> (b.payload matches Payload::Memory(all) && v@
            == all@.subrange(
            e * (b.out_dim * b.row_bytes),
            e * (b.out_dim * b.row_bytes) + b.out_dim * b.row_bytes,
        )),
{
}

/// A bank of bytes is accepted exactly when no dimension is nothing, its rows
/// are whole blocks, and the bytes are as many as its rows take.
pub proof fn a_bank_is_as_long_as_its_rows(
    dtype: GgmlType,
    ne: [usize; 3],
    bytes: Vec<u8>,
    r: Result<ExpertBank, String>,
)
    requires
        call_ensures(ExpertBank::from_bytes, (dtype, ne, bytes), r),
    ensures
        r is Ok ==> {
            &&& ne[0] > 0 && ne[1] > 0 && ne[2] > 0
            &&& ne[0] as nat % dtype.block() == 0
            &&& bytes@.len() == ne[2] * ne[1] * (ne[0] as nat / dtype.block() * dtype.block_bytes())
        },
        r matches Ok(b) ==> b.in_dim == ne[0] && b.out_dim == ne[1] && b.n_experts == ne[2]
            && b.dtype == dtype && b.payload == Payload::Memory(bytes),
{
}

/// The length of rows is checked for what it is.
pub proof fn values_are_whole_rows(
    what: &str,
    got: usize,
    n: usize,
    width: usize,
    r: Result<(), String>,
)
    requires
        call_ensures(check_len, (what, got, n, width), r),
    ensures
        r is Ok <==> got == n * width,
{
}

/// No logit before the first that is not finite is; none is where there is
/// none.
proof fn lemma_finite(logits: Seq<u32>, from: int)
    requires
        0 <= from,
    ensures
        first_non_finite(logits, from) is None <==> forall|i: int|
            from <= i < logits.len() ==> (#[trigger] logits[i] as int / 0x80_0000) % 0x100 != 0xff,
    decreases logits.len() - from,
{
    if from < logits.len() {
        lemma_finite(logits, from + 1);
    }
}

/// Logits are routed exactly when a choice of that many experts is one, there
/// is a logit of each expert for each token, and all are finite.
pub proof fn logits_are_routed_where_all_are_finite(
    logits: Vec<u32>,
    n: usize,
    n_experts: usize,
    k: usize,
    r: Result<(), String>,
)
    requires
        call_ensures(check_route, (&logits, n, n_experts, k), r),
    ensures
        r is Ok <==> {
            &&& 1 <= k <= n_experts
            &&& logits@.len() == n * n_experts
            &&& forall|i: int|
                0 <= i < logits@.len() ==> (#[trigger] logits@[i] as int / 0x80_0000) % 0x100
                    != 0xff
        },
{
    lemma_finite(logits@, 0);
    assert(logits.len() == logits@.len());
}

/// A token is routed to its most probable experts, best first, the lower of
/// equally probable ones, with their probabilities.
pub proof fn a_token_is_routed_to_its_most_probable(
    probs: Vec<u32>,
    n: usize,
    n_experts: usize,
    k: usize,
    r: Routing,
    t: int,
    s: int,
    other: int,
)
    requires
        1 <= k <= n_experts <= u32::MAX,
        probs@.len() == n * n_experts,
        call_ensures(select, (&probs, n, n_experts, k), r),
        0 <= t < n,
        0 <= s < k,
        0 <= other < n_experts,
    ensures
        ({
            let row = row_of(probs@, n_experts as int, t);
            let ids = row_of(r.ids@, k as int, t);
            &&& row.len() == n_experts
            &&& row[other] == probs@[t * n_experts + other]
            &&& ids.len() == k
            &&& ids[s] == r.ids@[t * k + s]
            &&& r.weights@[t * k + s] == row[ids[s] as int]
            &&& !ids.contains(other as u32) ==> row[ids[s] as int] > row[other] || (
            row[ids[s] as int] == row[other] && ids[s] < other)
        }),
{
    let row = row_of(probs@, n_experts as int, t);
    let ids = row_of(r.ids@, k as int, t);
    assert(row_of(r.weights@, k as int, t)[s] == row[ids[s] as int]);
    let (wide, narrow) = (n_experts as int, k as int);
    assert(0 <= t * wide && t * wide + wide <= n * wide) by (nonlinear_arith)
        requires
            0 <= t < n,
            wide >= 0,
    ;
    assert(0 <= t * narrow && t * narrow + narrow <= n * narrow) by (nonlinear_arith)
        requires
            0 <= t < n,
            narrow >= 0,
    ;
    the_most_probable_experts_are_chosen(row, ids, k as nat, s, other);
}

/// No routed id before the first stray is one.
proof fn lemma_no_stray(ids: Seq<u32>, n_experts: nat, from: int)
    requires
        0 <= from,
    ensures
        first_stray_id(ids, n_experts, from) is None <==> forall|i: int|
            from <= i < ids.len() ==> (#[trigger] ids[i]) < n_experts,
    decreases ids.len() - from,
{
    if from < ids.len() {
        lemma_no_stray(ids, n_experts, from + 1);
    }
}

/// A routing is applied exactly when the layer is there, ids, weights and
/// input are of the routing's tokens, and every id is an expert; the work comes
/// by expert, and each piece serves the tokens that chose its expert.
pub proof fn a_routing_is_applied_by_expert(
    store: RoutedExperts,
    layer: usize,
    routing: Routing,
    xs: Vec<u32>,
    r: Result<Vec<ExpertJob>, String>,
    g: int,
    h: int,
    i: int,
    c: int,
)
    requires
        store.n_experts <= u32::MAX,
        call_ensures(RoutedExperts::apply_routing, (&store, layer, &routing, &xs), r),
    ensures
        r is Ok <==> {
            &&& layer < store.layers@.len()
            &&& routing.ids@.len() == routing.n * routing.k
            &&& routing.weights@.len() == routing.n * routing.k
            &&& xs@.len() == routing.n * store.hidden
            &&& forall|k: int|
                0 <= k < routing.ids@.len() ==> (#[trigger] routing.ids@[k]) < store.n_experts
        },
        r matches Ok(jobs) ==> 0 <= g < h < jobs@.len() ==> jobs@[g].expert < jobs@[h].expert,
        r matches Ok(jobs) ==> 0 <= g < jobs@.len() && routing.k > 0 && 0 <= i
            < jobs@[g].tokens@.len() && 0 <= c < store.hidden ==> {
            let job = jobs@[g];
            &&& job.tokens@[i] < routing.n
            &&& exists|slot: int|
                0 <= slot < routing.k && #[trigger] routing.ids@[job.tokens@[i] * routing.k + slot]
                    == job.expert && routing.weights@[job.tokens@[i] * routing.k + slot]
                    == job.weights@[i]
            &&& job.input@[i * store.hidden as nat + c] == xs@[job.tokens@[i] * store.hidden as nat
                + c]
        },
{
    lemma_no_stray(routing.ids@, store.n_experts as nat, 0);
    assert(routing.ids.len() == routing.ids@.len());
    assert(xs.len() == xs@.len());
    if let Ok(jobs) = r {
        if 0 <= g < h < jobs@.len() {
            jobs_come_by_expert(routing.ids@, store.n_experts as nat, g, h);
        }
        if 0 <= g < jobs@.len() && routing.k > 0 && 0 <= i < jobs@[g].tokens@.len() && 0 <= c
            < store.hidden {
            a_job_serves_the_tokens_that_chose_its_expert(
                jobs@[g],
                routing,
                xs@,
                store.hidden as nat,
                store.n_experts as nat,
                g,
                i,
                c,
            );
        }
    }
}

/// An expert's first two banks read the hidden state and give its width, the
/// last reads that and gives the hidden state.
pub proof fn an_expert_reads_what_it_was_given(
    kind: BankKind,
    hidden: usize,
    ffn: usize,
    values: usize,
    n: usize,
    r: Result<Option<DenseMatvec>, String>,
)
    requires
        call_ensures(dense_matvec, (kind, hidden, ffn, values, n), r),
    ensures
        r is Ok <==> values == n * (if kind == BankKind::Down {
            ffn
        } else {
            hidden
        }),
        r matches Ok(Some(plan)) ==> n > 0 && if kind == BankKind::Down {
            plan.in_dim == ffn && plan.out_dim == hidden
        } else {
            plan.in_dim == hidden && plan.out_dim == ffn
        },
        r matches Ok(None) ==> n == 0,
{
}

/// The minima of stored blocks stand behind their steps, two bytes each, low
/// byte first, one in every twenty-four bytes.
pub proof fn a_minimum_stands_behind_its_step(bytes: Vec<u8>, r: Vec<u16>, i: int)
    requires
        call_ensures(block_minima, (&bytes,), r),
        0 <= i < r@.len(),
    ensures
        r@.len() == bytes@.len() / 24,
        r@[i] == bytes@[24 * i + 2] + 0x100 * bytes@[24 * i + 3],
{
}

// ---- the cache -------------------------------------------------------------

/// What is kept of a cache fits, or is nothing; nothing goes that need not.
pub proof fn nothing_leaves_a_cache_needlessly(v: Seq<CacheEntry>, room: int)
    requires
        0 <= room,
    ensures
        total_bytes(fitted(v, room)) <= room,
        total_bytes(v) <= room ==> fitted(v, room) == v,
    decreases v.len(),
{
    if v.len() > 0 && total_bytes(v) > room {
        crate::models::qwen4exp::cache::lemma_oldest(v, v.len());
        nothing_leaves_a_cache_needlessly(
            v.remove(crate::models::qwen4exp::cache::oldest(v)),
            room,
        );
    }
}

/// A lookup hits what is cached, misses what is not, and passes over what the
/// whole cache could not hold; a hit makes its expert the most recent.
pub proof fn a_lookup_hits_what_is_cached(
    c: &mut ExpertCache,
    layer: usize,
    expert: usize,
    bytes: usize,
    r: Lookup,
)
    requires
        old(c).clock < u64::MAX,
        call_ensures(ExpertCache::lookup, (c, layer, expert, bytes), r),
    ensures
        r == Lookup::TooLarge <==> bytes > old(c).capacity_bytes,
        r == Lookup::Hit <==> bytes <= old(c).capacity_bytes && exists|i: int|
            0 <= i < old(c).entries@.len() && (#[trigger] old(c).entries@[i]).layer == layer
                && old(c).entries@[i].expert == expert,
        r == Lookup::Hit ==> final(c).hits == old(c).hits + 1 && final(c).misses == old(c).misses,
        r == Lookup::Miss ==> final(c).hits == old(c).hits && final(c).misses == old(c).misses + 1
            && final(c).entries@ == old(c).entries@,
        final(c).evictions == old(c).evictions,
        final(c).entries@.len() == old(c).entries@.len(),
        r == Lookup::TooLarge ==> final(c).hits == old(c).hits && final(c).misses == old(c).misses,
{
}

/// An expert that is offered is cached, as the most recent; those that leave
/// for it were asked for less recently than those that stay, and none leaves
/// where there is room.
pub proof fn an_offered_expert_is_cached(
    c: &mut ExpertCache,
    layer: usize,
    expert: usize,
    bytes: usize,
    gone: int,
    kept: int,
)
    requires
        old(c).wf(),
        old(c).clock < u64::MAX,
        bytes <= old(c).capacity_bytes,
        call_ensures(ExpertCache::insert, (c, layer, expert, bytes), ()),
        !cached(old(c).entries@, layer, expert),
    ensures
        final(c).entries@.len() > 0,
        final(c).entries@.last().layer == layer && final(c).entries@.last().expert == expert,
        final(c).entries@.last().bytes == bytes,
        final(c).entries@.last().last_touch == old(c).clock + 1,
        total_bytes(final(c).entries@) <= old(c).capacity_bytes,
        ({
            let before = old(c).entries@;
            let stay = final(c).entries@.drop_last();
            &&& total_bytes(before) + bytes <= old(c).capacity_bytes ==> stay == before
            &&& 0 <= gone < before.len() && 0 <= kept < stay.len() && !stay.contains(before[gone])
                ==> before[gone].last_touch <= stay[kept].last_touch
        }),
{
    let room = old(c).capacity_bytes - bytes;
    let rest = fitted(old(c).entries@, room);
    nothing_leaves_a_cache_needlessly(old(c).entries@, room);
    assert(final(c).entries@.drop_last() =~= rest);
    if 0 <= gone < old(c).entries@.len() && 0 <= kept < rest.len() && !rest.contains(
        old(c).entries@[gone],
    ) {
        evictions_take_the_least_recent(old(c).entries@, room, gone, kept);
        assert(final(c).entries@[kept] == rest[kept]);
    }
}

// ---- streams and windows ---------------------------------------------------

/// Element `e` of stream `s` of a row gains element `e` of the row's output by
/// the weight of that stream.
pub proof fn a_stream_gains_the_rows_output(
    rows: usize,
    streams: usize,
    hidden: usize,
    r: Vec<Meeting>,
    row: int,
    s: int,
    e: int,
)
    requires
        rows * streams * hidden <= usize::MAX,
        rows * streams <= usize::MAX,
        rows * hidden <= usize::MAX,
        call_ensures(hc_combine, (rows, streams, hidden), r),
        0 <= row < rows,
        0 <= s < streams,
        0 <= e < hidden,
    ensures
        r@.len() == rows * streams * hidden,
        r@[row * (streams * hidden) + s * hidden + e].output == row * hidden + e,
        r@[row * (streams * hidden) + s * hidden + e].inject == row * streams + s,
{
    let p = row * (streams * hidden) + s * hidden + e;
    assert(row * hidden + e < rows * hidden) by (nonlinear_arith)
        requires
            0 <= row < rows,
            0 <= e < hidden,
    ;
    let q = row * streams + s;
    assert(0 <= q < rows * streams) by (nonlinear_arith)
        requires
            q == row * streams + s,
            0 <= row < rows,
            0 <= s < streams,
    ;
    assert(q * hidden + e == p) by (nonlinear_arith)
        requires
            q == row * streams + s,
            p == row * (streams * hidden) + s * hidden + e,
    ;
    assert(0 <= q * hidden + e < rows * streams * hidden) by (nonlinear_arith)
        requires
            0 <= q < rows * streams,
            0 <= e < hidden,
    ;
    streams_lie_one_after_another(row, s, e, streams as int, hidden as int);
}

/// The places that an output element is mixed from: that element of each
/// stream of the row.
pub proof fn an_output_is_mixed_from_every_stream(
    hc: HyperConnection,
    row: usize,
    e: usize,
    r: Vec<usize>,
    s: int,
)
    requires
        call_ensures(HyperConnection::mixed_places, (&hc, row, e), r),
        e < hc.hidden,
        0 <= s < hc.streams,
    ensures
        r@.len() == hc.streams,
        r@[s] == row * (hc.streams * hc.hidden) + s * hc.hidden + e,
{
    let (streams, hidden) = (hc.streams as int, hc.hidden as int);
    assert((row * streams + s) * hidden + e == row * (streams * hidden) + s * hidden + e)
        by (nonlinear_arith);
}

/// What a window reads: tap `k` the input as many dilations back as it is from
/// the last tap, of this input or, farther back, of the history.
pub proof fn a_window_reads_back_by_dilations(
    state: PleConvState,
    xs: Vec<u32>,
    tokens: usize,
    kernel: usize,
    dilation: usize,
    r: Vec<u32>,
    bi: int,
    t: int,
    ch: int,
    k: int,
)
    requires
        call_ensures(PleConvState::conv_windows, (&state, &xs, tokens, kernel, dilation), r),
        0 <= bi < state.batch,
        0 <= t < tokens,
        0 <= ch < state.channels,
        0 <= k < kernel,
        dilation >= 1,
        state.cols == (kernel - 1) * dilation,
    ensures
        ({
            let back = (kernel - 1 - k) * dilation;
            r@[((bi * tokens + t) * state.channels + ch) * kernel + k] == if back <= t {
                xs@[(bi * tokens + (t - back)) * state.channels + ch]
            } else {
                state.hist@[(bi * state.channels + ch) * state.cols + (state.cols - (back - t))]
            }
        }),
{
    a_tap_reads_its_own_distance(
        state,
        xs@,
        tokens as int,
        kernel as int,
        dilation as int,
        bi,
        t,
        ch,
        k,
    );
}

/// What a convolution carries on: the last columns of the input, and of the
/// history where the input is shorter.
pub proof fn a_convolution_carries_its_last_columns(
    state: &mut PleConvState,
    xs: Vec<u32>,
    tokens: usize,
    bi: int,
    ch: int,
    back: int,
)
    requires
        call_ensures(PleConvState::advance, (state, &xs, tokens), ()),
        0 <= bi < old(state).batch,
        0 <= ch < old(state).channels,
        1 <= back <= old(state).cols,
    ensures
        ({
            let s = *old(state);
            final(state).hist@[(bi * s.channels + ch) * s.cols + (s.cols - back)] == if back
                <= tokens {
                xs@[(bi * tokens + (tokens - back)) * s.channels + ch]
            } else {
                s.hist@[(bi * s.channels + ch) * s.cols + (s.cols - (back - tokens))]
            }
        }),
        final(state).cols == old(state).cols,
        final(state).channels == old(state).channels,
        final(state).batch == old(state).batch,
{
    a_history_ends_with_the_input(*old(state), xs@, tokens as int, bi, ch, back);
}

// ---- the load --------------------------------------------------------------

/// What a tally holds: the step of every tensor, in the file's order, and a
/// trunk tensor exactly where one of them was read as it, once.
proof fn lemma_tally(
    cfg: Qwen4expConfig,
    specs: Seq<TrunkModel>,
    tensors: Seq<GgufTensorInfo>,
    n: nat,
)
    requires
        n <= tensors.len(),
        tally_upto(cfg, specs, tensors, n) is Ok,
    ensures
        ({
            let t = tally_upto(cfg, specs, tensors, n)->Ok_0;
            &&& t.steps.len() == n
            &&& forall|i: int|
                0 <= i < n ==> step_of(cfg, specs, #[trigger] tensors[i]) == Ok::<
                    LoadStep,
                    Seq<char>,
                >(t.steps[i])
            &&& forall|i: int|
                0 <= i < n ==> (#[trigger] t.steps[i] matches LoadStep::Read { spec, register }
                    ==> t.loaded.contains(spec as int))
            &&& forall|k: int| #[trigger]
                t.loaded.contains(k) ==> exists|i: int|
                    0 <= i < n && (#[trigger] t.steps[i] matches LoadStep::Read { spec, register }
                        && spec == k)
        }),
    decreases n,
{
    if n > 0 {
        let before = tally_upto(cfg, specs, tensors, (n - 1) as nat);
        assert(before is Ok);
        lemma_tally(cfg, specs, tensors, (n - 1) as nat);
        let b = before->Ok_0;
        let t = tally_upto(cfg, specs, tensors, n)->Ok_0;
        assert(tally_step(cfg, specs, b, tensors[n - 1]) == Ok::<_, Seq<char>>(t));
        let step = step_of(cfg, specs, tensors[n - 1])->Ok_0;
        assert(t.steps == b.steps.push(step));
        assert forall|i: int| 0 <= i < n implies step_of(cfg, specs, #[trigger] tensors[i]) == Ok::<
            LoadStep,
            Seq<char>,
        >(t.steps[i]) by {
            if i < n - 1 {
                assert(t.steps[i] == b.steps[i]);
            }
        }
        assert forall|i: int| 0 <= i < n implies (
        #[trigger] t.steps[i] matches LoadStep::Read { spec, register } ==> t.loaded.contains(
            spec as int,
        )) by {
            if i < n - 1 {
                assert(t.steps[i] == b.steps[i]);
            }
        }
        assert forall|k: int| #[trigger] t.loaded.contains(k) implies exists|i: int|
            0 <= i < n && (#[trigger] t.steps[i] matches LoadStep::Read { spec, register } && spec
                == k) by {
            if b.loaded.contains(k) {
                let i = choose|i: int|
                    0 <= i < n - 1 && (#[trigger] b.steps[i] matches LoadStep::Read {
                        spec,
                        register,
                    } && spec == k);
                assert(t.steps[i] == b.steps[i]);
            } else {
                assert(t.steps[n - 1] == step);
            }
        }
    }
}

/// A load takes every tensor of the file in order, each as the trunk tensor of
/// its name and shape, or as one that is served or skipped; every trunk tensor
/// is read, and three banks a layer are served.
pub proof fn a_load_reads_every_trunk_tensor(
    f: GgufFile,
    cfg: Qwen4expConfig,
    r: Result<LoadPlan, String>,
    i: int,
    k: int,
)
    requires
        shapes_fit(cfg),
        specs_upto(cfg, cfg.num_layers as nat).len() <= usize::MAX,
        call_ensures(plan_load, (&f, &cfg), r),
        r is Ok,
    ensures
        ({
            let p = r->Ok_0;
            let specs = specs_upto(cfg, cfg.num_layers as nat);
            &&& p.steps@.len() == f.tensors@.len()
            &&& 0 <= i < f.tensors@.len() ==> (p.steps@[i] matches LoadStep::Read {
                spec,
                register,
            } ==> spec < specs.len() && specs[spec as int].name == f.tensors@[i].name@
                && specs[spec as int].ne == f.tensors@[i].dims@ && (register
                <==> specs[spec as int].kind == Kind::Linear && f.tensors@[i].dtype
                != GgmlType::F32))
            &&& 0 <= k < specs.len() ==> exists|j: int|
                0 <= j < p.steps@.len() && (#[trigger] p.steps@[j] matches LoadStep::Read {
                    spec,
                    register,
                } && spec == k)
            &&& p.served == cfg.num_layers + cfg.num_layers + cfg.num_layers + (
            if cfg.ple_layers@.len() > 0 {
                1int
            } else {
                0int
            })
        }),
{
    let specs = specs_upto(cfg, cfg.num_layers as nat);
    lemma_tally(cfg, specs, f.tensors@, f.tensors@.len());
    a_complete_file_serves_three_banks_a_layer(cfg);
    if 0 <= i < f.tensors@.len() {
        every_tensor_has_one_use(cfg, specs, f.tensors@[i]);
    }
    let t = tally_upto(cfg, specs, f.tensors@, f.tensors@.len())->Ok_0;
    if 0 <= k < specs.len() {
        assert(t.loaded.contains(k));
    }
}

// ---- the teacher -----------------------------------------------------------

/// A row of the index: number, name, occurrence and type, then four sizes,
/// between tabs.
pub proof fn an_index_row_has_eight_columns(line: Seq<char>, e: EntryModel)
    requires
        parsed_row(line) == Ok::<EntryModel, Seq<char>>(e),
    ensures
        ({
            let f = pieces(line, '\t');
            &&& f.len() == 8
            &&& parsed_size(f[0]) == Some(e.seq)
            &&& e.name == f[1]
            &&& parsed_size(f[2]) == Some(e.occurrence)
            &&& e.dtype == f[3]
            &&& parsed_size(f[4]) is Some && parsed_size(f[5]) is Some && parsed_size(f[6]) is Some
                && parsed_size(f[7]) is Some
            &&& e.elems == parsed_size(f[4])->0 * parsed_size(f[5])->0 * parsed_size(f[6])->0
                * parsed_size(f[7])->0
        }),
{
    let f = pieces(line, '\t');
    reveal_with_fuel(size_product, 6);
    let (a, b, c, d) = (
        parsed_size(f[4])->0,
        parsed_size(f[5])->0,
        parsed_size(f[6])->0,
        parsed_size(f[7])->0,
    );
    assert(1 * a == a) by (nonlinear_arith);
    assert(size_product(f, 4, 1) == Ok::<nat, Seq<char>>(e.elems));
}

/// A reference as long as the values is laid over all of them, one as long as a
/// row over the last of several; any other over none.
pub proof fn a_reference_lies_over_the_end(
    reference: usize,
    b: usize,
    tokens: usize,
    w: usize,
    r: Option<usize>,
)
    requires
        b * tokens <= usize::MAX,
        b * tokens * w <= usize::MAX,
        call_ensures(teach_start, (reference, b, tokens, w), r),
    ensures
        reference == b * tokens * w ==> r == Some(0usize),
        reference != b * tokens * w && reference == w && b * tokens > 1 ==> (r matches Some(s)
            && s + w == b * tokens * w),
        reference != b * tokens * w && !(reference == w && b * tokens > 1) ==> r is None,
{
}

/// Taught values end with the reference where it is enforced, and stay where it
/// is not.
pub proof fn taught_values_end_with_the_reference(
    force: bool,
    ours: Vec<u32>,
    reference: Vec<u32>,
    start: usize,
    r: Vec<u32>,
    i: int,
)
    requires
        start + reference@.len() == ours@.len(),
        call_ensures(teach_values, (force, &ours, &reference, start), r),
        0 <= i < ours@.len(),
    ensures
        r@.len() == ours@.len(),
        r@[i] == if force && i >= start {
            reference@[i - start]
        } else {
            ours@[i]
        },
{
}

// ---- opening ---------------------------------------------------------------

/// Hash parameters are accepted exactly when a hash reads two to sixteen
/// tokens, each has a multiplier, there are as many heads as there are orders
/// and heads of each, every head has rows, and its slice is of the table.
pub proof fn a_hash_is_accepted_within_its_table(
    ngram_size: usize,
    heads_per_ngram: usize,
    multipliers: Vec<u64>,
    vocabs: Vec<u64>,
    offsets: Vec<u64>,
    eos: u32,
    r: Result<PleHash, String>,
)
    requires
        call_ensures(
            PleHash::new,
            (ngram_size, heads_per_ngram, multipliers, vocabs, offsets, eos),
            r,
        ),
    ensures
        r is Ok <==> {
            &&& 2 <= ngram_size <= 16
            &&& multipliers@.len() == ngram_size
            &&& 0 < (ngram_size - 1) * heads_per_ngram <= 1024
            &&& vocabs@.len() == (ngram_size - 1) * heads_per_ngram
            &&& offsets@.len() == vocabs@.len()
            &&& vocab_sum(vocabs@) <= u64::MAX
            &&& forall|h: int|
                0 <= h < vocabs@.len() ==> (#[trigger] vocabs@[h]) > 0 && offsets@[h] + vocabs@[h]
                    <= vocab_sum(vocabs@)
        },
        r matches Ok(hash) ==> hash.ngram_size == ngram_size && hash.heads_per_ngram
            == heads_per_ngram && hash.multipliers == multipliers && hash.head_vocab_sizes == vocabs
            && hash.head_offsets == offsets && hash.eos == eos,
{
    lemma_heads(vocabs@, offsets@, vocab_sum(vocabs@) as int, 0);
    if ngram_size >= 2 {
        assert(0 <= (ngram_size - 1) * heads_per_ngram) by (nonlinear_arith)
            requires
                ngram_size >= 2,
        ;
    }
}

/// Every head has rows, and its slice is of the table, where none is found that
/// has not or is not.
proof fn lemma_heads(vocabs: Seq<u64>, offsets: Seq<u64>, total: int, from: int)
    requires
        0 <= from,
    ensures
        first_empty(vocabs, from) is None <==> forall|h: int|
            from <= h < vocabs.len() ==> (#[trigger] vocabs[h]) > 0,
        first_overrun(offsets, vocabs, total, from) is None <==> forall|h: int|
            from <= h < vocabs.len() ==> offsets[h] + (#[trigger] vocabs[h]) <= total,
    decreases vocabs.len() - from,
{
    if from < vocabs.len() {
        lemma_heads(vocabs, offsets, total, from + 1);
    }
}

/// A single file owns every tensor from its own payload on; of a split set each
/// shard owns its own run.
pub proof fn a_file_owns_its_own_tensors(
    f: GgufFile,
    lens: Vec<u64>,
    r: GgufPayloadFiles,
    i: int,
)
    requires
        call_ensures(GgufPayloadFiles::open, (&f, &lens), r),
        0 <= i < r.shards@.len(),
    ensures
        r.shards@[i].len == lens@[i],
        f.shards@.len() == 0 && i == 0 ==> r.shards@[0].path@ == f.path@
            && r.shards@[0].data_offset == f.data_offset && r.shards@[0].tensors.start == 0
            && r.shards@[0].tensors.end == f.tensors@.len(),
        f.shards@.len() > 0 && i < f.shards@.len() ==> r.shards@[i].path@ == f.shards@[i].path@
            && r.shards@[i].data_offset == f.shards@[i].data_offset && r.shards@[i].tensors.start
            == f.shards@[i].tensors.start && r.shards@[i].tensors.end == f.shards@[i].tensors.end,
{
    let s = r.shards@[i];
    assert(payload_runs(f)[i] == (
        s.path@,
        s.data_offset,
        s.tensors.start as int,
        s.tensors.end as int,
    ));
}

/// An opened table has the rows and the width of the file's tensor, and a bound
/// within them.
pub proof fn an_opened_table_has_the_tensors_rows(
    f: GgufFile,
    files: GgufPayloadFiles,
    bound: u64,
    r: Result<PleTable, String>,
)
    requires
        call_ensures(PleTable::open_with, (&f, &files, bound), r),
        r is Ok,
    ensures
        ({
            let t = r->Ok_0;
            &&& t.row_bound == bound
            &&& 1 <= bound <= t.rows
            &&& t.source is File
            &&& exists|i: int|
                0 <= i < f.tensors@.len() && (#[trigger] f.tensors@[i]).name@
                    == "per_layer_token_embd.weight"@ && f.tensors@[i].dims@.len() == 2
                    && t.row_width as u64 == f.tensors@[i].dims@[0] && t.rows
                    == f.tensors@[i].dims@[1]
        }),
{
    an_opened_table_is_the_files(files.shards@, f, bound);
}

/// A span is embedded exactly where the table has a row for everything that the
/// hash can address.
pub proof fn a_span_is_embedded_where_the_table_reaches(
    t: PleTable,
    hash: PleHash,
    history: &[u32],
    tokens: &[u32],
    r: Result<Gathered, String>,
)
    requires
        call_ensures(PleTable::embed, (&t, &hash, history, tokens), r),
    ensures
        r is Ok <==> vocab_sum(hash.head_vocab_sizes@) <= t.row_bound,
{
}

/// A store of experts is of the shapes of its first bank, and has a cache where
/// it is given room for one.
pub proof fn a_store_is_of_its_first_banks_shapes(
    layers: Vec<LayerExperts>,
    cache_bytes: usize,
    r: Result<RoutedExperts, String>,
)
    requires
        layers@.len() > 0,
        call_ensures(RoutedExperts::from_layers, (layers, cache_bytes), r),
        r is Ok,
    ensures
        ({
            let s = r->Ok_0;
            &&& s.layers@ == layers@
            &&& s.hidden == layers@[0].gate.in_dim
            &&& s.ffn == layers@[0].gate.out_dim
            &&& s.n_experts == layers@[0].gate.n_experts
            &&& s.cache is Some <==> cache_bytes > 0
            &&& s.cache matches Some(c) ==> c.capacity_bytes == cache_bytes && c.entries@.len() == 0
            &&& forall|l: int|
                0 <= l < layers@.len() ==> {
                    let x = #[trigger] layers@[l];
                    &&& x.gate.in_dim == s.hidden && x.gate.out_dim == s.ffn
                    &&& x.up.in_dim == s.hidden && x.up.out_dim == s.ffn
                    &&& x.down.in_dim == s.ffn && x.down.out_dim == s.hidden
                    &&& x.gate.n_experts == s.n_experts && x.up.n_experts == s.n_experts
                        && x.down.n_experts == s.n_experts
                }
        }),
{
    a_store_has_the_same_banks_everywhere(layers@);
}

/// Rows are cut into chunks of so many elements, at least one row each.
pub proof fn a_chunk_is_of_whole_rows(in_dim: usize, r: usize)
    requires
        in_dim > 0,
        call_ensures(chunk_rows, (in_dim,), r),
    ensures
        r >= 1,
        r == 1 || r * in_dim <= 65_536,
        (r + 1) * in_dim > 65_536,
{
    let (d, most) = (in_dim as int, 65_536int);
    if d <= most {
        vstd::arithmetic::div_mod::lemma_fundamental_div_mod(most, d);
        let q = most / d;
        assert(d * q == q * d) by (nonlinear_arith);
        assert((q + 1) * d == q * d + d) by (nonlinear_arith);
    } else {
        assert((r + 1) * d > most) by (nonlinear_arith)
            requires
                r == 1,
                d > most,
                most >= 0,
        ;
    }
}

/// A reference replaces the values unless it is told not to; only tensors in
/// single precision are references.
pub proof fn a_reference_replaces_unless_it_is_told(
    text: &str,
    force: Option<&str>,
    r: Result<Teacher, String>,
    name: &str,
    occurrence: usize,
    file: Option<(String, usize)>,
)
    requires
        call_ensures(Teacher::new, (text, force), r),
        r is Ok,
        call_ensures(Teacher::file_of, (&r->Ok_0, name, occurrence), file),
    ensures
        force is None ==> r->Ok_0.force,
        force matches Some(v) ==> (r->Ok_0.force <==> v@ != "0"@),
        file matches Some(f) ==> exists|i: int|
            0 <= i < r->Ok_0.entries@.len() && (#[trigger] r->Ok_0.entries@[i]).name@ == name@
                && r->Ok_0.entries@[i].occurrence == occurrence && r->Ok_0.entries@[i].dtype@
                == "f32"@ && r->Ok_0.entries@[i].elems == f.1,
{
    if let Some(f) = file {
        let t = r->Ok_0;
        lemma_entry(t.index(), name@, occurrence as nat, 0);
        let i = entry_at(t.index(), name@, occurrence as nat, 0)->0;
        assert(t.index()[i] == t.entries@[i]@);
        assert(t.entries@[i].name@ == name@);
    }
}

/// An entry that is found is of its name and occurrence.
proof fn lemma_entry(s: Seq<EntryModel>, name: Seq<char>, occurrence: nat, from: int)
    requires
        0 <= from,
    ensures
        entry_at(s, name, occurrence, from) matches Some(i) ==> from <= i < s.len() && s[i].name
            == name && s[i].occurrence == occurrence,
    decreases s.len() - from,
{
    if from < s.len() {
        lemma_entry(s, name, occurrence, from + 1);
    }
}

// ---- banks and tables by name ----------------------------------------------

/// A bank is the tensor of its kind in its layer, and of its kind in a layer's
/// three.
pub proof fn a_bank_is_of_its_kind(
    kind: BankKind,
    layer: usize,
    name: String,
    experts: LayerExperts,
    bank: &ExpertBank,
)
    requires
        call_ensures(BankKind::tensor_name, (kind, layer), name),
        call_ensures(LayerExperts::bank, (&experts, kind), bank),
    ensures
        kind == BankKind::Gate ==> name@ == "blk."@ + decimal(layer as nat) + "."@
            + "ffn_gate_exps.weight"@ && *bank == experts.gate,
        kind == BankKind::Up ==> name@ == "blk."@ + decimal(layer as nat) + "."@
            + "ffn_up_exps.weight"@ && *bank == experts.up,
        kind == BankKind::Down ==> name@ == "blk."@ + decimal(layer as nat) + "."@
            + "ffn_down_exps.weight"@ && *bank == experts.down,
{
    a_bank_has_its_blocks_name(kind, layer as nat);
}

/// A bank in a file is accepted where it ends within the file.
pub proof fn a_bank_ends_within_its_file(
    path: &str,
    len: u64,
    offset: u64,
    dtype: GgmlType,
    ne: [usize; 3],
    r: Result<ExpertBank, String>,
)
    requires
        call_ensures(ExpertBank::from_file, (path, len, offset, dtype, ne), r),
        r is Ok,
    ensures
        ({
            let b = r->Ok_0;
            let row = ne[0] as nat / dtype.block() * dtype.block_bytes();
            &&& ne[0] > 0 && ne[1] > 0 && ne[2] > 0
            &&& ne[0] as nat % dtype.block() == 0
            &&& offset + ne[2] * ne[1] * row <= len
            &&& b.in_dim == ne[0] && b.out_dim == ne[1] && b.n_experts == ne[2] && b.dtype == dtype
            &&& b.payload matches Payload::File { path: p, offset: o } && p@ == path@ && o == offset
        }),
{
}

/// The bytes of a bank's row and of the bank.
pub proof fn a_bank_takes_the_bytes_of_its_rows(
    dtype: GgmlType,
    ne: [usize; 3],
    r: Result<(usize, usize), String>,
)
    requires
        call_ensures(ExpertBank::geometry, (dtype, ne), r),
        r is Ok,
    ensures
        r->Ok_0.0 == ne[0] as nat / dtype.block() * dtype.block_bytes(),
        r->Ok_0.1 == ne[2] * ne[1] * r->Ok_0.0,
{
}

/// What a store says of itself.
pub proof fn a_store_says_what_it_holds(
    s: RoutedExperts,
    layers: usize,
    experts: usize,
    hidden: usize,
    width: usize,
    dense: usize,
    layer: usize,
    expert: usize,
    there: Result<(), String>,
)
    requires
        call_ensures(RoutedExperts::n_layers, (&s,), layers),
        call_ensures(RoutedExperts::n_experts, (&s,), experts),
        call_ensures(RoutedExperts::hidden_size, (&s,), hidden),
        call_ensures(RoutedExperts::ffn_size, (&s,), width),
        call_ensures(RoutedExperts::dense_expert_bytes, (&s,), dense),
        call_ensures(RoutedExperts::check_expert, (&s, layer, expert), there),
    ensures
        layers == s.layers@.len(),
        experts == s.n_experts,
        hidden == s.hidden,
        width == s.ffn,
        dense == 3 * (hidden * width) * 4,
        there is Ok <==> layer < layers && expert < experts,
{
}

/// What a bank says of itself.
pub proof fn a_bank_says_what_it_holds(
    b: ExpertBank,
    dtype: GgmlType,
    ne: [usize; 3],
    row: usize,
    len: usize,
)
    requires
        call_ensures(ExpertBank::dtype, (&b,), dtype),
        call_ensures(ExpertBank::ne, (&b,), ne),
        call_ensures(ExpertBank::row_bytes, (&b,), row),
        call_ensures(ExpertBank::expert_bytes_len, (&b,), len),
    ensures
        dtype == b.dtype,
        ne[0] == b.in_dim && ne[1] == b.out_dim && ne[2] == b.n_experts,
        row == b.row_bytes,
        len == b.out_dim * b.row_bytes,
{
}

/// What a cache says of itself.
pub proof fn a_cache_says_what_it_holds(c: ExpertCache, r: CacheStats)
    requires
        call_ensures(ExpertCache::stats, (&c,), r),
    ensures
        r.capacity_bytes == c.capacity_bytes && r.used_bytes == c.used_bytes,
        r.entries == c.entries@.len(),
        r.hits == c.hits && r.misses == c.misses && r.evictions == c.evictions,
{
    assert(c.entries.len() == c.entries@.len());
}

/// A product reads one expert's bytes in chunks of whole rows, where the input
/// is whole rows and there is such an expert.
pub proof fn a_product_reads_one_expert(
    b: ExpertBank,
    e: usize,
    values: usize,
    n: usize,
    r: Result<Option<Matvec>, String>,
)
    requires
        call_ensures(ExpertBank::matvec, (&b, e, values, n), r),
    ensures
        r is Ok <==> values == n * b.in_dim && e < b.n_experts,
        r matches Ok(None) ==> n == 0,
        r matches Ok(Some(plan)) ==> n > 0 && match plan.bytes {
            ExpertBytes::Read { offset, len } => len == b.out_dim * b.row_bytes && (
            b.payload matches Payload::File { path, offset: start } && offset == start + e * (
            b.out_dim * b.row_bytes)),
            ExpertBytes::Bytes(v) => (b.payload matches Payload::Memory(all) && v@ == all@.subrange(
                e * (b.out_dim * b.row_bytes),
                e * (b.out_dim * b.row_bytes) + b.out_dim * b.row_bytes,
            )),
        },
{
}

/// Rows are cut in order, so many to a chunk, the last as long as is left.
pub proof fn rows_are_cut_in_order(out_dim: usize, rows: usize, r: Vec<RowChunk>, row: int)
    requires
        1 <= rows,
        call_ensures(row_chunks, (out_dim, rows), r),
        0 <= row < out_dim,
    ensures
        row / (rows as int) < r@.len(),
        r@[row / (rows as int)].start <= row < r@[row / (rows as int)].end,
{
    let i = row / (rows as int);
    assert(0 <= chunk_count(out_dim as int, rows as int)) by (nonlinear_arith)
        requires
            1 <= rows,
            0 <= out_dim,
            chunk_count(out_dim as int, rows as int) == (out_dim as int + rows as int - 1) / (
            rows as int),
    ;
    lemma_chunk_of(row, out_dim as int, rows as int);
    every_row_is_in_one_chunk(row, out_dim as int, rows as int, i);
}

/// A row's chunk is one of the chunks.
proof fn lemma_chunk_of(row: int, out_dim: int, rows: int)
    requires
        0 <= row < out_dim,
        1 <= rows,
    ensures
        0 <= row / rows < chunk_count(out_dim, rows),
{
    assert(0 <= row / rows < (out_dim + rows - 1) / rows) by (nonlinear_arith)
        requires
            0 <= row < out_dim,
            1 <= rows,
    ;
}

/// Products by row are turned to stand by token.
pub proof fn products_stand_by_token(
    by_row: Vec<u32>,
    out_dim: usize,
    n: usize,
    r: Vec<u32>,
    row: int,
    t: int,
)
    requires
        by_row@.len() == out_dim * n,
        call_ensures(token_major, (by_row, out_dim, n), r),
        0 <= row < out_dim,
        0 <= t < n,
    ensures
        r@[t * out_dim + row] == by_row@[row * n + t],
{
    products_land_by_token(by_row@, out_dim as int, n as int, row, t);
}

/// The row of a head, of a token and the tokens before it, is of the head's
/// order and within its slice.
pub proof fn a_heads_row_is_of_its_order(
    hash: PleHash,
    token: u32,
    prev: &[Option<u32>],
    out: &mut [u64],
    h: int,
)
    requires
        hash.wf(),
        call_ensures(PleHash::row_ids, (&hash, token, prev, out), ()),
        0 <= h < final(out)@.len(),
    ensures
        final(out)@.len() == old(out)@.len(),
        final(out)@[h] == mixed(
            token,
            prev@,
            hash.multipliers@,
            hash.eos,
            (h / hash.heads_per_ngram as int + 2) as nat,
        ) % hash.head_vocab_sizes@[h] + hash.head_offsets@[h],
{
}

/// A history of nothing has a column for every place that a tap can reach back
/// to, of every channel of every sequence, all zero.
pub proof fn a_history_starts_from_nothing(
    block: PleBlock,
    batch: usize,
    r: PleConvState,
    len: usize,
    i: int,
)
    requires
        block.wf(),
        call_ensures(PleBlock::new_state, (&block, batch), r),
        call_ensures(PleBlock::history_len, (&block,), len),
        0 <= i < r.hist@.len(),
    ensures
        r.batch == batch,
        r.channels == block.hidden * block.streams,
        r.cols == (block.kernel - 1) * block.dilation,
        len == r.cols,
        r.hist@[i] == 0,
{
}

/// A row of a table is of whole blocks, and takes their bytes.
pub proof fn a_tables_row_is_of_whole_blocks(
    dtype: GgmlType,
    width: usize,
    r: Result<(usize, usize), String>,
)
    requires
        call_ensures(row_layout, (dtype, width), r),
    ensures
        r matches Ok(l) ==> width > 0 && width as nat % dtype.block() == 0 && l.1 == width as nat
            / dtype.block() * dtype.block_bytes(),
        width > 0 && width as nat % dtype.block() == 0 ==> r is Ok,
{
}

/// A reference file holds four bytes for each value, low byte first.
pub proof fn a_reference_holds_four_bytes_a_value(
    name: &str,
    elems: usize,
    bytes: Vec<u8>,
    r: Result<Vec<u32>, String>,
    i: int,
)
    requires
        call_ensures(values, (name, elems, &bytes), r),
    ensures
        r is Ok <==> bytes@.len() == elems * 4,
        r is Ok && 0 <= i < elems ==> r->Ok_0@[i] == bytes@[4 * i] + 0x100 * bytes@[4 * i + 1]
            + 0x1_0000 * bytes@[4 * i + 2] + 0x100_0000 * bytes@[4 * i + 3],
{
}

} // verus!
