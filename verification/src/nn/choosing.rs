//! What is chosen and what is counted around the packed products, and which
//! values the reference arithmetic reads, place by place.

use crate::gguf::GgmlType;
use crate::nn::packed_gemv::{
    candidates, dividing, entry_for, fastest_place, forced_split, host_chunk_blocks, l2_budget,
    launch, packed_set, place_for, route, scattered, settled, supported, try_q4s_head,
    twin_eligible, Launch, QuantScheme, QuantStore, QuantValue, Route, SplitEntry,
};
use crate::nn::refarith::{
    flash_attn_rows, grid_block, grid_for, row_runs, runs, switched_on, FlashDims, FlashRow, Run,
    Switch,
};
use crate::text::{lowered, parsed_size};
use vstd::arithmetic::div_mod::{lemma_fundamental_div_mod, lemma_fundamental_div_mod_converse};
use vstd::prelude::*;

verus! {

// ---- which product ---------------------------------------------------------

/// A weight goes through the packed products exactly when it is of four or
/// eight bits, in blocks of thirty-two along the last dimension, with single
/// precision scales, packed along that dimension or native.
pub proof fn a_packed_weight_is_of_this_form(s: QuantScheme)
    ensures
        supported(s) <==> {
            &&& s.value != QuantValue::Other
            &&& s.block == Some(32usize)
            &&& s.single_scales
            &&& s.store == QuantStore::Native || s.store == QuantStore::PackedU32(0)
        },
{
}

/// One row takes the matrix-vector product. On the host, up to 1024 rows take
/// the matrix product; elsewhere up to 64 take one product a row.
pub proof fn rows_decide_the_product(s: QuantScheme, m: nat, on_host: bool)
    requires
        supported(s),
        m >= 1,
    ensures
        route(true, Some(s), m, on_host) == Some(Route::Gemv) <==> m == 1,
        route(true, Some(s), m, on_host) == Some(Route::Gemm) <==> on_host && 2 <= m <= 1024,
        route(true, Some(s), m, on_host) == Some(Route::Rows) <==> !on_host && 2 <= m <= 64,
        route(true, Some(s), m, on_host) is None <==> if on_host {
            m > 1024
        } else {
            m > 64
        },
{
}

/// The packed products run unless they are refused.
pub proof fn the_packed_products_are_refused(value: Seq<char>)
    ensures
        packed_set(None),
        packed_set(Some(value)) <==> value != "0"@ && lowered(value) != "off"@ && lowered(value)
            != "false"@,
{
}

/// The head's product takes a single row on the host, of a four-bit packed
/// weight, where both switches are on.
pub proof fn the_head_takes_one_row_on_the_host(
    head_enabled: bool,
    packed_enabled: bool,
    m: usize,
    on_host: bool,
    weight: Option<QuantScheme>,
    r: bool,
)
    requires
        call_ensures(try_q4s_head, (head_enabled, packed_enabled, m, on_host, weight), r),
    ensures
        r <==> {
            &&& head_enabled
            &&& packed_enabled
            &&& m == 1
            &&& on_host
            &&& weight is Some
            &&& supported(weight->0)
            &&& weight->0.value == QuantValue::Q4S
        },
{
}

/// A twin is kept of a four-bit weight of whole blocks, while the registry is
/// on.
pub proof fn a_twin_is_of_whole_blocks(value: QuantValue, k_len: usize, registry: bool, r: bool)
    requires
        call_ensures(twin_eligible, (value, k_len, registry), r),
    ensures
        r <==> value == QuantValue::Q4S && k_len % 32 == 0 && registry,
{
}

// ---- how it is split -------------------------------------------------------

/// A split is forced by a number of one to thirty-two, and by nothing else.
pub proof fn a_split_is_forced_in_range(value: Seq<char>, n: nat)
    ensures
        forced_split(None) is None,
        forced_split(Some(value)) == Some(n) <==> parsed_size(value) == Some(n) && 1 <= n <= 32,
{
}

/// The splits that are tried: up to eight where the weight fits the cache, up
/// to thirty-two where it does not, in ascending order; one is always among
/// them.
pub proof fn the_tried_splits(weight_bytes: nat, l2_bytes: Option<u64>, c: usize)
    ensures
        ({
            let s = candidates(weight_bytes, l2_bytes);
            let cached = l2_bytes is Some && weight_bytes <= l2_bytes->0;
            &&& cached ==> (s.contains(c) <==> c == 1 || c == 2 || c == 4 || c == 8)
            &&& !cached ==> (s.contains(c) <==> c == 1 || c == 4 || c == 8 || c == 16 || c == 32)
            &&& forall|i: int, j: int| 0 <= i < j < s.len() ==> #[trigger] s[i] < #[trigger] s[j]
            &&& s[0] == 1
        }),
{
    let s = candidates(weight_bytes, l2_bytes);
    assert(s[0] == 1);
    if l2_bytes is Some && weight_bytes <= l2_bytes->0 {
        assert(s[1] == 2 && s[2] == 4 && s[3] == 8);
    } else {
        assert(s[1] == 4 && s[2] == 8 && s[3] == 16 && s[4] == 32);
    }
}

/// Only splits that divide the inner dimension are timed, and all of them.
pub proof fn timed_splits_divide(s: Seq<usize>, k_len: nat, c: usize)
    ensures
        dividing(s, k_len).contains(c) <==> s.contains(c) && c > 0 && k_len % (c as nat) == 0,
    decreases s.len(),
{
    reveal(Seq::filter);
    if s.len() > 0 {
        let less = s.drop_last();
        timed_splits_divide(less, k_len, c);
        assert(s == less.push(s.last()));
        assert(s[s.len() - 1] == s.last());
        let kept = dividing(less, k_len);
        let all = dividing(s, k_len);
        if less.contains(c) {
            let i = choose|i: int| 0 <= i < less.len() && less[i] == c;
            assert(s[i] == c);
        }
        if kept.contains(c) {
            let i = choose|i: int| 0 <= i < kept.len() && kept[i] == c;
            assert(all[i] == c);
        }
        if s.last() > 0 && k_len % (s.last() as nat) == 0 {
            assert(all == kept.push(s.last()));
            assert(all[kept.len() as int] == s.last());
        } else {
            assert(all == kept);
        }
        if s.contains(c) && c != s.last() {
            let i = choose|i: int| 0 <= i < s.len() && s[i] == c;
            assert(less[i] == c);
        }
        if all.contains(c) && c != s.last() {
            let i = choose|i: int| 0 <= i < all.len() && all[i] == c;
            assert(kept[i] == c);
        }
    }
}

/// Of equally fast splits the first wins.
pub proof fn the_first_of_the_fastest_wins(times: Seq<u64>, worst: u64, i: int, k: int)
    requires
        0 <= i <= k < times.len(),
        fastest_place(times, worst, i) is Some,
        k < fastest_place(times, worst, i)->0,
    ensures
        times[k] > times[fastest_place(times, worst, i)->0],
    decreases times.len() - i,
{
    lemma_fastest(times, worst, i);
}

/// The fastest is below the bound and below all before it.
proof fn lemma_fastest(times: Seq<u64>, worst: u64, i: int)
    requires
        0 <= i,
    ensures
        fastest_place(times, worst, i) matches Some(j) ==> i <= j < times.len() && times[j] < worst
            && forall|k: int| i <= k < j ==> #[trigger] times[k] > times[j],
    decreases times.len() - i,
{
    if i < times.len() {
        if times[i] < worst {
            lemma_fastest(times, times[i], i + 1);
        } else {
            lemma_fastest(times, worst, i + 1);
        }
    }
}

/// A remembered split is that of an entry for this device and these three
/// lengths, and there is one wherever there is such an entry.
pub proof fn a_split_is_remembered_for_its_shape(
    s: Seq<SplitEntry>,
    device: Seq<char>,
    n: usize,
    k_len: usize,
    per_word: usize,
    from: int,
)
    requires
        0 <= from,
    ensures
        entry_for(s, device, n, k_len, per_word, from) matches Some(split) ==> exists|i: int|
            from <= i < s.len() && (#[trigger] s[i]).device@ == device && s[i].n == n && s[i].k_len
                == k_len && s[i].per_word == per_word && s[i].split == split,
        entry_for(s, device, n, k_len, per_word, from) is None ==> forall|i: int|
            from <= i < s.len() ==> !((#[trigger] s[i]).device@ == device && s[i].n == n
                && s[i].k_len == k_len && s[i].per_word == per_word),
    decreases s.len() - from,
{
    if from < s.len() {
        if s[from].is_for(device, n, k_len, per_word) {
            assert(s[from].split == s[from].split);
        } else {
            a_split_is_remembered_for_its_shape(s, device, n, k_len, per_word, from + 1);
        }
    }
}

/// Remembering a split for one shape leaves what is remembered for another.
pub proof fn remembering_leaves_other_shapes(
    s: Seq<SplitEntry>,
    e: SplitEntry,
    at: int,
    device: Seq<char>,
    n: usize,
    k_len: usize,
    per_word: usize,
    from: int,
)
    requires
        0 <= from,
        !(e.device@ == device && e.n == n && e.k_len == k_len && e.per_word == per_word),
        0 <= at < s.len() ==> !(s[at].device@ == device && s[at].n == n && s[at].k_len == k_len
            && s[at].per_word == per_word),
    ensures
        entry_for(s.push(e), device, n, k_len, per_word, from) == entry_for(
            s,
            device,
            n,
            k_len,
            per_word,
            from,
        ),
        0 <= at < s.len() ==> entry_for(s.update(at, e), device, n, k_len, per_word, from)
            == entry_for(s, device, n, k_len, per_word, from),
    decreases s.len() - from,
{
    if from < s.len() {
        remembering_leaves_other_shapes(s, e, at, device, n, k_len, per_word, from + 1);
    } else {
        assert(entry_for(s.push(e), device, n, k_len, per_word, s.len() as int + 1) is None);
        if from == s.len() {
            assert(!s.push(e)[from].is_for(device, n, k_len, per_word));
        }
    }
}

/// The shape that a split is filed under is the first entry of that shape.
pub proof fn a_shape_has_one_place(
    s: Seq<SplitEntry>,
    device: Seq<char>,
    n: usize,
    k_len: usize,
    per_word: usize,
    from: int,
)
    requires
        0 <= from,
    ensures
        place_for(s, device, n, k_len, per_word, from) matches Some(i) ==> from <= i < s.len()
            && s[i].device@ == device && s[i].n == n && s[i].k_len == k_len && s[i].per_word
            == per_word && entry_for(s, device, n, k_len, per_word, from) == Some(s[i].split),
        place_for(s, device, n, k_len, per_word, from) is None <==> entry_for(
            s,
            device,
            n,
            k_len,
            per_word,
            from,
        ) is None,
    decreases s.len() - from,
{
    if from < s.len() && !s[from].is_for(device, n, k_len, per_word) {
        a_shape_has_one_place(s, device, n, k_len, per_word, from + 1);
    }
}

/// A launch has a workgroup for every word column and none to spare, and is
/// split as asked where the split divides the inner dimension, else not.
pub proof fn a_launch_covers_every_column(n_words: usize, k_len: usize, split: usize, r: Launch)
    requires
        call_ensures(launch, (n_words, k_len, split), r),
    ensures
        r.cubes * 32 >= n_words,
        n_words > 0 ==> (r.cubes - 1) * 32 < n_words,
        n_words == 0 ==> r.cubes == 0,
        split > 0 && k_len as int % split as int == 0 ==> r.split == split,
        split == 0 || k_len as int % split as int != 0 ==> r.split == 1,
        r.split * r.steps == k_len,
        settled(split as nat, k_len as nat) == r.split,
{
    assert(r.split * r.steps == r.steps * r.split) by (nonlinear_arith);
}

/// The host's threads share all blocks of thirty-two columns, at least four
/// each and no more than they must.
pub proof fn threads_share_the_blocks(n: usize, threads: usize, r: usize)
    requires
        threads > 0,
        call_ensures(host_chunk_blocks, (n, threads), r),
    ensures
        r >= 4,
        r * threads >= n as int / 32,
        r > 4 ==> (r - 1) * threads < n as int / 32,
{
    let blocks = n as int / 32;
    let t = threads as int;
    let share = (blocks + t - 1) / t;
    lemma_fundamental_div_mod(blocks + t - 1, t);
    let rest = (blocks + t - 1) % t;
    assert(0 <= rest < t);
    assert(t * share == share * t) by (nonlinear_arith);
    assert(share * t >= blocks);
    assert((share - 1) * t == share * t - t) by (nonlinear_arith);
    if share < 4 {
        assert(4 * t >= share * t) by (nonlinear_arith)
            requires
                share < 4,
                t > 0,
        ;
    }
}

/// Three quarters of the cache are counted on.
pub proof fn a_quarter_of_the_cache_is_left(mib: u64, r: u64)
    requires
        mib * 0x10_0000 <= u64::MAX,
        call_ensures(l2_budget, (mib,), r),
    ensures
        4 * r == 3 * (mib * 0x10_0000),
{
    assert(mib.wrapping_mul(0x10_0000) == mib * 0x10_0000);
}

/// Each score stands at its column, the last one given for it; a column that
/// none was given for holds the filler.
pub proof fn a_score_stands_at_its_column(
    n: nat,
    filler: u32,
    ids: Seq<u32>,
    vals: Seq<u32>,
    p: int,
)
    requires
        ids.len() == vals.len(),
        forall|i: int| 0 <= i < ids.len() ==> (#[trigger] ids[i]) < n,
        0 <= p < n,
    ensures
        scattered(n, filler, ids, vals).len() == n,
        (forall|i: int| 0 <= i < ids.len() ==> (#[trigger] ids[i]) != p) ==> scattered(
            n,
            filler,
            ids,
            vals,
        )[p] == filler,
        forall|i: int|
            0 <= i < ids.len() && (#[trigger] ids[i]) == p && (forall|j: int|
                i < j < ids.len() ==> (#[trigger] ids[j]) != p) ==> scattered(
                n,
                filler,
                ids,
                vals,
            )[p] == vals[i],
    decreases ids.len(),
{
    if ids.len() > 0 {
        let (less, some) = (ids.drop_last(), vals.drop_last());
        assert forall|i: int| 0 <= i < less.len() implies (#[trigger] less[i]) < n by {
            assert(ids[i] < n);
        }
        a_score_stands_at_its_column(n, filler, less, some, p);
        assert(ids.last() == ids[ids.len() - 1]);
        assert(ids.last() < n);
        if forall|i: int| 0 <= i < ids.len() ==> (#[trigger] ids[i]) != p {
            assert forall|i: int| 0 <= i < less.len() implies (#[trigger] less[i]) != p by {
                assert(ids[i] != p);
            }
        }
        assert forall|i: int|
            0 <= i < ids.len() && (#[trigger] ids[i]) == p && (forall|j: int|
                i < j < ids.len() ==> (#[trigger] ids[j]) != p) implies scattered(
            n,
            filler,
            ids,
            vals,
        )[p] == vals[i] by {
            if i < ids.len() - 1 {
                assert(less[i] == p);
                assert forall|j: int| i < j < less.len() implies (#[trigger] less[j]) != p by {
                    assert(ids[j] != p);
                }
                assert(ids[ids.len() - 1] != p);
            }
        }
    }
}

// ---- the reference arithmetic ----------------------------------------------

/// Activations are rounded on the grid of the weight's own blocks; those of a
/// weight that is not in blocks stay, as do those of the non-linear one.
pub proof fn a_grid_has_the_weights_blocks(dtype: GgmlType)
    ensures
        grid_for(dtype) matches Some(g) ==> grid_block(g) == dtype.block(),
        grid_for(dtype) is None <==> dtype.block() == 1 || dtype == GgmlType::Iq4Nl,
{
}

/// A run of a row starts a whole number of blocks into it and is a block long
/// or ends the row.
proof fn lemma_row_run(at: nat, end: nat, block: nat, i: int)
    requires
        at <= end <= usize::MAX,
        block > 0,
        0 <= i < row_runs(at, end, block).len(),
    ensures
        ({
            let run = row_runs(at, end, block)[i];
            &&& run.start == at + i * block
            &&& run.start < end
            &&& run.len == if end - run.start < block {
                end - run.start
            } else {
                block as int
            }
        }),
    decreases end - at,
{
    let len: nat = if end - at < block {
        (end - at) as nat
    } else {
        block
    };
    let head = Run { start: at as usize, len: len as usize };
    assert(row_runs(at, end, block) == seq![head] + row_runs(at + len, end, block));
    if i == 0 {
        assert(i * block == 0) by (nonlinear_arith)
            requires
                i == 0,
        ;
    } else {
        lemma_row_run(at + len, end, block, i - 1);
        assert(i * block == (i - 1) * block + block) by (nonlinear_arith);
    }
}

/// Rounding goes row by row: a run starts a whole number of blocks into its
/// row, and is a block long or ends its row, so that it never reaches into the
/// next one.
pub proof fn a_run_stays_in_its_row(at: nat, total: nat, width: nat, block: nat, i: int)
    requires
        at <= total <= usize::MAX,
        width > 0,
        block > 0,
        at % width == 0,
        0 <= i < runs(at, total, width, block).len(),
    ensures
        ({
            let run = runs(at, total, width, block)[i];
            let column = run.start as int % width as int;
            let left = if total - run.start < width - column {
                total - run.start
            } else {
                width - column
            };
            &&& run.start < total
            &&& column % (block as int) == 0
            &&& run.len == if left < block {
                left
            } else {
                block as int
            }
        }),
    decreases total - at,
{
    let end: nat = if total - at < width {
        total
    } else {
        at + width
    };
    let first = row_runs(at, end, block);
    let rest = runs(end, total, width, block);
    assert(runs(at, total, width, block) == first + rest);
    if i < first.len() {
        lemma_row_run(at, end, block, i);
        let column = i * block;
        assert(0 <= column) by (nonlinear_arith)
            requires
                column == i * block,
                0 <= i,
        ;
        lemma_fundamental_div_mod(at as int, width as int);
        let q = at as int / width as int;
        assert(width as int * q == q * width as int) by (nonlinear_arith);
        lemma_fundamental_div_mod_converse(at + column, width as int, q, column);
        lemma_fundamental_div_mod_converse(column, block as int, i, 0);
    } else {
        if total - at < width {
            assert(rest.len() == 0);
        } else {
            vstd::arithmetic::div_mod::lemma_mod_add_multiples_vanish(at as int, width as int);
            a_run_stays_in_its_row(end, total, width, block, i - first.len());
        }
    }
}

/// The heads of a group read the same keys, those of the group in the batch;
/// queries stand row by row, head by head.
pub proof fn a_group_shares_its_keys(d: FlashDims, r: Vec<FlashRow>, b: int, g: int, j: int, row: int)
    requires
        d.wf(),
        0 <= b < d.batch,
        0 <= g < d.nkv,
        0 <= j < d.nh as int / d.nkv as int,
        0 <= row < d.rows,
        call_ensures(flash_attn_rows, (d,), r),
    ensures
        ({
            let head = g * (d.nh as int / d.nkv as int) + j;
            let p = (b * d.nh + head) * d.rows + row;
            &&& r@.len() == d.batch * d.nh * d.rows
            &&& r@[p].keys == (b * d.nkv + g) * d.tt * d.hd
            &&& r@[p].query == p * d.hd
            &&& r@[p].positions == (d.tt - d.rows) + row + 1
        }),
{
    let group = d.nh as int / d.nkv as int;
    let head = g * group + j;
    let q = b * d.nh + head;
    let p = q * d.rows + row;
    lemma_fundamental_div_mod(d.nh as int, d.nkv as int);
    assert(d.nkv * group == d.nh);
    assert(0 <= head < d.nh) by (nonlinear_arith)
        requires
            head == g * group + j,
            0 <= g < d.nkv,
            0 <= j < group,
            d.nkv * group == d.nh,
    ;
    lemma_fundamental_div_mod_converse(head, group, g, j);
    lemma_fundamental_div_mod_converse(q, d.nh as int, b, head);
    lemma_fundamental_div_mod_converse(p, d.rows as int, q, row);
    assert(0 <= q < d.batch * d.nh) by (nonlinear_arith)
        requires
            q == b * d.nh + head,
            0 <= b < d.batch,
            0 <= head < d.nh,
    ;
    assert(0 <= p < d.batch * d.nh * d.rows) by (nonlinear_arith)
        requires
            p == q * d.rows + row,
            0 <= q < d.batch * d.nh,
            0 <= row < d.rows,
    ;
    assert(r@[p] == d.row(b, head, row));
    assert(0 <= p * d.hd <= d.batch * d.nh * d.rows * d.hd) by (nonlinear_arith)
        requires
            0 <= p < d.batch * d.nh * d.rows,
            d.hd >= 0,
    ;
    let k = b * d.nkv + g;
    assert(0 <= k < d.batch * d.nkv) by (nonlinear_arith)
        requires
            k == b * d.nkv + g,
            0 <= b < d.batch,
            0 <= g < d.nkv,
    ;
    assert(0 <= k * d.tt * d.hd <= d.batch * d.nkv * d.tt * d.hd) by (nonlinear_arith)
        requires
            0 <= k < d.batch * d.nkv,
            d.tt >= 0,
            d.hd >= 0,
    ;
}

/// The reference arithmetic is on where it was switched on, or where nothing
/// was switched and the setting is one.
pub proof fn the_reference_is_switched_on(switch: Switch, setting: Option<&str>)
    ensures
        switched_on(switch, setting) <==> switch == Switch::On || (switch == Switch::Unread
            && setting is Some && setting->0@ == "1"@),
{
}

} // verus!
