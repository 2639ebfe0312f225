//! Where a source value ends up: which value of the source stands at which
//! place of a stored tensor, what a write takes of a blob, and which value a
//! slice reads.

use crate::gguf::{dims_product, GgufTensorInfo};
use crate::pack::{
    ascending, level_at, normalised_levels_are_ascending, Blob, ImportAction, Precision,
    TensorEntry,
};
use crate::pack::import::{
    countable, float_levels_of, floats_upto, items_of, outer_first, write_of, writer_after,
    BlobWriter, ItemModel, Levels, RoleModel, SYNC_EVERY,
};
use crate::pack::read::{
    aligned, best_level, columns_of, float_level, in_blocks, ranges_of, rows_of, width_upto, within,
};
use crate::text::decimal;
use vstd::arithmetic::div_mod::lemma_fundamental_div_mod_converse;
use vstd::arithmetic::mul::lemma_mul_inequality;
use vstd::prelude::*;

verus! {

/// The place of a source value by its coordinates, the first of which runs
/// fastest.
pub open spec fn source_place(dims: Seq<u64>, at: Seq<int>) -> int
    decreases dims.len(),
{
    if dims.len() == 0 {
        0
    } else {
        at[0] + dims[0] * source_place(dims.skip(1), at.skip(1))
    }
}

/// The place of a stored value by its coordinates, the last of which runs
/// fastest.
pub open spec fn stored_place(shape: Seq<usize>, at: Seq<int>) -> int
    decreases shape.len(),
{
    if shape.len() == 0 {
        0
    } else {
        stored_place(shape.drop_last(), at.drop_last()) * shape.last() + at.last()
    }
}

/// The source value that stands at a place of a stored tensor: a transposed
/// one is read by columns.
pub open spec fn taken_from(m: ItemModel, place: int) -> int {
    match m.transpose {
        None => m.source + place,
        Some((rows, cols)) => m.source + (place % rows as int) * cols + place / rows as int,
    }
}

/// The places of a matrix and of a stack of matrices.
proof fn lemma_places(shape: Seq<usize>, at: Seq<int>)
    ensures
        shape.len() == 2 && at.len() == 2 ==> stored_place(shape, at) == at[0] * shape[1] + at[1],
        shape.len() == 3 && at.len() == 3 ==> stored_place(shape, at) == (at[0] * shape[1] + at[1])
            * shape[2] + at[2],
{
    reveal_with_fuel(stored_place, 4);
    if shape.len() == 2 && at.len() == 2 {
        assert(0 * shape[0] == 0) by (nonlinear_arith);
    }
    if shape.len() == 3 && at.len() == 3 {
        assert(0 * shape[0] == 0) by (nonlinear_arith);
    }
}

/// The places of a source matrix and of a stack of source matrices.
proof fn lemma_source_places(dims: Seq<u64>, at: Seq<int>)
    ensures
        dims.len() == 2 && at.len() == 2 ==> source_place(dims, at) == at[0] + dims[0] * at[1],
        dims.len() == 3 && at.len() == 3 ==> source_place(dims, at) == at[0] + dims[0] * (at[1]
            + dims[1] * at[2]),
{
    reveal_with_fuel(source_place, 4);
    if dims.len() == 2 && at.len() == 2 {
        assert(dims[1] * 0 == 0) by (nonlinear_arith);
    }
    if dims.len() == 3 && at.len() == 3 {
        assert(dims[2] * 0 == 0) by (nonlinear_arith);
        assert(dims.skip(1).skip(1)[0] == dims[2]);
        assert(at.skip(1).skip(1)[0] == at[2]);
    }
}

/// The number of values of a matrix.
proof fn lemma_matrix_size(dims: Seq<u64>)
    requires
        dims.len() == 2,
    ensures
        dims_product(dims) == dims[0] * dims[1],
{
    let one = dims.drop_last();
    assert(one.drop_last() =~= Seq::<u64>::empty());
    let none = dims_product(one.drop_last());
    let first = one.last() as nat;
    assert(none * first == first) by (nonlinear_arith)
        requires
            none == 1,
    ;
    assert(dims_product(one) == first);
    assert(dims_product(dims) == dims_product(one) * (dims[1] as nat));
}

/// A convolution keeps its kernels: of a source of `k` taps by `channels`,
/// the stored tensor has a kernel for each channel, and tap `t` of channel `c`
/// is the source value of tap `t` of channel `c`.
pub proof fn a_convolution_keeps_its_kernels(info: GgufTensorInfo, c: int, t: int)
    requires
        countable(info.dims@),
        info.dims@.len() == 2,
    ensures
        ({
            let items = items_of(info, Some(ImportAction::Conv));
            let m = items->Ok_0[0];
            let (k, channels) = (info.dims@[0], info.dims@[1]);
            &&& items is Ok
            &&& items->Ok_0.len() == 1
            &&& m.name == info.name@
            &&& m.role == RoleModel::Conv
            &&& m.shape.len() == 3
            &&& m.shape[0] == channels
            &&& m.shape[1] == 1
            &&& m.shape[2] == k
            &&& m.n == channels * k
            &&& 0 <= c < channels && 0 <= t < k ==> {
                &&& taken_from(m, stored_place(m.shape, seq![c, 0, t])) == c * k + t
                &&& taken_from(m, stored_place(m.shape, seq![c, 0, t])) == source_place(
                    info.dims@,
                    seq![t, c],
                )
            }
        }),
{
    let dims = info.dims@;
    let m = items_of(info, Some(ImportAction::Conv))->Ok_0[0];
    let k = dims[0];
    lemma_matrix_size(dims);
    assert(dims[0] * dims[1] == dims[1] * dims[0]) by (nonlinear_arith);
    if 0 <= c < dims[1] && 0 <= t < k {
        lemma_places(m.shape, seq![c, 0, t]);
        lemma_source_places(dims, seq![t, c]);
        assert((c * m.shape[1] + 0) * m.shape[2] == c * k) by (nonlinear_arith)
            requires
                m.shape[1] == 1,
                m.shape[2] == k,
        ;
        assert(k * c == c * k) by (nonlinear_arith);
    }
}

/// A place of a transposed matrix.
proof fn lemma_transposed_place(i: int, o: int, inp: int, out: int)
    requires
        0 <= i < inp,
        0 <= o < out,
    ensures
        (i * out + o) % out == o,
        (i * out + o) / out == i,
{
    lemma_fundamental_div_mod_converse(i * out + o, out, i, o);
}

/// A linear weight is stored input by output: at input `i` and output `o`
/// stands the source's value of that input and output.
pub proof fn a_linear_weight_is_stored_by_input(info: GgufTensorInfo, i: int, o: int)
    requires
        countable(info.dims@),
        info.dims@.len() == 2,
    ensures
        ({
            let items = items_of(info, Some(ImportAction::Linear));
            let m = items->Ok_0[0];
            let (inp, out) = (info.dims@[0], info.dims@[1]);
            &&& items is Ok
            &&& items->Ok_0.len() == 1
            &&& m.name == info.name@
            &&& m.role == RoleModel::Linear
            &&& m.shape.len() == 2
            &&& m.shape[0] == inp
            &&& m.shape[1] == out
            &&& m.n == inp * out
            &&& 0 <= i < inp && 0 <= o < out ==> {
                &&& taken_from(m, stored_place(m.shape, seq![i, o])) == o * inp + i
                &&& taken_from(m, stored_place(m.shape, seq![i, o])) == source_place(
                    info.dims@,
                    seq![i, o],
                )
            }
        }),
{
    let dims = info.dims@;
    let m = items_of(info, Some(ImportAction::Linear))->Ok_0[0];
    lemma_matrix_size(dims);
    if 0 <= i < dims[0] && 0 <= o < dims[1] {
        lemma_places(m.shape, seq![i, o]);
        lemma_source_places(dims, seq![i, o]);
        lemma_transposed_place(i, o, dims[0] as int, dims[1] as int);
        assert(dims[0] * o == o * dims[0]) by (nonlinear_arith);
    }
}

/// An expert bank is split into its experts: expert `x` is stored under its
/// own name and number, input by output, and its values are the source's of
/// that expert.
pub proof fn an_expert_bank_is_split_by_expert(
    info: GgufTensorInfo,
    layer: usize,
    proj: String,
    x: int,
    i: int,
    o: int,
)
    requires
        countable(info.dims@),
        info.dims@.len() == 3,
        0 <= x < info.dims@[2],
    ensures
        ({
            let items = items_of(info, Some(ImportAction::ExpertBank { layer, proj }));
            let m = items->Ok_0[x];
            let (inp, out) = (info.dims@[0], info.dims@[1]);
            &&& items is Ok
            &&& items->Ok_0.len() == info.dims@[2]
            &&& m.name == info.name@ + "/e"@ + decimal(x as nat)
            &&& m.role == (RoleModel::Expert { layer, index: x as usize, proj: proj@ })
            &&& m.shape.len() == 2
            &&& m.shape[0] == inp
            &&& m.shape[1] == out
            &&& m.n == inp * out
            &&& 0 <= i < inp && 0 <= o < out ==> taken_from(
                m,
                stored_place(m.shape, seq![i, o]),
            ) == source_place(info.dims@, seq![i, o, x])
        }),
{
    let dims = info.dims@;
    let m = items_of(info, Some(ImportAction::ExpertBank { layer, proj }))->Ok_0[x];
    let (inp, out) = (dims[0] as int, dims[1] as int);
    assert(dims[0] <= usize::MAX && dims[1] <= usize::MAX && dims[2] <= usize::MAX);
    assert(inp * out == out * inp) by (nonlinear_arith);
    if 0 <= i < inp && 0 <= o < out {
        lemma_places(m.shape, seq![i, o]);
        lemma_source_places(dims, seq![i, o, x]);
        lemma_transposed_place(i, o, inp, out);
        assert(x * (out * inp) + o * inp + i == i + inp * (o + out * x)) by (nonlinear_arith);
    }
}

/// Coordinates in the other order.
pub open spec fn reversed(at: Seq<int>) -> Seq<int> {
    Seq::new(at.len(), |i: int| at[at.len() - 1 - i])
}

/// Turning dimensions and coordinates round keeps every place.
proof fn lemma_turned_round(dims: Seq<u64>, at: Seq<int>)
    requires
        at.len() == dims.len(),
        forall|i: int| 0 <= i < dims.len() ==> (#[trigger] dims[i]) <= usize::MAX,
    ensures
        stored_place(outer_first(dims), reversed(at)) == source_place(dims, at),
    decreases dims.len(),
{
    if dims.len() > 0 {
        let rest = dims.skip(1);
        assert forall|i: int| 0 <= i < rest.len() implies (#[trigger] rest[i]) <= usize::MAX by {
            assert(rest[i] == dims[i + 1]);
        }
        lemma_turned_round(rest, at.skip(1));
        assert(outer_first(dims).drop_last() =~= outer_first(rest));
        assert(reversed(at).drop_last() =~= reversed(at.skip(1)));
        assert(outer_first(dims).last() == dims[0]);
        let p = source_place(rest, at.skip(1));
        assert(p * dims[0] == dims[0] * p) by (nonlinear_arith);
    }
}

/// Embeddings and vectors are stored as they come: the coordinates are turned
/// round, and every value stays what it was.
pub proof fn embeddings_and_vectors_stay_in_order(
    info: GgufTensorInfo,
    action: ImportAction,
    at: Seq<int>,
)
    requires
        countable(info.dims@),
        action is Embedding || action is Vector,
        at.len() == info.dims@.len(),
    ensures
        ({
            let items = items_of(info, Some(action));
            let m = items->Ok_0[0];
            &&& items is Ok
            &&& items->Ok_0.len() == 1
            &&& m.name == info.name@
            &&& m.role == if action is Vector {
                RoleModel::Vector
            } else {
                RoleModel::Embedding
            }
            &&& m.shape.len() == info.dims@.len()
            &&& forall|i: int|
                0 <= i < m.shape.len() ==> #[trigger] m.shape[i] == info.dims@[m.shape.len() - 1
                    - i]
            &&& m.n == dims_product(info.dims@)
            &&& taken_from(m, stored_place(m.shape, reversed(at))) == source_place(info.dims@, at)
        }),
{
    lemma_turned_round(info.dims@, at);
}

/// What is not a matrix is no linear weight and no convolution, what is not a
/// stack is no expert bank, a tensor without a mapping is refused, and one to
/// be skipped leaves nothing.
pub proof fn misshapen_tensors_are_refused(info: GgufTensorInfo, layer: usize, proj: String)
    ensures
        items_of(info, None) is Err,
        items_of(info, Some(ImportAction::Skip)) == Ok::<_, Seq<char>>(Seq::<ItemModel>::empty()),
        items_of(info, Some(ImportAction::Linear)) is Err <==> info.dims@.len() != 2,
        items_of(info, Some(ImportAction::Conv)) is Err <==> info.dims@.len() != 2,
        items_of(info, Some(ImportAction::ExpertBank { layer, proj })) is Err <==> info.dims@.len()
            != 3,
{
}

/// Of a list that holds no float level, none is kept.
proof fn lemma_floats(v: Seq<Precision>, n: nat, p: Precision)
    requires
        n <= v.len(),
    ensures
        floats_upto(v, n).contains(p) <==> (p == Precision::F16 || p == Precision::F32) && v.take(
            n as int,
        ).contains(p),
    decreases n,
{
    if n > 0 {
        let m = (n - 1) as nat;
        lemma_floats(v, m, p);
        let before = v.take(m as int);
        let now = v.take(n as int);
        assert(now =~= before.push(v[n - 1]));
        let kept = floats_upto(v, m);
        let all = floats_upto(v, n);
        if before.contains(p) {
            let i = choose|i: int| 0 <= i < before.len() && before[i] == p;
            assert(now[i] == p);
        }
        if now.contains(p) && v[n - 1] != p {
            let i = choose|i: int| 0 <= i < now.len() && now[i] == p;
            assert(before[i] == p);
        }
        if v[n - 1] == p {
            assert(now[n - 1] == p);
        }
        if !v[n - 1].quantized() {
            assert(all == kept.push(v[n - 1]));
            if kept.contains(p) {
                let i = choose|i: int| 0 <= i < kept.len() && kept[i] == p;
                assert(all[i] == p);
            }
            if all.contains(p) {
                let i = choose|i: int| 0 <= i < all.len() && all[i] == p;
                if i < kept.len() {
                    assert(kept[i] == p);
                }
            }
            if v[n - 1] == p {
                assert(all[all.len() - 1] == p);
            }
        }
    }
}

/// Which levels hold a tensor: what may be quantized stands at exactly the
/// requested levels; everything else at the requested float levels, or in
/// single precision when no float level was requested. There is a blob for a
/// level exactly when something stands at it.
pub proof fn levels_hold_what_was_requested(
    levels: Levels,
    requested: Seq<Precision>,
    p: Precision,
)
    requires
        levels.of(requested),
    ensures
        levels.stores(true, p) <==> requested.contains(p),
        levels.stores(false, p) <==> if requested.contains(Precision::F16) || requested.contains(
            Precision::F32,
        ) {
            (p == Precision::F16 || p == Precision::F32) && requested.contains(p)
        } else {
            p == Precision::F32
        },
        levels.all_levels@.contains(p) <==> levels.stores(true, p) || levels.stores(false, p),
{
    let v = ascending(requested);
    normalised_levels_are_ascending(requested);
    assert(v.take(v.len() as int) =~= v);
    lemma_floats(v, v.len(), p);
    lemma_floats(v, v.len(), Precision::F16);
    lemma_floats(v, v.len(), Precision::F32);
    let floats = floats_upto(v, v.len());
    if floats.len() == 0 {
        assert(!floats.contains(Precision::F16) && !floats.contains(Precision::F32));
        assert(float_levels_of(requested)[0] == Precision::F32);
        assert(v.contains(Precision::F16) == requested.contains(Precision::F16));
        assert(v.contains(Precision::F32) == requested.contains(Precision::F32));
    } else {
        let q = floats[0];
        lemma_floats(v, v.len(), q);
        assert(floats.contains(q));
        assert(v.contains(q) == requested.contains(q));
    }
    let both = v + float_levels_of(requested);
    normalised_levels_are_ascending(both);
    assert(ascending(both).contains(p) == both.contains(p));
    assert(v.contains(p) == requested.contains(p));
    if v.contains(p) {
        let i = choose|i: int| 0 <= i < v.len() && v[i] == p;
        assert(both[i] == p);
    }
    if float_levels_of(requested).contains(p) {
        let f = float_levels_of(requested);
        let i = choose|i: int| 0 <= i < f.len() && f[i] == p;
        assert(both[v.len() + i] == p);
    }
    if both.contains(p) {
        let i = choose|i: int| 0 <= i < both.len() && both[i] == p;
        if i >= v.len() {
            assert(float_levels_of(requested)[i - v.len()] == p);
        } else {
            assert(v[i] == p);
        }
    }
}

/// A write takes the end of its blob and no more: four, eight, sixteen or
/// thirty-two bits for each value, rounded up to whole bytes; right behind
/// them, at a quantized level, four bytes for each whole block of thirty-two;
/// and nothing between.
pub proof fn a_write_takes_the_end_of_its_blob(p: Precision, n: nat, w: BlobWriter)
    requires
        w.len + 4 * n <= u64::MAX,
        w.unsynced <= w.len,
    ensures
        ({
            let b = write_of(p, n, w).blob;
            let after = writer_after(p, n, w);
            let bits = match p {
                Precision::Q4 => 4 * n,
                Precision::Q8 => 8 * n,
                Precision::F16 => 16 * n,
                Precision::F32 => 32 * n,
            };
            &&& write_of(p, n, w).precision == p
            &&& b.values_offset == w.len
            &&& bits <= 8 * b.values_len < bits + 8
            &&& if p == Precision::Q4 || p == Precision::Q8 {
                &&& b.scales_offset == b.values_offset + b.values_len
                &&& b.scales_len == 4 * (n / 32)
                &&& after.len == b.scales_offset + b.scales_len
            } else {
                &&& b.scales_len == 0
                &&& after.len == b.values_offset + b.values_len
            }
        }),
{
}

/// No more than the bound is left unsynced behind an append, and a blob is
/// synced exactly when the bound is reached.
pub proof fn unsynced_bytes_stay_bounded(p: Precision, n: nat, w: BlobWriter)
    requires
        w.len + 4 * n <= u64::MAX,
        w.unsynced <= w.len,
        w.unsynced < SYNC_EVERY,
    ensures
        ({
            let write = write_of(p, n, w);
            let after = writer_after(p, n, w);
            &&& after.unsynced < SYNC_EVERY
            &&& write.sync_values <==> w.unsynced + write.blob.values_len >= SYNC_EVERY
            &&& !write.sync_values && !write.sync_scales ==> after.unsynced == w.unsynced
                + write.blob.values_len + write.blob.scales_len
            &&& write.sync_scales ==> after.unsynced == 0
            &&& write.sync_values && !write.sync_scales ==> after.unsynced
                == write.blob.scales_len
        }),
{
}

/// A stored level is found.
proof fn lemma_level_at(v: Seq<(Precision, Blob)>, p: Precision, from: int)
    requires
        0 <= from,
    ensures
        match level_at(v, p, from) {
            Some(i) => from <= i < v.len() && v[i].0 == p && forall|k: int|
                from <= k < i ==> (#[trigger] v[k]).0 != p,
            None => forall|k: int| from <= k < v.len() ==> (#[trigger] v[k]).0 != p,
        },
    decreases v.len() - from,
{
    if from < v.len() && v[from].0 != p {
        lemma_level_at(v, p, from + 1);
    }
}

/// Float values are read from the level that was asked for when that is half
/// precision and stored, and otherwise from the widest stored level; there is
/// none only where nothing is stored.
pub proof fn floats_are_read_from_the_widest_level(
    e: TensorEntry,
    prefer: Precision,
    place: int,
)
    requires
        0 <= place < e.precisions@.len(),
    ensures
        ({
            let stored = e.precisions@[place].0;
            let best = best_level(e);
            &&& best is Some
            &&& exists|k: int| 0 <= k < e.precisions@.len() && (#[trigger] e.precisions@[k]).0
                == best->0
            &&& match stored {
                Precision::Q4 => true,
                Precision::Q8 => best->0 != Precision::Q4,
                Precision::F16 => best->0 == Precision::F16 || best->0 == Precision::F32,
                Precision::F32 => best->0 == Precision::F32,
            }
            &&& float_level(e, prefer) == if prefer == Precision::F16 && exists|k: int|
                0 <= k < e.precisions@.len() && (#[trigger] e.precisions@[k]).0
                    == Precision::F16 {
                Some(Precision::F16)
            } else {
                best
            }
        }),
{
    lemma_level_at(e.precisions@, Precision::Q4, 0);
    lemma_level_at(e.precisions@, Precision::Q8, 0);
    lemma_level_at(e.precisions@, Precision::F16, 0);
    lemma_level_at(e.precisions@, Precision::F32, 0);
    let best = best_level(e)->0;
    let k = level_at(e.precisions@, best, 0)->0;
    assert(e.precisions@[k].0 == best);
}

/// Where the values of a range start within a slice: behind those of the
/// ranges before it.
proof fn lemma_range_starts<T>(
    v: Seq<T>,
    base: int,
    ranges: Seq<(usize, usize)>,
    k: nat,
    len: int,
    j: int,
    y: int,
)
    requires
        k <= ranges.len(),
        within(ranges, len),
        0 <= base,
        base + len <= v.len(),
        0 <= j < k,
        0 <= y < ranges[j].1,
    ensures
        ranges_of(v, base, ranges, k).len() == width_upto(ranges, k),
        0 <= width_upto(ranges, j as nat) + y < width_upto(ranges, k),
        ranges_of(v, base, ranges, k)[width_upto(ranges, j as nat) + y] == v[base + ranges[j].0
            + y],
    decreases k,
{
    let m = (k - 1) as nat;
    assert(ranges[k - 1].0 + ranges[k - 1].1 <= len);
    lemma_ranges_len(v, base, ranges, m, len);
    if j < m {
        lemma_range_starts(v, base, ranges, m, len, j, y);
    }
}

/// The length of the first ranges.
proof fn lemma_ranges_len<T>(v: Seq<T>, base: int, ranges: Seq<(usize, usize)>, k: nat, len: int)
    requires
        k <= ranges.len(),
        within(ranges, len),
        0 <= base,
        base + len <= v.len(),
    ensures
        ranges_of(v, base, ranges, k).len() == width_upto(ranges, k),
    decreases k,
{
    if k > 0 {
        lemma_ranges_len(v, base, ranges, (k - 1) as nat, len);
        assert(ranges[k - 1].0 + ranges[k - 1].1 <= len);
    }
}

/// A slice of columns holds, in every row, the columns of its ranges one range
/// after another: column `y` of range `j` of row `r` is the source's column
/// that far into the range, of the same row.
pub proof fn a_column_slice_reads_its_ranges<T>(
    v: Seq<T>,
    rows: nat,
    cols: int,
    ranges: Seq<(usize, usize)>,
    r: int,
    j: int,
    y: int,
)
    requires
        0 <= cols,
        v.len() == rows * cols,
        within(ranges, cols),
        0 <= r < rows,
        0 <= j < ranges.len(),
        0 <= y < ranges[j].1,
    ensures
        ({
            let w = width_upto(ranges, ranges.len());
            columns_of(v, cols, ranges, rows)[r * w + (width_upto(ranges, j as nat) + y)] == v[r
                * cols + ranges[j].0 + y]
        }),
{
    lemma_column_slice(v, rows, cols, ranges, r, j, y);
}

/// The rows of a column slice stand one after another.
proof fn lemma_column_slice<T>(
    v: Seq<T>,
    rows: nat,
    cols: int,
    ranges: Seq<(usize, usize)>,
    r: int,
    j: int,
    y: int,
)
    requires
        0 <= cols,
        v.len() >= rows * cols,
        within(ranges, cols),
        0 <= r < rows,
        0 <= j < ranges.len(),
        0 <= y < ranges[j].1,
    ensures
        columns_of(v, cols, ranges, rows).len() == rows * width_upto(ranges, ranges.len()),
        columns_of(v, cols, ranges, rows)[r * width_upto(ranges, ranges.len()) + (width_upto(
            ranges,
            j as nat,
        ) + y)] == v[r * cols + ranges[j].0 + y],
    decreases rows,
{
    let w = width_upto(ranges, ranges.len()) as int;
    let m = (rows - 1) as nat;
    let x = width_upto(ranges, j as nat) + y;
    assert(rows * cols == m * cols + cols) by (nonlinear_arith)
        requires
            rows == m + 1,
    ;
    assert(0 <= m * cols) by (nonlinear_arith)
        requires
            0 <= cols,
    ;
    lemma_range_starts(v, m * cols, ranges, ranges.len(), cols, j, y);
    lemma_column_slice_len(v, m, cols, ranges);
    assert(rows * w == m * w + w) by (nonlinear_arith)
        requires
            rows == m + 1,
    ;
    if r == m {
        assert(columns_of(v, cols, ranges, rows)[m * w + x] == ranges_of(
            v,
            m * cols,
            ranges,
            ranges.len(),
        )[x]);
    } else {
        lemma_column_slice(v, m, cols, ranges, r, j, y);
        lemma_mul_inequality(r + 1, m as int, w);
        assert((r + 1) * w == r * w + w) by (nonlinear_arith);
        assert(0 <= r * w) by (nonlinear_arith)
            requires
                0 <= r,
                0 <= w,
        ;
        assert(columns_of(v, cols, ranges, rows)[r * w + x] == columns_of(v, cols, ranges, m)[r * w
            + x]);
    }
}

/// The size of a column slice.
proof fn lemma_column_slice_len<T>(v: Seq<T>, rows: nat, cols: int, ranges: Seq<(usize, usize)>)
    requires
        0 <= cols,
        v.len() >= rows * cols,
        within(ranges, cols),
    ensures
        columns_of(v, cols, ranges, rows).len() == rows * width_upto(ranges, ranges.len()),
    decreases rows,
{
    let w = width_upto(ranges, ranges.len()) as int;
    if rows == 0 {
        assert(0 * w == 0) by (nonlinear_arith);
    } else {
        let m = (rows - 1) as nat;
        assert(rows * cols == m * cols + cols) by (nonlinear_arith)
            requires
                rows == m + 1,
        ;
        assert(0 <= m * cols) by (nonlinear_arith)
            requires
                0 <= cols,
        ;
        lemma_column_slice_len(v, m, cols, ranges);
        lemma_ranges_len(v, m * cols, ranges, ranges.len(), cols);
        assert(rows * w == m * w + w) by (nonlinear_arith)
            requires
                rows == m + 1,
        ;
    }
}

/// In a slice of columns a value's block keeps its scale: the scale of the
/// block that column `y` of range `j` stands in is the source's of the block
/// that the column came from.
pub proof fn a_column_slice_keeps_its_scales(
    scales: Seq<u32>,
    rows: nat,
    cols: int,
    ranges: Seq<(usize, usize)>,
    r: int,
    j: int,
    y: int,
)
    requires
        0 <= cols,
        cols % 32 == 0,
        scales.len() == rows * (cols / 32),
        aligned(ranges),
        within(ranges, cols),
        0 <= r < rows,
        0 <= j < ranges.len(),
        0 <= y < ranges[j].1,
    ensures
        ({
            let w = width_upto(ranges, ranges.len());
            let x = width_upto(ranges, j as nat) + y;
            &&& w % 32 == 0
            &&& columns_of(scales, cols / 32, in_blocks(ranges), rows)[r * (w / 32) as int + x / 32]
                == scales[r * (cols / 32) + (ranges[j].0 + y) / 32]
        }),
{
    let blocks = in_blocks(ranges);
    lemma_block_widths(ranges, ranges.len());
    lemma_block_widths(ranges, j as nat);
    assert forall|i: int| 0 <= i < blocks.len() implies (#[trigger] blocks[i]).0 + blocks[i].1
        <= cols / 32 by {
        assert(ranges[i].0 + ranges[i].1 <= cols);
        assert(ranges[i].0 % 32 == 0 && ranges[i].1 % 32 == 0);
    }
    assert(ranges[j].0 % 32 == 0 && ranges[j].1 % 32 == 0);
    lemma_column_slice(scales, rows, cols / 32, blocks, r, j, y / 32);
}

/// Widths in blocks.
proof fn lemma_block_widths(ranges: Seq<(usize, usize)>, k: nat)
    requires
        k <= ranges.len(),
        aligned(ranges),
    ensures
        width_upto(ranges, k) % 32 == 0,
        width_upto(in_blocks(ranges), k) == width_upto(ranges, k) / 32,
    decreases k,
{
    if k > 0 {
        lemma_block_widths(ranges, (k - 1) as nat);
        assert(ranges[k - 1].0 % 32 == 0 && ranges[k - 1].1 % 32 == 0);
    }
}

/// A slice of rows holds the rows of its ranges one range after another: row
/// `y` of range `j` is the source's row that far into the range, column by
/// column.
pub proof fn a_row_slice_reads_its_ranges<T>(
    v: Seq<T>,
    rows: nat,
    cols: int,
    ranges: Seq<(usize, usize)>,
    j: int,
    y: int,
    c: int,
)
    requires
        0 <= cols,
        v.len() == rows * cols,
        within(ranges, rows as int),
        0 <= j < ranges.len(),
        0 <= y < ranges[j].1,
        0 <= c < cols,
    ensures
        rows_of(v, cols, ranges, ranges.len())[(width_upto(ranges, j as nat) + y) * cols + c] == v[(
        ranges[j].0 + y) * cols + c],
{
    lemma_row_slice(v, rows, cols, ranges, ranges.len(), j, y, c);
}

/// The size of the first ranges of a row slice.
proof fn lemma_row_slice_len<T>(v: Seq<T>, rows: nat, cols: int, ranges: Seq<(usize, usize)>, k: nat)
    requires
        0 <= cols,
        v.len() == rows * cols,
        within(ranges, rows as int),
        k <= ranges.len(),
    ensures
        rows_of(v, cols, ranges, k).len() == width_upto(ranges, k) * cols,
    decreases k,
{
    if k == 0 {
        assert(0 * cols == 0) by (nonlinear_arith);
    } else {
        let m = (k - 1) as nat;
        lemma_row_slice_len(v, rows, cols, ranges, m);
        let range = ranges[k - 1];
        assert(range.0 + range.1 <= rows);
        lemma_mul_inequality(range.0 + range.1, rows as int, cols);
        lemma_mul_inequality(range.0 as int, range.0 + range.1, cols);
        let before = width_upto(ranges, m);
        assert((before + range.1) * cols == before * cols + ((range.0 + range.1) * cols - range.0
            * cols)) by (nonlinear_arith);
        assert(0 <= range.0 * cols) by (nonlinear_arith)
            requires
                0 <= cols,
        ;
    }
}

/// The rows of the first ranges stand one after another.
proof fn lemma_row_slice<T>(
    v: Seq<T>,
    rows: nat,
    cols: int,
    ranges: Seq<(usize, usize)>,
    k: nat,
    j: int,
    y: int,
    c: int,
)
    requires
        0 <= cols,
        v.len() == rows * cols,
        within(ranges, rows as int),
        0 <= j < k <= ranges.len(),
        0 <= y < ranges[j].1,
        0 <= c < cols,
    ensures
        0 <= (width_upto(ranges, j as nat) + y) * cols + c < rows_of(v, cols, ranges, k).len(),
        rows_of(v, cols, ranges, k)[(width_upto(ranges, j as nat) + y) * cols + c] == v[(
        ranges[j].0 + y) * cols + c],
    decreases k,
{
    let m = (k - 1) as nat;
    lemma_row_slice_len(v, rows, cols, ranges, m);
    lemma_row_slice_len(v, rows, cols, ranges, k);
    if j < m {
        lemma_row_slice(v, rows, cols, ranges, m, j, y, c);
        lemma_widths_grow(ranges, m, k);
        lemma_mul_inequality(width_upto(ranges, m) as int, width_upto(ranges, k) as int, cols);
    } else {
        let before = width_upto(ranges, m) as int;
        let range = ranges[j];
        assert(range.0 + range.1 <= rows);
        let part = v.subrange(range.0 * cols, (range.0 + range.1) * cols);
        lemma_mul_inequality(range.0 + range.1, rows as int, cols);
        assert(0 <= y * cols + c < range.1 * cols) by (nonlinear_arith)
            requires
                0 <= y < range.1,
                0 <= c < cols,
        ;
        assert((before + y) * cols + c == before * cols + (y * cols + c)) by (nonlinear_arith);
        assert((range.0 + range.1) * cols - range.0 * cols == range.1 * cols) by (nonlinear_arith);
        assert((range.0 + y) * cols + c == range.0 * cols + (y * cols + c)) by (nonlinear_arith);
        assert(0 <= range.0 * cols) by (nonlinear_arith)
            requires
                0 <= cols,
        ;
        assert(0 <= before * cols) by (nonlinear_arith)
            requires
                0 <= before,
                0 <= cols,
        ;
        assert((before + range.1) * cols == before * cols + range.1 * cols) by (nonlinear_arith);
        assert(rows_of(v, cols, ranges, k)[(before + y) * cols + c] == part[y * cols + c]);
    }
}

/// Widths only grow with the ranges counted.
proof fn lemma_widths_grow(ranges: Seq<(usize, usize)>, i: nat, k: nat)
    requires
        i <= k,
    ensures
        width_upto(ranges, i) <= width_upto(ranges, k),
    decreases k,
{
    if i < k {
        lemma_widths_grow(ranges, i, (k - 1) as nat);
    }
}

/// Widths are sums: each range adds its own length to those before it.
pub proof fn widths_add_up(ranges: Seq<(usize, usize)>, j: nat)
    requires
        j < ranges.len(),
    ensures
        width_upto(ranges, 0) == 0,
        width_upto(ranges, j + 1) == width_upto(ranges, j) + ranges[j as int].1,
{
}

} // verus!
