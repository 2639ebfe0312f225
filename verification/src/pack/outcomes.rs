//! What callers of the pack's functions are given: which entries an import
//! adds, which bytes values are stored as, and what is read of them.

use crate::gguf::GgufTensorInfo;
use crate::pack::{
    level_at, level_named, levels_from, nibble, normalised_levels_are_ascending, numel,
    pack_nibbles, parsed_levels, shape_fits, unpack_nibbles, Blob, ImportAction, Manifest,
    Precision, Role, TensorEntry,
};
use crate::pack::import::{
    countable, items_of, level_bytes, stored_as, writers_over, writes_from, BlobWriter, ImportItem,
    Importer, ItemModel, Levels,
};
use crate::pack::layout::{
    a_column_slice_keeps_its_scales, a_column_slice_reads_its_ranges,
    a_convolution_keeps_its_kernels, a_linear_weight_is_stored_by_input,
    a_row_slice_reads_its_ranges, an_expert_bank_is_split_by_expert,
    floats_are_read_from_the_widest_level, levels_hold_what_was_requested,
};
use crate::pack::read::{
    aligned, check_cols, check_rows, entry_from, first_resized, le_words, level_blob, read_floats,
    read_quant, rewrite_entry, slice_cols, slice_rows, tensor_cols, tensor_rows, width_upto, within,
    FloatSource, RewritePlan,
};
use crate::pack::store::{half_bytes, le_bytes, le_halves, quantized_values};
use crate::text::{decimal, lowered, pieces, trimmed};
use vstd::prelude::*;

verus! {

// ---- import ----------------------------------------------------------------

/// A convolution that is imported adds one entry of its name: a kernel of `k`
/// taps for each channel, as they stand in the source.
pub proof fn an_imported_convolution_is_one_entry(
    imp: &mut Importer,
    info: GgufTensorInfo,
    r: Result<Vec<ImportItem>, String>,
)
    requires
        countable(info.dims@),
        call_ensures(Importer::add_tensor, (imp, &info, &Some(ImportAction::Conv)), r),
    ensures
        r is Ok <==> info.dims@.len() == 2,
        r is Err ==> final(imp).tensors@ == old(imp).tensors@,
        r is Ok ==> {
            let e = final(imp).tensors@.last();
            let item = r->Ok_0@[0];
            &&& r->Ok_0@.len() == 1
            &&& final(imp).tensors@.drop_last() == old(imp).tensors@
            &&& e.name@ == info.name@
            &&& e.role is Conv
            &&& e.shape@.len() == 3
            &&& e.shape@[0] == info.dims@[1]
            &&& e.shape@[1] == 1
            &&& e.shape@[2] == info.dims@[0]
            &&& item.entry == old(imp).tensors@.len()
            &&& item.source == 0
            &&& item.count == info.dims@[1] * info.dims@[0]
            &&& item.transpose is None
        },
{
    let l: Option<ImportAction> = Some(ImportAction::Conv);
    assert(items_of(info, l) is Err <==> info.dims@.len() != 2);
    if r is Ok {
        a_convolution_keeps_its_kernels(info, 0, 0);
        assert(stored_as(
            old(imp).levels,
            writers_over(old(imp).levels, old(imp).writers@, items_of(info, l)->Ok_0, 0),
            items_of(info, l)->Ok_0[0],
            final(imp).tensors@[old(imp).tensors@.len() as int],
            r->Ok_0@[0],
            old(imp).tensors@.len() as int,
        ));
    }
}

/// A linear weight that is imported adds one entry of its name, input by
/// output, transposed from the source.
pub proof fn an_imported_linear_weight_is_one_entry(
    imp: &mut Importer,
    info: GgufTensorInfo,
    r: Result<Vec<ImportItem>, String>,
)
    requires
        countable(info.dims@),
        call_ensures(Importer::add_tensor, (imp, &info, &Some(ImportAction::Linear)), r),
    ensures
        r is Ok <==> info.dims@.len() == 2,
        r is Err ==> final(imp).tensors@ == old(imp).tensors@,
        r is Ok ==> {
            let e = final(imp).tensors@.last();
            let item = r->Ok_0@[0];
            &&& r->Ok_0@.len() == 1
            &&& final(imp).tensors@.drop_last() == old(imp).tensors@
            &&& e.name@ == info.name@
            &&& e.role is Linear
            &&& e.shape@.len() == 2
            &&& e.shape@[0] == info.dims@[0]
            &&& e.shape@[1] == info.dims@[1]
            &&& item.entry == old(imp).tensors@.len()
            &&& item.source == 0
            &&& item.count == info.dims@[0] * info.dims@[1]
            &&& item.transpose is Some
            &&& (item.transpose->0).0 == info.dims@[1]
            &&& (item.transpose->0).1 == info.dims@[0]
        },
{
    let l: Option<ImportAction> = Some(ImportAction::Linear);
    assert(items_of(info, l) is Err <==> info.dims@.len() != 2);
    if r is Ok {
        a_linear_weight_is_stored_by_input(info, 0, 0);
        assert(stored_as(
            old(imp).levels,
            writers_over(old(imp).levels, old(imp).writers@, items_of(info, l)->Ok_0, 0),
            items_of(info, l)->Ok_0[0],
            final(imp).tensors@[old(imp).tensors@.len() as int],
            r->Ok_0@[0],
            old(imp).tensors@.len() as int,
        ));
    }
}

/// An expert bank that is imported adds one entry for each expert, in order,
/// each input by output and transposed from its part of the source.
pub proof fn an_imported_bank_is_an_entry_for_each_expert(
    imp: &mut Importer,
    info: GgufTensorInfo,
    layer: usize,
    proj: String,
    r: Result<Vec<ImportItem>, String>,
    x: int,
)
    requires
        countable(info.dims@),
        call_ensures(
            Importer::add_tensor,
            (imp, &info, &Some(ImportAction::ExpertBank { layer, proj })),
            r,
        ),
    ensures
        r is Ok <==> info.dims@.len() == 3,
        r is Err ==> final(imp).tensors@ == old(imp).tensors@,
        r is Ok && 0 <= x < info.dims@[2] ==> {
            let base = old(imp).tensors@.len();
            let e = final(imp).tensors@[base + x];
            let item = r->Ok_0@[x];
            &&& r->Ok_0@.len() == info.dims@[2]
            &&& final(imp).tensors@.len() == base + info.dims@[2]
            &&& e.name@ == info.name@ + "/e"@ + decimal(x as nat)
            &&& e.role matches Role::Expert { layer: l, index, proj: p } && l == layer && index == x
                && p@ == proj@
            &&& e.shape@.len() == 2
            &&& e.shape@[0] == info.dims@[0]
            &&& e.shape@[1] == info.dims@[1]
            &&& item.entry == base + x
            &&& item.count == info.dims@[0] * info.dims@[1]
        },
{
    let l: Option<ImportAction> = Some(ImportAction::ExpertBank { layer, proj });
    assert(items_of(info, l) is Err <==> info.dims@.len() != 3);
    if r is Ok && 0 <= x < info.dims@[2] {
        an_expert_bank_is_split_by_expert(info, layer, proj, x, 0, 0);
        assert(stored_as(
            old(imp).levels,
            writers_over(old(imp).levels, old(imp).writers@, items_of(info, l)->Ok_0, x as nat),
            items_of(info, l)->Ok_0[x],
            final(imp).tensors@[old(imp).tensors@.len() + x],
            r->Ok_0@[x],
            old(imp).tensors@.len() + x,
        ));
    }
}

/// A name that nothing maps is refused, and one that is skipped adds nothing.
pub proof fn an_unmapped_tensor_is_refused(
    imp: &mut Importer,
    info: GgufTensorInfo,
    action: Option<ImportAction>,
    r: Result<Vec<ImportItem>, String>,
)
    requires
        action is None || action == Some(ImportAction::Skip),
        call_ensures(Importer::add_tensor, (imp, &info, &action), r),
    ensures
        action is None ==> r is Err,
        action is Some ==> r is Ok && r->Ok_0@.len() == 0,
        final(imp).tensors@ == old(imp).tensors@,
        final(imp).writers@ == old(imp).writers@,
{
}

/// A stored tensor is quantized only if it is a weight matrix, of a projection
/// or of an expert, whose rows are whole blocks of thirty-two.
pub proof fn only_weights_of_whole_blocks_are_quantized(m: ItemModel)
    ensures
        m.quantizable() <==> {
            &&& m.role is Linear || m.role is Expert
            &&& m.shape.len() == 2
            &&& m.shape[1] > 0
            &&& m.shape[1] % 32 == 0
        },
{
}

/// An entry has a level exactly when that level is stored for such a tensor.
pub proof fn an_entry_has_the_levels_that_are_stored(
    levels: Levels,
    quantizable: bool,
    n: nat,
    writers: Seq<BlobWriter>,
    k: int,
    p: Precision,
)
    requires
        0 <= k,
    ensures
        (exists|i: int|
            0 <= i < writes_from(levels, quantizable, n, writers, k).len() && (
            #[trigger] writes_from(levels, quantizable, n, writers, k)[i]).precision == p) <==> (
        levels.stores(quantizable, p) && exists|j: int|
            k <= j < levels.all_levels@.len() && #[trigger] levels.all_levels@[j] == p),
    decreases levels.all_levels@.len() - k,
{
    let all = writes_from(levels, quantizable, n, writers, k);
    if k < levels.all_levels@.len() {
        an_entry_has_the_levels_that_are_stored(levels, quantizable, n, writers, k + 1, p);
        let q = levels.all_levels@[k];
        let rest = writes_from(levels, quantizable, n, writers, k + 1);
        if levels.stores(quantizable, q) {
            assert(all[0].precision == q);
            assert forall|i: int| 0 <= i < rest.len() implies #[trigger] rest[i] == all[i + 1] by {}
            if exists|i: int| 0 <= i < rest.len() && (#[trigger] rest[i]).precision == p {
                let i = choose|i: int| 0 <= i < rest.len() && (#[trigger] rest[i]).precision == p;
                assert(all[i + 1].precision == p);
            }
            if exists|i: int| 0 <= i < all.len() && (#[trigger] all[i]).precision == p {
                let i = choose|i: int| 0 <= i < all.len() && (#[trigger] all[i]).precision == p;
                if i > 0 {
                    assert(rest[i - 1] == all[i]);
                }
            }
        } else {
            assert(all == rest);
        }
    }
}

/// Bytes go to the end of a blob, and a blob is synced once a gibibyte or more
/// of it is not.
pub proof fn bytes_go_to_the_end_of_a_blob(w: &mut BlobWriter, bytes: u64, r: (u64, bool))
    requires
        old(w).len + bytes <= u64::MAX,
        old(w).unsynced <= old(w).len,
        call_ensures(BlobWriter::append, (w, bytes), r),
    ensures
        r.0 == old(w).len,
        final(w).len == old(w).len + bytes,
        r.1 <==> old(w).unsynced + bytes >= 0x4000_0000,
        final(w).unsynced == if r.1 {
            0
        } else {
            old(w).unsynced + bytes
        },
{
}

/// A level takes half a byte, one, two or four for each value, and, where it is
/// quantized, four for each thirty-two.
pub proof fn a_level_takes_its_bytes(p: Precision, n: u64, r: (u64, u64))
    requires
        4 * n <= u64::MAX,
        call_ensures(level_bytes, (p, n), r),
    ensures
        p == Precision::Q4 ==> n <= 2 * r.0 <= n + 1,
        p == Precision::Q8 ==> r.0 == n,
        p == Precision::F16 ==> r.0 == 2 * n,
        p == Precision::F32 ==> r.0 == 4 * n,
        p == Precision::Q4 || p == Precision::Q8 ==> r.1 == 4 * (n / 32),
        p == Precision::F16 || p == Precision::F32 ==> r.1 == 0,
{
}

// ---- bytes -----------------------------------------------------------------

/// Two values share a byte, the first in the low half, each by its low four
/// bits; read back, a half is a value of minus eight to seven.
pub proof fn the_first_of_two_is_in_the_low_half(
    values: Vec<i8>,
    bytes: Vec<u8>,
    n: usize,
    back: Vec<i8>,
    i: int,
)
    requires
        call_ensures(pack_nibbles, (&values,), bytes),
        call_ensures(unpack_nibbles, (&bytes, n), back),
        0 <= i < bytes@.len(),
    ensures
        bytes@.len() == (values@.len() + 1) / 2,
        bytes@[i] as int % 16 == values@[2 * i] as int % 16,
        2 * i + 1 < values@.len() ==> bytes@[i] as int / 16 == values@[2 * i + 1] as int % 16,
        2 * i + 1 >= values@.len() ==> bytes@[i] as int / 16 == 0,
        2 * i < back@.len() ==> {
            let low = bytes@[i] as int % 16;
            back@[2 * i] == if low < 8 {
                low
            } else {
                low - 16
            }
        },
        2 * i + 1 < back@.len() ==> {
            let high = bytes@[i] as int / 16;
            back@[2 * i + 1] == if high < 8 {
                high
            } else {
                high - 16
            }
        },
{
    let a = nibble(values@[2 * i]);
    let b = if 2 * i + 1 < values@.len() {
        nibble(values@[2 * i + 1])
    } else {
        0
    };
    assert(0 <= a < 16 && 0 <= b < 16);
    assert(bytes@[i] == a + 16 * b);
    assert((2 * i) / 2 == i && (2 * i + 1) / 2 == i && (2 * i) % 2 == 0 && (2 * i + 1) % 2 == 1);
}

/// Words and halves are stored and read low byte first.
pub proof fn words_are_stored_low_byte_first(
    words: Vec<u32>,
    bytes: Vec<u8>,
    halves: Vec<u16>,
    half: Vec<u8>,
    i: int,
    j: int,
)
    requires
        call_ensures(le_bytes, (&words,), bytes),
        call_ensures(half_bytes, (&halves,), half),
        0 <= i < words@.len(),
        0 <= j < halves@.len(),
    ensures
        bytes@.len() == 4 * words@.len(),
        words@[i] == bytes@[4 * i] + 0x100 * bytes@[4 * i + 1] + 0x1_0000 * bytes@[4 * i + 2]
            + 0x100_0000 * bytes@[4 * i + 3],
        half@.len() == 2 * halves@.len(),
        halves@[j] == half@[2 * j] + 0x100 * half@[2 * j + 1],
{
    assert((4 * i) / 4 == i && (4 * i + 1) / 4 == i && (4 * i + 2) / 4 == i && (4 * i + 3) / 4
        == i);
    assert((2 * j) / 2 == j && (2 * j + 1) / 2 == j);
}

/// Words and halves are read low byte first; what is left over is dropped.
pub proof fn words_are_read_low_byte_first(
    bytes: Vec<u8>,
    words: Vec<u32>,
    halves: Vec<u16>,
    i: int,
    j: int,
)
    requires
        call_ensures(le_words, (&bytes,), words),
        call_ensures(le_halves, (&bytes,), halves),
    ensures
        words@.len() == bytes@.len() / 4,
        halves@.len() == bytes@.len() / 2,
        0 <= i < words@.len() ==> words@[i] == bytes@[4 * i] + 0x100 * bytes@[4 * i + 1]
            + 0x1_0000 * bytes@[4 * i + 2] + 0x100_0000 * bytes@[4 * i + 3],
        0 <= j < halves@.len() ==> halves@[j] == bytes@[2 * j] + 0x100 * bytes@[2 * j + 1],
{
}

/// Values of eight bits are stored as they are, one a byte.
pub proof fn eight_bit_values_take_a_byte(values: Vec<i8>, bytes: Vec<u8>, i: int)
    requires
        call_ensures(quantized_values, (Precision::Q8, &values), bytes),
        0 <= i < values@.len(),
    ensures
        bytes@.len() == values@.len(),
        bytes@[i] == if values@[i] >= 0 {
            values@[i] as int
        } else {
            values@[i] + 256
        },
{
}

// ---- reading ---------------------------------------------------------------

/// A level's blob is that of the first of an entry's levels that is it.
pub proof fn a_blob_is_of_its_level(v: Seq<(Precision, Blob)>, p: Precision, from: int)
    requires
        0 <= from,
    ensures
        level_at(v, p, from) matches Some(i) ==> from <= i < v.len() && v[i].0 == p && forall|
            j: int,
        |
            from <= j < i ==> (#[trigger] v[j]).0 != p,
        level_at(v, p, from) is None ==> forall|j: int|
            from <= j < v.len() ==> (#[trigger] v[j]).0 != p,
    decreases v.len() - from,
{
    if from < v.len() && v[from].0 != p {
        a_blob_is_of_its_level(v, p, from + 1);
    }
}

/// An entry is found by its name, the first of that name.
pub proof fn an_entry_is_found_by_its_name(tensors: Seq<TensorEntry>, name: Seq<char>, from: int)
    requires
        0 <= from,
    ensures
        entry_from(tensors, name, from) matches Some(i) ==> from <= i < tensors.len()
            && tensors[i].name@ == name && forall|j: int|
            from <= j < i ==> (#[trigger] tensors[j]).name@ != name,
        entry_from(tensors, name, from) is None ==> forall|j: int|
            from <= j < tensors.len() ==> (#[trigger] tensors[j]).name@ != name,
    decreases tensors.len() - from,
{
    if from < tensors.len() && tensors[from].name@ != name {
        an_entry_is_found_by_its_name(tensors, name, from + 1);
    }
}

/// A level is of the size that the shape asks for where no level is found that
/// is not.
proof fn lemma_resized(v: Seq<(Precision, Blob)>, n: nat, from: int)
    requires
        0 <= from,
    ensures
        first_resized(v, n, from) matches Some(i) ==> from <= i < v.len(),
        first_resized(v, n, from) is None <==> forall|i: int|
            from <= i < v.len() ==> (#[trigger] v[i]).1.values_len
                == crate::pack::import::value_bytes(v[i].0, n) && v[i].1.scales_len
                == crate::pack::import::scale_bytes(v[i].0, n),
    decreases v.len() - from,
{
    if from < v.len() {
        lemma_resized(v, n, from + 1);
    }
}

/// An entry is rewritten whole, level by level in place, exactly when there is
/// a value for every place of its shape and every level has the size of that
/// many values.
pub proof fn an_entry_is_rewritten_in_place(entry: TensorEntry, values: usize, r: RewritePlan)
    requires
        shape_fits(entry.shape@),
        call_ensures(rewrite_entry, (&entry, values), r),
    ensures
        r.failure is None <==> values == numel(entry.shape@) && forall|i: int|
            0 <= i < entry.precisions@.len() ==> {
                let (p, b) = #[trigger] entry.precisions@[i];
                let n = numel(entry.shape@);
                &&& p == Precision::Q4 ==> b.values_len == (n + 1) / 2
                &&& p == Precision::Q8 ==> b.values_len == n
                &&& p == Precision::F16 ==> b.values_len == 2 * n
                &&& p == Precision::F32 ==> b.values_len == 4 * n
                &&& p == Precision::Q4 || p == Precision::Q8 ==> b.scales_len == 4 * (n / 32)
                &&& p == Precision::F16 || p == Precision::F32 ==> b.scales_len == 0
            },
        r.failure is None ==> r.writes@ == entry.precisions@,
        r.writes@.is_prefix_of(entry.precisions@),
{
    lemma_resized(entry.precisions@, numel(entry.shape@), 0);
}

/// A quantized level is read where its bytes are a value for each place of the
/// shape and a scale for each thirty-two.
pub proof fn a_quantized_level_is_read_whole(
    entry: TensorEntry,
    p: Precision,
    value_bytes: Vec<u8>,
    scale_bytes: Vec<u8>,
    r: Result<(Vec<i8>, Vec<u32>), String>,
)
    requires
        shape_fits(entry.shape@),
        call_ensures(read_quant, (&entry, p, &value_bytes, &scale_bytes), r),
    ensures
        ({
            let n = numel(entry.shape@);
            &&& p == Precision::Q8 ==> (r is Ok <==> value_bytes@.len() == n
                && scale_bytes@.len() / 4 == n / 32)
            &&& p == Precision::Q4 ==> (r is Ok <==> 2 * value_bytes@.len() >= n
                && scale_bytes@.len() / 4 == n / 32)
            &&& p == Precision::F16 || p == Precision::F32 ==> r is Err
            &&& r is Ok ==> r->Ok_0.0@.len() == n && r->Ok_0.1@.len() == n / 32
        }),
{
}

/// A slice by columns is of a matrix, and, of a quantized level, by whole
/// blocks; one by rows is of a matrix.
pub proof fn a_slice_is_of_a_matrix(
    entry: TensorEntry,
    p: Precision,
    ranges: Vec<(usize, usize)>,
    cols: Result<(usize, usize, usize), String>,
    rows: Result<(usize, usize), String>,
)
    requires
        call_ensures(check_cols, (&entry, p, &ranges), cols),
        call_ensures(check_rows, (&entry, &ranges), rows),
    ensures
        cols is Ok <==> entry.shape@.len() == 2 && (p == Precision::Q4 || p == Precision::Q8
            ==> forall|i: int|
            0 <= i < ranges@.len() ==> (#[trigger] ranges@[i]).0 % 32 == 0 && ranges@[i].1 % 32
                == 0),
        cols matches Ok(s) ==> s.0 == entry.shape@[0] && s.1 == entry.shape@[1] && s.2
            == width_upto(ranges@, ranges@.len()),
        rows is Ok <==> entry.shape@.len() == 2,
        rows matches Ok(s) ==> s.0 == entry.shape@[1] && s.1 == width_upto(
            ranges@,
            ranges@.len(),
        ),
{
}

// ---- lists of levels -------------------------------------------------------

/// The levels that a list of names holds.
proof fn lemma_levels(items: Seq<Seq<char>>, i: int, found: Seq<Precision>, p: Precision)
    requires
        0 <= i,
        levels_from(items, i) == Ok::<Seq<Precision>, Seq<char>>(found),
    ensures
        found.contains(p) <==> exists|j: int|
            i <= j < items.len() && level_named(lowered(trimmed(#[trigger] items[j]))) == Some(p)
                && lowered(trimmed(items[j])).len() > 0,
    decreases items.len() - i,
{
    if i < items.len() {
        let item = lowered(trimmed(items[i]));
        if item.len() == 0 {
            lemma_levels(items, i + 1, found, p);
        } else {
            let q = level_named(item)->0;
            let rest = levels_from(items, i + 1)->Ok_0;
            lemma_levels(items, i + 1, rest, p);
            assert(found == seq![q] + rest);
            assert(found[0] == q);
            if rest.contains(p) {
                let j = choose|j: int| 0 <= j < rest.len() && rest[j] == p;
                assert(found[j + 1] == p);
            }
            if found.contains(p) && p != q {
                let j = choose|j: int| 0 <= j < found.len() && found[j] == p;
                assert(rest[j - 1] == p);
            }
        }
    }
}

/// A list of levels holds exactly the levels that its items name, ascending and
/// each once.
pub proof fn a_list_holds_the_named_levels(s: Seq<char>, found: Seq<Precision>, p: Precision)
    requires
        parsed_levels(s) == Ok::<Seq<Precision>, Seq<char>>(found),
    ensures
        found.len() > 0,
        found.contains(p) <==> exists|j: int|
            0 <= j < pieces(s, ',').len() && level_named(
                lowered(trimmed(#[trigger] pieces(s, ',')[j])),
            ) == Some(p) && lowered(trimmed(pieces(s, ',')[j])).len() > 0,
        forall|i: int, j: int|
            0 <= i < j < found.len() ==> (#[trigger] found[i]).rank() < (#[trigger] found[j]).rank(),
{
    let all = levels_from(pieces(s, ','), 0)->Ok_0;
    normalised_levels_are_ascending(all);
    lemma_levels(pieces(s, ','), 0, all, p);
    assert(all.contains(all[0]));
    assert(found.contains(all[0]));
}

/// A level is named by its bits or by what it is, and no level by anything
/// else.
pub proof fn a_level_has_two_names(item: Seq<char>)
    ensures
        level_named(item) == Some(Precision::Q4) <==> item == "q4"@ || item == "int4"@,
        level_named(item) is None <==> item != "q4"@ && item != "int4"@ && item != "q8"@ && item
            != "int8"@ && item != "f16"@ && item != "half"@ && item != "f32"@ && item != "float"@,
        level_named("q8"@) == Some(Precision::Q8) && level_named("int8"@) == Some(Precision::Q8),
        level_named("f16"@) == Some(Precision::F16) && level_named("half"@) == Some(
            Precision::F16,
        ),
        level_named("f32"@) == Some(Precision::F32) && level_named("float"@) == Some(
            Precision::F32,
        ),
{
    reveal_strlit("q4");
    reveal_strlit("int4");
    reveal_strlit("q8");
    reveal_strlit("int8");
    reveal_strlit("f16");
    reveal_strlit("half");
    reveal_strlit("f32");
    reveal_strlit("float");
    assert("q4"@[1] != "q8"@[1]);
    assert("int4"@[3] != "int8"@[3]);
    assert("f16"@[1] != "f32"@[1]);
    assert("half"@[0] != "int4"@[0] && "half"@[0] != "int8"@[0]);
}

// ---- manifests -------------------------------------------------------------

/// Floats are read from half precision where it is asked for and stored, else
/// from the widest level that is; there are none only where nothing is stored.
pub proof fn floats_come_from_a_stored_level(
    entry: TensorEntry,
    prefer: Precision,
    r: Result<FloatSource, String>,
    place: int,
)
    requires
        call_ensures(read_floats, (&entry, prefer), r),
        0 <= place < entry.precisions@.len(),
    ensures
        r is Ok,
        entry.precisions@[place].0 == Precision::F32 && prefer != Precision::F16 ==> r->Ok_0.level
            == Precision::F32,
        entry.precisions@[place].0 == Precision::F16 && prefer == Precision::F16 ==> r->Ok_0.level
            == Precision::F16,
        entry.precisions@[place].0 == Precision::F16 ==> r->Ok_0.level == Precision::F16
            || r->Ok_0.level == Precision::F32,
        entry.precisions@[place].0 == Precision::Q8 ==> r->Ok_0.level != Precision::Q4,
        exists|k: int|
            0 <= k < entry.precisions@.len() && (#[trigger] entry.precisions@[k]).0 == r->Ok_0.level
                && entry.precisions@[k].1 == r->Ok_0.blob,
{
    floats_are_read_from_the_widest_level(entry, prefer, place);
    let level = r->Ok_0.level;
    a_blob_is_of_its_level(entry.precisions@, level, 0);
    let k = level_at(entry.precisions@, level, 0)->0;
    assert(entry.precisions@[k].0 == level);
}

/// A slice by columns has, row by row, the columns of its ranges one after
/// another.
pub proof fn sliced_columns_stand_by_range<T: Copy>(
    v: Vec<T>,
    rows: usize,
    cols: usize,
    ranges: Vec<(usize, usize)>,
    r: Vec<T>,
    row: int,
    j: int,
    y: int,
)
    requires
        v@.len() == rows * cols,
        within(ranges@, cols as int),
        call_ensures(slice_cols::<T>, (&v, rows, cols, &ranges), r),
        0 <= row < rows,
        0 <= j < ranges@.len(),
        0 <= y < ranges@[j].1,
    ensures
        r@[row * width_upto(ranges@, ranges@.len()) + (width_upto(ranges@, j as nat) + y)] == v@[row
            * cols + ranges@[j].0 + y],
{
    a_column_slice_reads_its_ranges(v@, rows as nat, cols as int, ranges@, row, j, y);
}

/// A slice by rows has the rows of its ranges one after another.
pub proof fn sliced_rows_stand_by_range<T: Copy>(
    v: Vec<T>,
    rows: usize,
    cols: usize,
    ranges: Vec<(usize, usize)>,
    r: Vec<T>,
    j: int,
    y: int,
    c: int,
)
    requires
        v@.len() == rows * cols,
        within(ranges@, rows as int),
        call_ensures(slice_rows::<T>, (&v, rows, cols, &ranges), r),
        0 <= j < ranges@.len(),
        0 <= y < ranges@[j].1,
        0 <= c < cols,
    ensures
        r@[(width_upto(ranges@, j as nat) + y) * cols + c] == v@[(ranges@[j].0 + y) * cols + c],
{
    a_row_slice_reads_its_ranges(v@, rows as nat, cols as int, ranges@, j, y, c);
}

/// Sliced columns of a quantized level keep the scales of their blocks.
pub proof fn sliced_columns_keep_their_scales(
    values: Vec<i8>,
    scales: Vec<u32>,
    rows: usize,
    cols: usize,
    ranges: Vec<(usize, usize)>,
    r: (Vec<i8>, Vec<u32>),
    row: int,
    j: int,
    y: int,
)
    requires
        values@.len() == rows * cols,
        scales@.len() == rows * (cols / 32),
        cols % 32 == 0,
        aligned(ranges@),
        within(ranges@, cols as int),
        call_ensures(tensor_cols, (&values, &scales, rows, cols, &ranges), r),
        0 <= row < rows,
        0 <= j < ranges@.len(),
        0 <= y < ranges@[j].1,
    ensures
        ({
            let w = width_upto(ranges@, ranges@.len());
            let x = width_upto(ranges@, j as nat) + y;
            &&& r.0@[row * w + x] == values@[row * cols + ranges@[j].0 + y]
            &&& r.1@[row * (w / 32) as int + x / 32] == scales@[row * (cols as int / 32) + (
            ranges@[j].0 + y) / 32]
        }),
{
    a_column_slice_reads_its_ranges(values@, rows as nat, cols as int, ranges@, row, j, y);
    a_column_slice_keeps_its_scales(scales@, rows as nat, cols as int, ranges@, row, j, y);
}

/// An import keeps the levels that are asked for; what is not quantized is kept
/// as floats, single precision where no float level is asked for.
pub proof fn an_import_keeps_the_levels_asked_for(
    requested: Vec<Precision>,
    r: Levels,
    p: Precision,
    weight: bool,
    other: bool,
)
    requires
        call_ensures(Levels::new, (&requested,), r),
        call_ensures(Levels::holds, (&r, true, p), weight),
        call_ensures(Levels::holds, (&r, false, p), other),
    ensures
        weight <==> requested@.contains(p),
        other <==> if requested@.contains(Precision::F16) || requested@.contains(Precision::F32) {
            (p == Precision::F16 || p == Precision::F32) && requested@.contains(p)
        } else {
            p == Precision::F32
        },
{
    levels_hold_what_was_requested(r, requested@, p);
}

/// A finished import says what it was made of and lists what was added.
pub proof fn a_finished_import_lists_what_was_added(
    imp: Importer,
    source_file: String,
    source_bytes: u64,
    architecture: String,
    r: Manifest,
    check: Result<(), String>,
)
    requires
        call_ensures(Importer::finish, (imp, source_file, source_bytes, architecture), r),
        call_ensures(Manifest::check_version, (&r,), check),
    ensures
        check is Ok,
        r.source_file == source_file && r.source_bytes == source_bytes && r.architecture
            == architecture,
        r.tensors == imp.tensors,
        r.precisions == imp.levels.all_levels,
        r.ffn_partition is None,
{
}

/// A manifest gives the entry of a name, the first of it.
pub proof fn a_manifest_gives_the_entry_of_a_name(
    m: Manifest,
    name: &str,
    r: Option<&TensorEntry>,
)
    requires
        call_ensures(Manifest::entry, (&m, name), r),
    ensures
        r matches Some(e) ==> exists|i: int|
            0 <= i < m.tensors@.len() && (#[trigger] m.tensors@[i]) == *e && e.name@ == name@
                && forall|j: int| 0 <= j < i ==> (#[trigger] m.tensors@[j]).name@ != name@,
        r is None ==> forall|j: int|
            0 <= j < m.tensors@.len() ==> (#[trigger] m.tensors@[j]).name@ != name@,
{
    an_entry_is_found_by_its_name(m.tensors@, name@, 0);
    if r is Some {
        let i = entry_from(m.tensors@, name@, 0)->0;
        assert(m.tensors@[i].name@ == name@);
    }
}

/// A list of levels is read as the levels that its items name.
pub proof fn a_list_is_read_as_its_named_levels(
    s: &str,
    r: Result<Vec<Precision>, String>,
    p: Precision,
)
    requires
        call_ensures(Precision::parse_list, (s,), r),
        r is Ok,
    ensures
        r->Ok_0@.contains(p) <==> exists|j: int|
            0 <= j < pieces(s@, ',').len() && level_named(
                lowered(trimmed(#[trigger] pieces(s@, ',')[j])),
            ) == Some(p) && lowered(trimmed(pieces(s@, ',')[j])).len() > 0,
        r->Ok_0@.len() > 0,
{
    a_list_holds_the_named_levels(s@, r->Ok_0@, p);
}

/// Sliced rows of a quantized level keep the scales of their rows.
pub proof fn sliced_rows_keep_their_scales(
    values: Vec<i8>,
    scales: Vec<u32>,
    rows: usize,
    cols: usize,
    ranges: Vec<(usize, usize)>,
    r: (Vec<i8>, Vec<u32>),
    j: int,
    y: int,
    c: int,
)
    requires
        values@.len() == rows * cols,
        scales@.len() == rows * (cols / 32),
        within(ranges@, rows as int),
        call_ensures(tensor_rows, (&values, &scales, rows, cols, &ranges), r),
        0 <= j < ranges@.len(),
        0 <= y < ranges@[j].1,
    ensures
        ({
            let at = width_upto(ranges@, j as nat) + y;
            let from = ranges@[j].0 + y;
            &&& 0 <= c < cols ==> r.0@[at * cols + c] == values@[from * cols + c]
            &&& 0 <= c < cols as int / 32 ==> r.1@[at * (cols as int / 32) + c] == scales@[from * (
            cols as int / 32) + c]
        }),
{
    if 0 <= c < cols {
        a_row_slice_reads_its_ranges(values@, rows as nat, cols as int, ranges@, j, y, c);
    }
    if 0 <= c < cols as int / 32 {
        a_row_slice_reads_its_ranges(scales@, rows as nat, cols as int / 32, ranges@, j, y, c);
    }
}

/// A level's blob is given where the level is stored.
pub proof fn a_stored_level_gives_its_blob(
    entry: TensorEntry,
    p: Precision,
    r: Result<Blob, String>,
    g: Option<Blob>,
)
    requires
        call_ensures(level_blob, (&entry, p), r),
        call_ensures(TensorEntry::get, (&entry, p), g),
    ensures
        r is Ok <==> exists|i: int|
            0 <= i < entry.precisions@.len() && (#[trigger] entry.precisions@[i]).0 == p,
        r matches Ok(b) ==> g == Some(b) && exists|i: int|
            0 <= i < entry.precisions@.len() && (#[trigger] entry.precisions@[i]).0 == p
                && entry.precisions@[i].1 == b,
{
    a_blob_is_of_its_level(entry.precisions@, p, 0);
    if r is Ok {
        let i = level_at(entry.precisions@, p, 0)->0;
        assert(entry.precisions@[i].0 == p);
    }
}

} // verus!
