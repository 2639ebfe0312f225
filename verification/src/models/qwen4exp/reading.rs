//! What is read on demand: where a payload lies, which bytes a row of the
//! embedding table and an expert's row are, and which experts serve a token.

use crate::gguf::{tensor_from_is_a_hit, GgmlType, GgufFile};
use crate::models::qwen4exp::experts::{
    bank_place, bank_row_bytes, clipped, first_misshapen, serves, shape_wanted, shapes_of,
    shapes_refusal, BankKind, ExpertBank, ExpertJob, LayerExperts, Routing,
};
use crate::models::qwen4exp::table::{
    first_past, location, opened, owner_from, row_layout_of, rows_bytes, Gathered, PayloadShard,
    PleTable, TableSource,
};
use crate::models::qwen4exp::trunk::block_name;
use crate::routing::{gathered, groups_from, is_top, places_are_the_routed_ones, places_of};
use vstd::arithmetic::div_mod::{lemma_fundamental_div_mod, lemma_mod_bound};
use vstd::arithmetic::mul::lemma_mul_inequality;
use vstd::prelude::*;

verus! {

/// A block is its scales and its values: what a storage type takes for a block
/// is the bits of the block's values and what scales them.
pub proof fn a_block_is_its_scales_and_its_values(t: GgmlType)
    ensures
        t.block_bytes() == match t {
            GgmlType::F32 => t.block() * 4,
            GgmlType::F16 | GgmlType::BF16 => t.block() * 2,
            GgmlType::Q40 | GgmlType::Iq4Nl => t.block() / 2 + 2,
            GgmlType::Q41 => t.block() / 2 + 2 + 2,
            GgmlType::Q50 => t.block() / 2 + t.block() / 8 + 2,
            GgmlType::Q51 => t.block() / 2 + t.block() / 8 + 2 + 2,
            GgmlType::Q80 => t.block() + 2,
            GgmlType::Q2K => t.block() / 4 + t.block() / 16 + 2 + 2,
            GgmlType::Q3K => t.block() / 4 + t.block() / 8 + 12 + 2,
            GgmlType::Q4K => t.block() / 2 + 12 + 2 + 2,
            GgmlType::Q5K => t.block() / 2 + t.block() / 8 + 12 + 2 + 2,
            GgmlType::Q6K => t.block() / 2 + t.block() / 4 + t.block() / 16 + 2,
        },
        t.block() == match t {
            GgmlType::F32 | GgmlType::F16 | GgmlType::BF16 => 1nat,
            GgmlType::Q2K | GgmlType::Q3K | GgmlType::Q4K | GgmlType::Q5K
            | GgmlType::Q6K => 256nat,
            _ => 32nat,
        },
{
}

/// The first shard that holds a tensor.
proof fn lemma_owner(shards: Seq<PayloadShard>, index: int, from: int)
    requires
        0 <= from,
    ensures
        match owner_from(shards, index, from) {
            Some(s) => from <= s < shards.len() && shards[s].tensors.start <= index
                < shards[s].tensors.end && forall|k: int|
                from <= k < s ==> !((#[trigger] shards[k]).tensors.start <= index
                    < shards[k].tensors.end),
            None => forall|k: int|
                from <= k < shards.len() ==> !((#[trigger] shards[k]).tensors.start <= index
                    < shards[k].tensors.end),
        },
    decreases shards.len() - from,
{
    if from < shards.len() && !(shards[from].tensors.start <= index < shards[from].tensors.end) {
        lemma_owner(shards, index, from + 1);
    }
}

/// Where a tensor's payload lies: in the first file whose run of the directory
/// holds the tensor, at the tensor's offset behind the start of that file's
/// payloads, and whole. It cannot be read only where no file holds it, or its
/// file ends too early, or it cannot be counted.
pub proof fn a_payload_lies_whole_in_its_file(
    shards: Seq<PayloadShard>,
    f: GgufFile,
    index: nat,
)
    requires
        shards.len() <= usize::MAX,
    ensures
        match location(shards, f, index) {
            Ok((slot, start)) => {
                &&& index < f.tensors@.len()
                &&& slot < shards.len()
                &&& shards[slot as int].tensors.start <= index < shards[slot as int].tensors.end
                &&& forall|k: int|
                    0 <= k < slot ==> !((#[trigger] shards[k]).tensors.start <= index
                        < shards[k].tensors.end)
                &&& start == shards[slot as int].data_offset + f.tensors@[index as int].offset
                &&& f.tensors@[index as int].sized()
                &&& start + f.tensors@[index as int].payload_bytes() <= shards[slot as int].len
            },
            Err(_) => {
                ||| index >= f.tensors@.len()
                ||| !f.tensors@[index as int].sized()
                ||| forall|k: int|
                    0 <= k < shards.len() ==> {
                        ||| !((#[trigger] shards[k]).tensors.start <= index < shards[k].tensors.end)
                        ||| shards[k].data_offset + f.tensors@[index as int].offset
                            + f.tensors@[index as int].payload_bytes() > shards[k].len
                        ||| exists|j: int|
                            0 <= j < k && (#[trigger] shards[j]).tensors.start <= index
                                < shards[j].tensors.end
                    }
            },
        },
{
    lemma_owner(shards, index as int, 0);
    if index < f.tensors@.len() && f.tensors@[index as int].sized() && location(
        shards,
        f,
        index,
    ) is Err {
        assert forall|k: int| 0 <= k < shards.len() implies {
            ||| !((#[trigger] shards[k]).tensors.start <= index < shards[k].tensors.end)
            ||| shards[k].data_offset + f.tensors@[index as int].offset
                + f.tensors@[index as int].payload_bytes() > shards[k].len
            ||| exists|j: int|
                0 <= j < k && (#[trigger] shards[j]).tensors.start <= index
                    < shards[j].tensors.end
        } by {
            if let Some(s) = owner_from(shards, index as int, 0) {
                if s < k {
                    assert(shards[s].tensors.start <= index < shards[s].tensors.end);
                }
            }
        }
    }
}

/// An opened table is the file's: the tensor of the table's name, its rows as
/// wide as the tensor's first dimension and as many as its second, starting
/// where the tensor's payload does, with a bound that some but no more than
/// the stored rows meet.
pub proof fn an_opened_table_is_the_files(shards: Seq<PayloadShard>, f: GgufFile, bound: u64)
    requires
        opened(shards, f, bound) is Ok,
    ensures
        exists|i: int|
            {
                let (slot, start, width, rows) = opened(shards, f, bound)->Ok_0;
                let t = #[trigger] f.tensors@[i];
                &&& 0 <= i < f.tensors@.len()
                &&& t.name@ == "per_layer_token_embd.weight"@
                &&& t.dims@.len() == 2
                &&& width == t.dims@[0]
                &&& rows == t.dims@[1]
                &&& 1 <= bound <= rows
                &&& width as nat % t.dtype.block() == 0
                &&& location(shards, f, i as nat) == Ok::<_, Seq<char>>((slot, start))
            },
{
    let name = "per_layer_token_embd.weight"@;
    tensor_from_is_a_hit(f.tensors@, name, 0);
    let i = f.index_of(name)->0;
    assert(f.tensors@[i].name@ == name);
}

/// A row of whole blocks takes the bytes of its blocks.
pub proof fn a_row_takes_the_bytes_of_its_blocks(t: GgmlType, blocks: nat)
    requires
        blocks > 0,
    ensures
        row_layout_of(t, blocks * t.block()) == Ok::<_, Seq<char>>(
            (blocks * t.block(), blocks * t.block_bytes()),
        ),
        bank_row_bytes(t, blocks * t.block()) == blocks * t.block_bytes(),
{
    let b = t.block() as int;
    let n = blocks as int;
    vstd::arithmetic::div_mod::lemma_mod_multiples_basic(n, b);
    vstd::arithmetic::div_mod::lemma_div_by_multiple(n, b);
    assert(n * b > 0) by (nonlinear_arith)
        requires
            n > 0,
            b > 0,
    ;
}

/// The bytes gathered for rows stand one row after another, each the table's
/// own of that row.
pub proof fn gathered_rows_are_the_tables(
    bytes: Seq<u8>,
    row_bytes: nat,
    rows: Seq<u64>,
    i: int,
    k: int,
)
    requires
        forall|j: int|
            0 <= j < rows.len() ==> (#[trigger] rows[j] + 1) * row_bytes <= bytes.len(),
        0 <= i < rows.len(),
        0 <= k < row_bytes,
    ensures
        rows_bytes(bytes, row_bytes, rows).len() == rows.len() * row_bytes,
        rows_bytes(bytes, row_bytes, rows)[i * row_bytes + k] == bytes[rows[i] * row_bytes + k],
{
    lemma_rows_bytes(bytes, row_bytes, rows, i, k);
}

/// The length of gathered rows.
proof fn lemma_rows_bytes_len(bytes: Seq<u8>, row_bytes: nat, rows: Seq<u64>)
    requires
        forall|j: int|
            0 <= j < rows.len() ==> (#[trigger] rows[j] + 1) * row_bytes <= bytes.len(),
    ensures
        rows_bytes(bytes, row_bytes, rows).len() == rows.len() * row_bytes,
    decreases rows.len(),
{
    if rows.len() == 0 {
        assert(0 * row_bytes == 0) by (nonlinear_arith);
    } else {
        let init = rows.drop_last();
        assert forall|j: int| 0 <= j < init.len() implies (#[trigger] init[j] + 1) * row_bytes
            <= bytes.len() by {
            assert(init[j] == rows[j]);
            assert((rows[j] + 1) * row_bytes <= bytes.len());
        }
        lemma_rows_bytes_len(bytes, row_bytes, init);
        let last = rows.last() as int;
        assert((rows[rows.len() - 1] + 1) * row_bytes <= bytes.len());
        assert((last + 1) * row_bytes == last * row_bytes + row_bytes) by (nonlinear_arith);
        assert(0 <= last * row_bytes) by (nonlinear_arith)
            requires
                0 <= last,
        ;
        assert(rows.len() * row_bytes == init.len() * row_bytes + row_bytes) by (nonlinear_arith)
            requires
                rows.len() == init.len() + 1,
        ;
    }
}

/// A byte of gathered rows.
proof fn lemma_rows_bytes(bytes: Seq<u8>, row_bytes: nat, rows: Seq<u64>, i: int, k: int)
    requires
        forall|j: int|
            0 <= j < rows.len() ==> (#[trigger] rows[j] + 1) * row_bytes <= bytes.len(),
        0 <= i < rows.len(),
        0 <= k < row_bytes,
    ensures
        rows_bytes(bytes, row_bytes, rows).len() == rows.len() * row_bytes,
        rows_bytes(bytes, row_bytes, rows)[i * row_bytes + k] == bytes[rows[i] * row_bytes + k],
    decreases rows.len(),
{
    let init = rows.drop_last();
    assert forall|j: int| 0 <= j < init.len() implies (#[trigger] init[j] + 1) * row_bytes
        <= bytes.len() by {
        assert(init[j] == rows[j]);
        assert((rows[j] + 1) * row_bytes <= bytes.len());
    }
    lemma_rows_bytes_len(bytes, row_bytes, rows);
    lemma_rows_bytes_len(bytes, row_bytes, init);
    let n = init.len() as int;
    let last = rows.last() as int;
    assert((rows[rows.len() - 1] + 1) * row_bytes <= bytes.len());
    assert((last + 1) * row_bytes == last * row_bytes + row_bytes) by (nonlinear_arith);
    assert(0 <= last * row_bytes && 0 <= i * row_bytes) by (nonlinear_arith)
        requires
            0 <= last,
            0 <= i,
    ;
    if i < n {
        lemma_rows_bytes(bytes, row_bytes, init, i, k);
        lemma_mul_inequality(i + 1, n, row_bytes as int);
        assert((i + 1) * row_bytes == i * row_bytes + row_bytes) by (nonlinear_arith);
        assert(rows[i] == init[i]);
    } else {
        assert(i == n);
    }
}

/// A gather from a file reads what a gather from memory copies: row `i` at the
/// place of that row behind the table's start.
pub proof fn a_read_is_at_its_row(t: PleTable, rows: Seq<u64>, g: Gathered, i: int)
    requires
        t.gathers(rows, g),
        0 <= i < rows.len(),
    ensures
        match (t.source, g) {
            (TableSource::File { slot, start }, Gathered::Reads { slot: s, offsets }) => s == slot
                && offsets@.len() == rows.len() && offsets@[i] == start + rows[i] * t.row_bytes,
            (TableSource::Memory(b), Gathered::Bytes(out)) => out@ == rows_bytes(
                b@,
                t.row_bytes as nat,
                rows,
            ),
            _ => false,
        },
{
}

/// A gather is refused exactly when it was not given a place for every value,
/// or some row is not below the bound.
pub proof fn a_gather_stays_below_the_bound(t: PleTable, rows: Seq<u64>, outputs: nat)
    ensures
        t.gather_refusal(rows, outputs) is None <==> outputs == rows.len() * t.row_width && forall|
            i: int,
        |
            0 <= i < rows.len() ==> #[trigger] rows[i] < t.row_bound,
{
    lemma_first_past(rows, t.row_bound, 0);
}

/// The first row past a bound.
proof fn lemma_first_past(rows: Seq<u64>, bound: u64, from: int)
    requires
        0 <= from,
    ensures
        first_past(rows, bound, from) is None <==> forall|i: int|
            from <= i < rows.len() ==> #[trigger] rows[i] < bound,
    decreases rows.len() - from,
{
    if from < rows.len() {
        lemma_first_past(rows, bound, from + 1);
    }
}

/// The bank of a kind has the kind's own name in its block, the name that the
/// loader leaves to be served.
pub proof fn a_bank_has_its_blocks_name(kind: BankKind, layer: nat)
    ensures
        kind.name_of(layer) == block_name(
            layer,
            match kind {
                BankKind::Gate => "ffn_gate_exps.weight"@,
                BankKind::Up => "ffn_up_exps.weight"@,
                BankKind::Down => "ffn_down_exps.weight"@,
            },
        ),
{
    reveal_strlit(".ffn_");
    reveal_strlit(".");
    reveal_strlit("gate");
    reveal_strlit("up");
    reveal_strlit("down");
    reveal_strlit("_exps.weight");
    reveal_strlit("ffn_gate_exps.weight");
    reveal_strlit("ffn_up_exps.weight");
    reveal_strlit("ffn_down_exps.weight");
    assert(kind.name_of(layer) =~= block_name(
        layer,
        match kind {
            BankKind::Gate => "ffn_gate_exps.weight"@,
            BankKind::Up => "ffn_up_exps.weight"@,
            BankKind::Down => "ffn_down_exps.weight"@,
        },
    ));
}

/// A bank is opened where its tensor lies: at the place of the tensor of its
/// name, with the tensor's storage type and dimensions.
pub proof fn a_bank_is_opened_where_it_lies(
    shards: Seq<PayloadShard>,
    f: GgufFile,
    layer: nat,
    kind: BankKind,
)
    requires
        bank_place(shards, f, layer, kind) is Ok,
    ensures
        exists|i: int|
            {
                let at = bank_place(shards, f, layer, kind)->Ok_0;
                let t = #[trigger] f.tensors@[i];
                &&& 0 <= i < f.tensors@.len()
                &&& t.name@ == kind.name_of(layer)
                &&& t.dims@.len() == 3
                &&& at.dtype == t.dtype
                &&& at.ne[0] == clipped(t.dims@[0])
                &&& at.ne[1] == clipped(t.dims@[1])
                &&& at.ne[2] == clipped(t.dims@[2])
                &&& location(shards, f, i as nat) == Ok::<_, Seq<char>>((at.slot, at.offset))
            },
{
    let name = kind.name_of(layer);
    tensor_from_is_a_hit(f.tensors@, name, 0);
    let i = f.index_of(name)->0;
    lemma_owner(shards, i, 0);
    assert(f.tensors@[i].name@ == name);
}

/// Every bank from `from` on has the wanted dimensions.
proof fn lemma_misshapen(shapes: Seq<[usize; 3]>, from: int)
    requires
        0 <= from,
    ensures
        first_misshapen(shapes, from) is None <==> forall|j: int|
            from <= j < shapes.len() ==> #[trigger] shapes[j] == shape_wanted(shapes[0], j),
    decreases shapes.len() - from,
{
    if from < shapes.len() {
        lemma_misshapen(shapes, from + 1);
    }
}

/// Layers make a store exactly when all of them have the same banks: gate and
/// up from the hidden width to the expert's, down back again, of as many
/// experts, which a 32-bit id can name.
pub proof fn a_store_has_the_same_banks_everywhere(layers: Seq<LayerExperts>)
    requires
        layers.len() > 0,
    ensures
        shapes_refusal(shapes_of(layers)) is None <==> {
            let (hidden, ffn, experts) = (
                layers[0].gate.in_dim,
                layers[0].gate.out_dim,
                layers[0].gate.n_experts,
            );
            &&& experts <= u32::MAX
            &&& forall|l: int|
                0 <= l < layers.len() ==> {
                    let x = #[trigger] layers[l];
                    &&& x.gate.in_dim == hidden && x.gate.out_dim == ffn && x.gate.n_experts
                        == experts
                    &&& x.up.in_dim == hidden && x.up.out_dim == ffn && x.up.n_experts == experts
                    &&& x.down.in_dim == ffn && x.down.out_dim == hidden && x.down.n_experts
                        == experts
                }
        },
{
    let s = shapes_of(layers);
    let first = layers[0].gate.shape();
    lemma_misshapen(s, 0);
    assert(s[0] == first);
    assert(first[0] == layers[0].gate.in_dim && first[1] == layers[0].gate.out_dim && first[2]
        == layers[0].gate.n_experts);
    if shapes_refusal(s) is None {
        assert forall|l: int| 0 <= l < layers.len() implies {
            let x = #[trigger] layers[l];
            &&& x.gate.in_dim == first[0] && x.gate.out_dim == first[1] && x.gate.n_experts
                == first[2]
            &&& x.up.in_dim == first[0] && x.up.out_dim == first[1] && x.up.n_experts == first[2]
            &&& x.down.in_dim == first[1] && x.down.out_dim == first[0] && x.down.n_experts
                == first[2]
        } by {
            let x = layers[l];
            assert(s[3 * l] == shape_wanted(s[0], 3 * l));
            assert(s[3 * l + 1] == shape_wanted(s[0], 3 * l + 1));
            assert(s[3 * l + 2] == shape_wanted(s[0], 3 * l + 2));
            assert(s[3 * l] == x.gate.shape());
            assert(s[3 * l + 1] == x.up.shape());
            assert(s[3 * l + 2] == x.down.shape());
            lemma_triple(x.gate, first);
            lemma_triple(x.up, first);
            lemma_triple(x.down, [first[1], first[0], first[2]]);
        }
    }
    if first[2] <= u32::MAX && (forall|l: int|
        0 <= l < layers.len() ==> {
            let x = #[trigger] layers[l];
            &&& x.gate.in_dim == first[0] && x.gate.out_dim == first[1] && x.gate.n_experts
                == first[2]
            &&& x.up.in_dim == first[0] && x.up.out_dim == first[1] && x.up.n_experts == first[2]
            &&& x.down.in_dim == first[1] && x.down.out_dim == first[0] && x.down.n_experts
                == first[2]
        }) {
        assert forall|j: int| 0 <= j < s.len() implies #[trigger] s[j] == shape_wanted(s[0], j) by {
            let x = layers[j / 3];
            lemma_triple(x.gate, first);
            lemma_triple(x.up, first);
            lemma_triple(x.down, [first[1], first[0], first[2]]);
        }
    }
}

/// A bank's dimensions are these exactly when each of them is.
proof fn lemma_triple(b: ExpertBank, ne: [usize; 3])
    ensures
        b.shape() == ne <==> b.in_dim == ne[0] && b.out_dim == ne[1] && b.n_experts == ne[2],
{
    let s = b.shape();
    assert(s[0] == b.in_dim && s[1] == b.out_dim && s[2] == b.n_experts);
    if b.in_dim == ne[0] && b.out_dim == ne[1] && b.n_experts == ne[2] {
        assert(s@ =~= ne@);
        assert(s =~= ne);
    }
}

/// An expert's output row is where the bank has it: behind the rows of the
/// experts before it and its own rows before it.
pub proof fn an_experts_row_is_in_the_bank(b: ExpertBank, e: int, o: int)
    requires
        b.wf(),
        0 <= e < b.n_experts,
        0 <= o < b.out_dim,
    ensures
        e * b.expert_len() + o * b.row_bytes == (e * b.out_dim + o) * b.row_bytes,
        o * b.row_bytes + b.row_bytes <= b.expert_len(),
        e * b.expert_len() + b.expert_len() <= b.n_experts * b.out_dim * b.row_bytes,
{
    let (n, out, rb) = (b.n_experts as int, b.out_dim as int, b.row_bytes as int);
    assert(e * (out * rb) + o * rb == (e * out + o) * rb) by (nonlinear_arith);
    assert(o * rb + rb <= out * rb) by (nonlinear_arith)
        requires
            0 <= o < out,
            0 <= rb,
    ;
    assert(e * (out * rb) + out * rb <= n * out * rb) by (nonlinear_arith)
        requires
            0 <= e < n,
            0 <= out,
            0 <= rb,
    ;
}

/// A token's experts are its most probable ones: no expert that was not chosen
/// has a larger probability than one that was, the chosen ones come in
/// descending order, and among equals the lower number comes first and wins.
pub proof fn the_most_probable_experts_are_chosen(
    probs: Seq<u32>,
    ids: Seq<u32>,
    k: nat,
    chosen: int,
    other: int,
)
    requires
        is_top(probs, ids, k),
        probs.len() <= u32::MAX,
        0 <= chosen < k,
        0 <= other < probs.len(),
    ensures
        !ids.contains(other as u32) ==> probs[ids[chosen] as int] > probs[other] || (
        probs[ids[chosen] as int] == probs[other] && ids[chosen] < other),
        forall|later: int|
            chosen < later < k ==> probs[ids[chosen] as int] > probs[(#[trigger] ids[later]) as int]
                || (probs[ids[chosen] as int] == probs[ids[later] as int] && ids[chosen]
                < ids[later]),
{
    if !ids.contains(other as u32) {
        assert(crate::routing::ranks_before(probs, ids[chosen] as int, other));
    }
}

/// A group is an expert with all the places routed to it and no others.
proof fn lemma_group(ids: Seq<u32>, from: nat, n_experts: nat, g: int)
    requires
        0 <= g < groups_from(ids, from, n_experts).len(),
        n_experts <= u32::MAX,
    ensures
        ({
            let group = groups_from(ids, from, n_experts)[g];
            &&& from <= group.0 < n_experts
            &&& group.1 == places_of(ids, group.0, ids.len())
            &&& group.1.len() > 0
        }),
    decreases n_experts - from,
{
    if from < n_experts {
        let rest = groups_from(ids, from + 1, n_experts);
        let mine = places_of(ids, from as u32, ids.len());
        let all = groups_from(ids, from, n_experts);
        if mine.len() == 0 {
            lemma_group(ids, from + 1, n_experts, g);
        } else if g > 0 {
            assert(all[g] == rest[g - 1]);
            lemma_group(ids, from + 1, n_experts, g - 1);
        }
    }
}

/// The jobs of a layer come in the order of their experts.
pub proof fn jobs_come_by_expert(ids: Seq<u32>, n_experts: nat, g: int, h: int)
    requires
        n_experts <= u32::MAX,
        0 <= g < h < groups_from(ids, 0, n_experts).len(),
    ensures
        groups_from(ids, 0, n_experts)[g].0 < groups_from(ids, 0, n_experts)[h].0,
{
    lemma_groups_ascend(ids, 0, n_experts, g, h);
}

/// The same from `from` on.
proof fn lemma_groups_ascend(ids: Seq<u32>, from: nat, n_experts: nat, g: int, h: int)
    requires
        n_experts <= u32::MAX,
        0 <= g < h < groups_from(ids, from, n_experts).len(),
    ensures
        groups_from(ids, from, n_experts)[g].0 < groups_from(ids, from, n_experts)[h].0,
    decreases n_experts - from,
{
    if from < n_experts {
        let rest = groups_from(ids, from + 1, n_experts);
        let mine = places_of(ids, from as u32, ids.len());
        let all = groups_from(ids, from, n_experts);
        if mine.len() == 0 {
            lemma_groups_ascend(ids, from + 1, n_experts, g, h);
        } else {
            assert(all[h] == rest[h - 1]);
            if g == 0 {
                lemma_group(ids, from + 1, n_experts, h - 1);
            } else {
                assert(all[g] == rest[g - 1]);
                lemma_groups_ascend(ids, from + 1, n_experts, g - 1, h - 1);
            }
        }
    }
}

/// A row of gathered rows.
proof fn lemma_gathered(xs: Seq<u32>, width: nat, rows: Seq<usize>, i: int, c: int)
    requires
        forall|j: int|
            0 <= j < rows.len() ==> (#[trigger] rows[j] + 1) * width <= xs.len(),
        0 <= i < rows.len(),
        0 <= c < width,
    ensures
        gathered(xs, width, rows).len() == rows.len() * width,
        gathered(xs, width, rows)[i * width + c] == xs[rows[i] * width + c],
    decreases rows.len(),
{
    let init = rows.drop_last();
    assert forall|j: int| 0 <= j < init.len() implies (#[trigger] init[j] + 1) * width
        <= xs.len() by {
        assert(init[j] == rows[j]);
        assert((rows[j] + 1) * width <= xs.len());
    }
    lemma_gathered_len(xs, width, rows);
    lemma_gathered_len(xs, width, init);
    let n = init.len() as int;
    let last = rows.last() as int;
    assert((rows[rows.len() - 1] + 1) * width <= xs.len());
    assert((last + 1) * width == last * width + width) by (nonlinear_arith);
    assert(0 <= last * width && 0 <= i * width) by (nonlinear_arith)
        requires
            0 <= last,
            0 <= i,
    ;
    if i < n {
        lemma_gathered(xs, width, init, i, c);
        lemma_mul_inequality(i + 1, n, width as int);
        assert((i + 1) * width == i * width + width) by (nonlinear_arith);
        assert(rows[i] == init[i]);
    } else {
        assert(i == n);
    }
}

/// The length of gathered rows.
proof fn lemma_gathered_len(xs: Seq<u32>, width: nat, rows: Seq<usize>)
    requires
        forall|j: int|
            0 <= j < rows.len() ==> (#[trigger] rows[j] + 1) * width <= xs.len(),
    ensures
        gathered(xs, width, rows).len() == rows.len() * width,
    decreases rows.len(),
{
    if rows.len() == 0 {
        assert(0 * width == 0) by (nonlinear_arith);
    } else {
        let init = rows.drop_last();
        assert forall|j: int| 0 <= j < init.len() implies (#[trigger] init[j] + 1) * width
            <= xs.len() by {
            assert(init[j] == rows[j]);
            assert((rows[j] + 1) * width <= xs.len());
        }
        lemma_gathered_len(xs, width, init);
        let last = rows.last() as int;
        assert((rows[rows.len() - 1] + 1) * width <= xs.len());
        assert((last + 1) * width == last * width + width) by (nonlinear_arith);
        assert(0 <= last * width) by (nonlinear_arith)
            requires
                0 <= last,
        ;
        assert(rows.len() * width == init.len() * width + width) by (nonlinear_arith)
            requires
                rows.len() == init.len() + 1,
        ;
    }
}

/// Gathering rows takes the rows that were asked for, in the order in which
/// they were: value `c` of the `i`-th is value `c` of the source's row.
pub proof fn gathering_takes_the_rows_asked_for(
    xs: Seq<u32>,
    width: nat,
    rows: Seq<usize>,
    i: int,
    c: int,
)
    requires
        forall|j: int|
            0 <= j < rows.len() ==> (#[trigger] rows[j] + 1) * width <= xs.len(),
        0 <= i < rows.len(),
        0 <= c < width,
    ensures
        gathered(xs, width, rows).len() == rows.len() * width,
        gathered(xs, width, rows)[i * width + c] == xs[rows[i] * width + c],
{
    lemma_gathered(xs, width, rows, i, c);
}

/// What a job serves: tokens that chose its expert, each with the weight that
/// the token gave the expert, and the tokens' own input rows.
pub proof fn a_job_serves_the_tokens_that_chose_its_expert(
    job: ExpertJob,
    routing: Routing,
    xs: Seq<u32>,
    hidden: nat,
    n_experts: nat,
    g: int,
    i: int,
    c: int,
)
    requires
        n_experts <= u32::MAX,
        routing.k > 0,
        routing.ids@.len() == routing.n * routing.k,
        xs.len() == routing.n * hidden,
        0 <= g < groups_from(routing.ids@, 0, n_experts).len(),
        serves(job, groups_from(routing.ids@, 0, n_experts)[g], routing, xs, hidden),
        0 <= i < job.tokens@.len(),
        0 <= c < hidden,
    ensures
        exists|slot: int|
            0 <= slot < routing.k && #[trigger] routing.ids@[job.tokens@[i] * routing.k + slot]
                == job.expert && routing.weights@[job.tokens@[i] * routing.k + slot]
                == job.weights@[i],
        job.tokens@[i] < routing.n,
        job.input@[i * hidden + c] == xs[job.tokens@[i] * hidden + c],
{
    let k = routing.k as int;
    let ids = routing.ids@;
    lemma_group(ids, 0, n_experts, g);
    let group = groups_from(ids, 0, n_experts)[g];
    places_are_the_routed_ones(ids, group.0, ids.len());
    assert forall|j: int| 0 <= j < job.tokens@.len() implies (#[trigger] job.tokens@[j] + 1) * hidden
        <= xs.len() && job.tokens@[j] < routing.n by {
        let p = group.1[j];
        assert(group.1.contains(p));
        lemma_fundamental_div_mod(p, k);
        lemma_mod_bound(p, k);
        let t = p / k;
        assert(t < routing.n) by (nonlinear_arith)
            requires
                0 <= p < routing.n * k,
                p == k * t + p % k,
                0 <= p % k < k,
        ;
        assert(job.tokens@[j] == t);
        lemma_mul_inequality(t + 1, routing.n as int, hidden as int);
    }
    let p = group.1[i];
    assert(group.1.contains(p));
    lemma_fundamental_div_mod(p, k);
    lemma_mod_bound(p, k);
    let t = job.tokens@[i] as int;
    assert(t == p / k);
    let slot = p % k;
    assert(k * t == t * k) by (nonlinear_arith);
    assert(ids[t * k + slot] == job.expert);
    assert(routing.weights@[p] == job.weights@[i]);
    assert((job.tokens@[i] + 1) * hidden <= xs.len());
    lemma_gathered(xs, hidden, job.tokens@, i, c);
}

} // verus!
