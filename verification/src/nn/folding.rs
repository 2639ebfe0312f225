//! What a Hadamard contract says of the file that declares it, which signs a
//! width has, and where the grouped heads stand.

use crate::gguf::{GgufFile, GgufValue};
use crate::models::qwen4exp::header::{carries_number, is_number};
use crate::nn::hadamard::{
    declared, declared_names, declared_signs, declares, first_clash, first_repeat, first_unsigned,
    grouped, grouped_flag, has_width, int_of, ints_of, is_key, key_of, odd_overlap, power_of_two,
    sign, sign_table, signs_from, str_of, strs_of, tiled_place, uint_of, ContractModel,
    HadamardSpec, SignModel,
};
use crate::text::occurs_at;
use vstd::arithmetic::div_mod::lemma_fundamental_div_mod_converse;
use vstd::prelude::*;

verus! {

/// Does the header carry this text under the key?
pub open spec fn carries_text(f: GgufFile, key: Seq<char>, text: Seq<char>) -> bool {
    f.value(key) matches Some(GgufValue::Str(s)) && s@ == text
}

/// Does the header carry these texts under the key, in order?
pub open spec fn carries_texts(f: GgufFile, key: Seq<char>, list: Seq<Seq<char>>) -> bool {
    f.value(key) matches Some(GgufValue::Array(v)) && v@.len() == list.len() && forall|i: int|
        0 <= i < list.len() ==> (#[trigger] v@[i] matches GgufValue::Str(s) && s@ == list[i])
}

/// Does the header carry these signed integers under the key, in order?
pub open spec fn carries_integers(f: GgufFile, key: Seq<char>, list: Seq<i64>) -> bool {
    f.value(key) matches Some(GgufValue::Array(v)) && v@.len() == list.len() && forall|i: int|
        0 <= i < list.len() ==> is_number(#[trigger] v@[i], list[i] as int)
}

/// A file declares a contract exactly when one of its keys starts with the
/// contract's prefix.
pub proof fn a_contract_is_declared_by_a_key(f: GgufFile)
    ensures
        declares(f) <==> exists|i: int|
            0 <= i < f.metadata@.len() && "prism.hadamard."@.is_prefix_of(
                (#[trigger] f.metadata@[i]).0@,
            ),
        !declares(f) ==> declared(f) == Ok::<Option<ContractModel>, Seq<char>>(None),
        declares(f) ==> declared(f) != Ok::<Option<ContractModel>, Seq<char>>(None),
{
    let prefix = "prism.hadamard."@;
    assert forall|i: int| 0 <= i < f.metadata@.len() implies #[trigger] is_key(f.metadata@[i])
        == prefix.is_prefix_of(f.metadata@[i].0@) by {
        let k = f.metadata@[i].0@;
        if prefix.is_prefix_of(k) {
            assert(k.subrange(0, prefix.len() as int) == prefix);
        }
        if occurs_at(k, prefix, 0) {
            assert(k.subrange(0, prefix.len() as int) == prefix);
        }
    }
    if declares(f) {
        let i = choose|i: int| 0 <= i < f.metadata@.len() && is_key(#[trigger] f.metadata@[i]);
        assert(prefix.is_prefix_of(f.metadata@[i].0@));
    }
    if exists|i: int|
        0 <= i < f.metadata@.len() && prefix.is_prefix_of((#[trigger] f.metadata@[i]).0@) {
        let i = choose|i: int|
            0 <= i < f.metadata@.len() && prefix.is_prefix_of((#[trigger] f.metadata@[i]).0@);
        assert(is_key(f.metadata@[i]));
    }
}

/// A contract is read under its own keys: the version is the first, the block
/// a power of two, the transform and the axis those that are implemented.
pub proof fn a_contract_is_what_its_keys_say(f: GgufFile, c: ContractModel)
    requires
        declared(f) == Ok::<Option<ContractModel>, Seq<char>>(Some(c)),
    ensures
        carries_number(f, "prism.hadamard."@ + "version"@, 1),
        carries_number(f, "prism.hadamard."@ + "block_size"@, c.block as int),
        carries_text(f, "prism.hadamard."@ + "transform"@, "normalized-sylvester-walsh-hadamard"@),
        carries_text(f, "prism.hadamard."@ + "axis"@, "input-last-dimension"@),
        carries_texts(f, "prism.hadamard."@ + "weight_names"@, c.weights),
        f.value("prism.hadamard."@ + "inverse_weight_names"@) is None ==> c.inverses.len() == 0,
        f.value("prism.hadamard."@ + "inverse_weight_names"@) is Some ==> carries_texts(
            f,
            "prism.hadamard."@ + "inverse_weight_names"@,
            c.inverses,
        ),
        power_of_two(c.block as nat),
{
    assert(uint_of(f, "version"@) == Ok::<u64, Seq<char>>(1));
    assert(uint_of(f, "block_size"@) == Ok::<u64, Seq<char>>(c.block as u64));
    assert(declared_names(f) == Ok::<_, Seq<char>>((c.weights, c.inverses)));
    lemma_texts(f, "weight_names"@, true, c.weights);
    lemma_texts(f, "inverse_weight_names"@, false, c.inverses);
}

/// A list of texts is what stands under its key, or nothing where it may.
proof fn lemma_texts(f: GgufFile, k: Seq<char>, required: bool, list: Seq<Seq<char>>)
    requires
        strs_of(f, k, required) == Ok::<Seq<Seq<char>>, Seq<char>>(list),
    ensures
        f.value("prism.hadamard."@ + k) is Some ==> carries_texts(f, "prism.hadamard."@ + k, list),
        f.value("prism.hadamard."@ + k) is None ==> !required && list.len() == 0,
{
    if let Some(GgufValue::Array(v)) = f.value(key_of(k)) {
        assert forall|i: int| 0 <= i < list.len() implies (#[trigger] v@[i] matches GgufValue::Str(s)
            && s@ == list[i]) by {
            assert(v@[i].text() is Some);
        }
    }
}

/// No weight is named twice, neither folded twice nor both folded and
/// inverted, and at least one is folded.
pub proof fn a_weight_is_named_once(f: GgufFile, c: ContractModel)
    requires
        declared(f) == Ok::<Option<ContractModel>, Seq<char>>(Some(c)),
    ensures
        c.weights.len() > 0,
        forall|i: int, j: int|
            0 <= i < j < c.weights.len() ==> #[trigger] c.weights[i] != #[trigger] c.weights[j],
        forall|i: int, j: int|
            0 <= i < j < c.inverses.len() ==> #[trigger] c.inverses[i] != #[trigger] c.inverses[j],
        forall|i: int, j: int|
            0 <= i < c.weights.len() && 0 <= j < c.inverses.len() ==> #[trigger] c.weights[i]
                != #[trigger] c.inverses[j],
{
    assert(declared_names(f) == Ok::<_, Seq<char>>((c.weights, c.inverses)));
    let (w, v) = (c.weights, c.inverses);
    lemma_no_repeat(w, 0);
    lemma_no_clash(w, v, 0);
    assert forall|i: int, j: int| 0 <= i < j < w.len() implies #[trigger] w[i] != #[trigger] w[j] by {
        assert(w.take(j)[i] == w[i]);
        assert(!w.take(j).contains(w[j]));
    }
    assert forall|i: int, j: int| 0 <= i < j < v.len() implies #[trigger] v[i] != #[trigger] v[j] by {
        assert(v.take(j)[i] == v[i]);
        assert(!v.take(j).contains(v[j]));
    }
    assert forall|i: int, j: int|
        0 <= i < w.len() && 0 <= j < v.len() implies #[trigger] w[i] != #[trigger] v[j] by {
        assert(!v.take(j).contains(v[j]));
        assert(!w.contains(v[j]));
    }
}

/// No name stands among those before it.
proof fn lemma_no_repeat(v: Seq<Seq<char>>, i: int)
    requires
        0 <= i,
        first_repeat(v, i) is None,
    ensures
        forall|j: int| i <= j < v.len() ==> !(#[trigger] v.take(j)).contains(v[j]),
    decreases v.len() - i,
{
    if i < v.len() {
        lemma_no_repeat(v, i + 1);
    }
}

/// No name stands among the weights or among those before it.
proof fn lemma_no_clash(weights: Seq<Seq<char>>, v: Seq<Seq<char>>, i: int)
    requires
        0 <= i,
        first_clash(weights, v, i) is None,
    ensures
        forall|j: int|
            i <= j < v.len() ==> !(#[trigger] v.take(j)).contains(v[j]) && !weights.contains(v[j]),
    decreases v.len() - i,
{
    if i < v.len() {
        lemma_no_clash(weights, v, i + 1);
    }
}

/// The flag of grouped heads is the header's, false where there is none; any
/// number but zero sets it.
pub proof fn heads_are_grouped_where_the_header_says(f: GgufFile, c: ContractModel)
    requires
        declared(f) == Ok::<Option<ContractModel>, Seq<char>>(Some(c)),
    ensures
        f.value("prism.hadamard."@ + "gdn_v_grouped"@) is None ==> !c.gdn_v_grouped,
        f.value("prism.hadamard."@ + "gdn_v_grouped"@) matches Some(GgufValue::Bool(b))
            ==> c.gdn_v_grouped == b,
        forall|n: int| #[trigger]
            carries_number(f, "prism.hadamard."@ + "gdn_v_grouped"@, n) ==> (c.gdn_v_grouped
                <==> n != 0),
{
    assert(grouped_flag(f) == Ok::<bool, Seq<char>>(c.gdn_v_grouped));
}

/// In identity mode there are no signs; in explicit mode they are cut from the
/// header's values.
pub proof fn signs_are_the_headers(f: GgufFile, c: ContractModel)
    requires
        declared(f) == Ok::<Option<ContractModel>, Seq<char>>(Some(c)),
    ensures
        carries_text(f, "prism.hadamard."@ + "sign_mode"@, "identity"@) || carries_text(
            f,
            "prism.hadamard."@ + "sign_mode"@,
            "explicit"@,
        ),
        carries_text(f, "prism.hadamard."@ + "sign_mode"@, "identity"@) ==> c.signs.len() == 0,
        !carries_text(f, "prism.hadamard."@ + "sign_mode"@, "identity"@) ==> exists|
            widths: Seq<i64>,
            values: Seq<i64>,
        |
            carries_integers(f, "prism.hadamard."@ + "sign_widths"@, widths) && carries_integers(
                f,
                "prism.hadamard."@ + "sign_values"@,
                values,
            ) && #[trigger] sign_table(widths, values, c.block as nat) == Ok::<
                Seq<SignModel>,
                Seq<char>,
            >(c.signs),
{
    assert(declared_signs(f, c.block as nat) == Ok::<Seq<SignModel>, Seq<char>>(c.signs));
    if !carries_text(f, "prism.hadamard."@ + "sign_mode"@, "identity"@) {
        assert(str_of(f, "sign_mode"@) == Ok::<Seq<char>, Seq<char>>("explicit"@));
        let widths = ints_of(f, "sign_widths"@)->Ok_0;
        let values = ints_of(f, "sign_values"@)->Ok_0;
        lemma_integers(f, "sign_widths"@, widths);
        lemma_integers(f, "sign_values"@, values);
        assert(sign_table(widths, values, c.block as nat) == Ok::<Seq<SignModel>, Seq<char>>(
            c.signs,
        ));
    }
}

/// A list of integers is what stands under its key.
proof fn lemma_integers(f: GgufFile, k: Seq<char>, list: Seq<i64>)
    requires
        ints_of(f, k) == Ok::<Seq<i64>, Seq<char>>(list),
    ensures
        carries_integers(f, "prism.hadamard."@ + k, list),
{
    if let Some(GgufValue::Array(v)) = f.value(key_of(k)) {
        assert forall|i: int| 0 <= i < list.len() implies is_number(
            #[trigger] v@[i],
            list[i] as int,
        ) by {
            assert(int_of(v@[i]) is Some);
        }
    }
}

/// Where the signs of the `i`-th width start: behind those of the widths before
/// it.
pub open spec fn signs_start(widths: Seq<i64>, i: nat) -> int
    decreases i,
{
    if i == 0 {
        0
    } else {
        signs_start(widths, (i - 1) as nat) + widths[i - 1]
    }
}

/// All values up to here are signs.
proof fn lemma_all_signs(values: Seq<i64>, at: int, end: int)
    requires
        0 <= at,
        end <= values.len(),
        first_unsigned(values, at, end) is None,
    ensures
        forall|j: int| at <= j < end ==> #[trigger] values[j] == 1 || values[j] == -1,
    decreases end - at,
{
    if at < end {
        lemma_all_signs(values, at + 1, end);
    }
}

/// Is this the row of the `a`-th width?
pub open spec fn is_row(
    widths: Seq<i64>,
    values: Seq<i64>,
    block: nat,
    a: int,
    row: SignModel,
) -> bool {
    &&& row.width == widths[a]
    &&& widths[a] > 0
    &&& widths[a] as int % block as int == 0
    &&& row.signs.len() == widths[a]
    &&& forall|k: int|
        0 <= k < widths[a] ==> #[trigger] row.signs[k] == values[signs_start(widths, a as nat) + k]
            && (row.signs[k] == 1 || row.signs[k] == -1)
}

/// The rows that a table grows by.
proof fn lemma_signs(
    widths: Seq<i64>,
    values: Seq<i64>,
    block: nat,
    i: int,
    got: Seq<SignModel>,
    rows: Seq<SignModel>,
)
    requires
        block > 0,
        0 <= i <= widths.len(),
        signs_start(widths, i as nat) >= 0,
        signs_from(widths, values, block, i, signs_start(widths, i as nat), got) == Ok::<
            Seq<SignModel>,
            Seq<char>,
        >(rows),
        got.len() == i,
        forall|a: int, b: int|
            0 <= a < b < i ==> (#[trigger] got[a]).width != (#[trigger] got[b]).width,
    ensures
        rows.len() == widths.len(),
        signs_start(widths, widths.len()) == values.len(),
        forall|a: int| 0 <= a < i ==> #[trigger] rows[a] == got[a],
        forall|a: int|
            i <= a < widths.len() ==> is_row(widths, values, block, a, #[trigger] rows[a]),
        forall|a: int, b: int|
            0 <= a < b < rows.len() ==> (#[trigger] rows[a]).width != (#[trigger] rows[b]).width,
    decreases widths.len() - i,
{
    if i < widths.len() {
        let off = signs_start(widths, i as nat);
        let w = widths[i];
        let row = SignModel {
            width: w as usize,
            signs: Seq::new(w as nat, |k: int| values[off + k] as i8),
        };
        let more = got.push(row);
        assert(first_unsigned(values, off, off + w) is None);
        lemma_all_signs(values, off, off + w);
        assert(signs_start(widths, (i + 1) as nat) == off + w);
        assert forall|a: int, b: int| 0 <= a < b < i + 1 implies (#[trigger] more[a]).width != (
        #[trigger] more[b]).width by {
            if b == i {
                assert(more[a] == got[a]);
                assert(!has_width(got, w as usize));
            }
        }
        lemma_signs(widths, values, block, i + 1, more, rows);
        assert(rows[i] == more[i]);
        assert forall|k: int| 0 <= k < w implies #[trigger] rows[i].signs[k] == values[off + k] && (
        rows[i].signs[k] == 1 || rows[i].signs[k] == -1) by {
            assert(values[off + k] == 1 || values[off + k] == -1);
        }
        assert(is_row(widths, values, block, i, rows[i]));
        assert forall|a: int| 0 <= a < i implies #[trigger] rows[a] == got[a] by {
            assert(rows[a] == more[a]);
        }
    }
}

/// A table has one row for each width, in order, of as many signs, cut from
/// the values one row after another until none is left; every sign is one or
/// minus one, every width whole blocks, and no width occurs twice.
pub proof fn each_width_has_its_own_signs(
    widths: Seq<i64>,
    values: Seq<i64>,
    block: nat,
    rows: Seq<SignModel>,
)
    requires
        block > 0,
        sign_table(widths, values, block) == Ok::<Seq<SignModel>, Seq<char>>(rows),
    ensures
        rows.len() == widths.len(),
        widths.len() > 0,
        signs_start(widths, widths.len()) == values.len(),
        forall|a: int|
            0 <= a < rows.len() ==> is_row(widths, values, block, a, #[trigger] rows[a]),
        forall|a: int, b: int|
            0 <= a < b < rows.len() ==> (#[trigger] rows[a]).width != (#[trigger] rows[b]).width,
{
    lemma_signs(widths, values, block, 0, Seq::empty(), rows);
}

/// A width is transformed exactly when it is whole blocks and, where signs are
/// declared, one row of them is as long as it.
pub proof fn a_width_is_transformed_in_whole_blocks(s: HadamardSpec, width: usize)
    ensures
        s.forward_refusal(width as nat) is None <==> width as int % s.block as int == 0 && (
        s@.signs.len() == 0 || exists|i: int|
            0 <= i < s@.signs.len() && (#[trigger] s@.signs[i]).width == width),
{
}

/// A power of two is one doubled some number of times.
pub proof fn a_power_of_two_is_one_doubled(n: nat)
    ensures
        power_of_two(1),
        n > 0 ==> power_of_two(2 * n) == power_of_two(n),
        n % 2 == 1 && n != 1 ==> !power_of_two(n),
        !power_of_two(0),
{
    if n > 0 {
        assert((2 * n) / 2 == n && (2 * n) % 2 == 0);
    }
}

/// The matrix is four copies of the one half its size, interleaved, the one at
/// the odd rows and columns negated; the first is one.
pub proof fn the_matrix_is_built_from_its_half(i: nat, j: nat)
    ensures
        sign(0, 0) == 1,
        sign(2 * i, 2 * j) == sign(i, j),
        sign(2 * i + 1, 2 * j) == sign(i, j),
        sign(2 * i, 2 * j + 1) == sign(i, j),
        sign(2 * i + 1, 2 * j + 1) == -sign(i, j),
{
    assert((2 * i) / 2 == i && (2 * j) / 2 == j);
    assert((2 * i + 1) / 2 == i && (2 * j + 1) / 2 == j);
    assert((2 * i) % 2 == 0 && (2 * j) % 2 == 0 && (2 * i + 1) % 2 == 1 && (2 * j + 1) % 2 == 1);
    if i == 0 {
        assert(!odd_overlap(0, j));
    }
}

/// Value head `r` of key head `k` stands, tiled, behind the first heads of all
/// key heads and, grouped, behind the heads of the key heads before.
pub proof fn a_head_moves_to_its_group(
    x: Seq<u32>,
    n_k: int,
    rep: int,
    hd: int,
    k: int,
    r: int,
    d: int,
)
    requires
        x.len() == n_k * rep * hd,
        0 <= k < n_k,
        0 <= r < rep,
        0 <= d < hd,
    ensures
        grouped(x, n_k, rep, hd)[(k * rep + r) * hd + d] == x[(r * n_k + k) * hd + d],
{
    let head = k * rep + r;
    let p = head * hd + d;
    lemma_fundamental_div_mod_converse(p, hd, head, d);
    lemma_fundamental_div_mod_converse(head, rep, k, r);
    assert(0 <= head < n_k * rep) by (nonlinear_arith)
        requires
            head == k * rep + r,
            0 <= k < n_k,
            0 <= r < rep,
    ;
    assert(0 <= p < n_k * rep * hd) by (nonlinear_arith)
        requires
            p == head * hd + d,
            0 <= head < n_k * rep,
            0 <= d < hd,
    ;
    assert(tiled_place(p, n_k, rep, hd) == (r * n_k + k) * hd + d);
}

} // verus!
