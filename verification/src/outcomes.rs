//! What callers of the shared parts are given: headers and texts as they are
//! read, lists as they are ordered and routed, times as they are counted, and
//! models as they are named.

use crate::gguf::{
    dims_product, lookup_from, non_negative, non_negative_of, tensor_from, F32Bits, GgmlType,
    GgufFile, GgufTensorInfo, GgufValue,
};
use crate::models::qwen4exp::header::is_number;
use crate::models::qwen4exp::reading::{jobs_come_by_expert, the_most_probable_experts_are_chosen};
use crate::order::{sort_texts, text_lt, texts};
use crate::overlay::{boundaries, host_runs_pay_both_ways, order_key, LayerAction};
use crate::overlay::placement::one_host_run_costs_two_hops;
use crate::overlay::ring::{Claim, RingState, Taken};
use crate::pack::Precision;
use crate::prof::{
    children_ns, costs, folded, joined, last_cut, line_of, lines_upto, names, parent, record,
    recorded, scope, self_ns, slot, with_span, Cost, Profiler, ScopeGuard, ScopeStack,
};
use crate::progress::{advance, begin, evicted, Load, Phase, Progress, Snapshot};
use crate::quant::{QuantPolicy, Scheme};
use crate::registry::{
    catalog, catalog_entry, name_chars, path_under, safe_name, Architecture, Fetch, ModelSpec,
    WeightFormat,
};
use crate::routing::{
    gather_rows, group_by_expert, group_views, places, places_are_the_routed_ones, places_of, top_k,
    transpose, Group,
};
use crate::text::{
    char_lists, decimal, ends_with_text, first_char, is_white, lowercase, lowered, occurs_at,
    occurs_in, pieces, same_text, split_at, starts_with_text, trim, trimmed, trimmed_end,
    trimmed_start,
};
use vstd::arithmetic::div_mod::lemma_fundamental_div_mod_converse;
use vstd::prelude::*;

verus! {

// ---- headers ---------------------------------------------------------------

/// A key is looked up as it stands, and the first entry of that key counts.
pub proof fn a_key_gives_its_first_value(
    metadata: Seq<(String, GgufValue)>,
    key: Seq<char>,
    from: int,
)
    requires
        0 <= from,
    ensures
        lookup_from(metadata, key, from) matches Some(v) ==> exists|i: int|
            from <= i < metadata.len() && (#[trigger] metadata[i]).0@ == key && metadata[i].1 == v
                && forall|j: int| from <= j < i ==> (#[trigger] metadata[j]).0@ != key,
        lookup_from(metadata, key, from) is None ==> forall|j: int|
            from <= j < metadata.len() ==> (#[trigger] metadata[j]).0@ != key,
    decreases metadata.len() - from,
{
    if from < metadata.len() {
        if metadata[from].0@ == key {
            assert(metadata[from].1 == metadata[from].1);
        } else {
            a_key_gives_its_first_value(metadata, key, from + 1);
            if let Some(v) = lookup_from(metadata, key, from) {
                let i = choose|i: int|
                    from + 1 <= i < metadata.len() && (#[trigger] metadata[i]).0@ == key
                        && metadata[i].1 == v && forall|j: int|
                        from + 1 <= j < i ==> (#[trigger] metadata[j]).0@ != key;
                assert(metadata[i].0@ == key);
            }
        }
    }
}

/// What a header gives under a key: the value of the first entry of that key.
pub proof fn a_header_gives_what_it_carries(f: GgufFile, key: &str, r: Option<&GgufValue>)
    requires
        call_ensures(GgufFile::get, (&f, key), r),
    ensures
        r matches Some(v) ==> exists|i: int|
            0 <= i < f.metadata@.len() && (#[trigger] f.metadata@[i]).0@ == key@ && f.metadata@[i].1
                == *v && forall|j: int| 0 <= j < i ==> (#[trigger] f.metadata@[j]).0@ != key@,
        r is None ==> forall|j: int|
            0 <= j < f.metadata@.len() ==> (#[trigger] f.metadata@[j]).0@ != key@,
{
    a_key_gives_its_first_value(f.metadata@, key@, 0);
}

/// The first tensor of a name.
proof fn lemma_first_tensor(tensors: Seq<GgufTensorInfo>, name: Seq<char>, from: int)
    requires
        0 <= from,
    ensures
        tensor_from(tensors, name, from) matches Some(i) ==> from <= i < tensors.len()
            && tensors[i].name@ == name && forall|j: int|
            from <= j < i ==> (#[trigger] tensors[j]).name@ != name,
        tensor_from(tensors, name, from) is None ==> forall|j: int|
            from <= j < tensors.len() ==> (#[trigger] tensors[j]).name@ != name,
    decreases tensors.len() - from,
{
    if from < tensors.len() && tensors[from].name@ != name {
        lemma_first_tensor(tensors, name, from + 1);
    }
}

/// A tensor is found by its name, the first of that name.
pub proof fn a_tensor_is_found_by_its_name(f: GgufFile, name: &str, r: Option<usize>)
    requires
        call_ensures(GgufFile::tensor_index, (&f, name), r),
    ensures
        r matches Some(i) ==> i < f.tensors@.len() && f.tensors@[i as int].name@ == name@ && forall|
            j: int,
        |
            0 <= j < i ==> (#[trigger] f.tensors@[j]).name@ != name@,
        r is None ==> forall|j: int|
            0 <= j < f.tensors@.len() ==> (#[trigger] f.tensors@[j]).name@ != name@,
{
    lemma_first_tensor(f.tensors@, name@, 0);
}

/// A value is read as a number exactly when it is an integer that is not
/// negative, of whatever width.
pub proof fn a_number_is_read_as_it_stands(v: GgufValue, n: u64)
    ensures
        non_negative_of(v) == Some(n) <==> is_number(v, n as int),
{
}

/// A tensor has as many elements as the product of its dimensions, and takes
/// the bytes of its blocks.
pub proof fn a_tensor_takes_the_bytes_of_its_blocks(
    t: GgufTensorInfo,
    n: Option<u64>,
    bytes: Option<u64>,
    dims: Seq<u64>,
    d: u64,
)
    requires
        call_ensures(GgufTensorInfo::element_count, (&t,), n),
        call_ensures(GgufTensorInfo::byte_len, (&t,), bytes),
    ensures
        dims_product(Seq::<u64>::empty()) == 1,
        dims_product(dims.push(d)) == dims_product(dims) * (d as nat),
        n matches Some(k) ==> k == dims_product(t.dims@),
        bytes matches Some(b) ==> n is Some && b == n->0 as nat / t.dtype.block()
            * t.dtype.block_bytes(),
        bytes is None ==> n is None || n->0 as nat / t.dtype.block() * t.dtype.block_bytes()
            > u64::MAX,
{
    assert(dims.push(d).drop_last() =~= dims);
}

// ---- texts -----------------------------------------------------------------

/// Where a character first stands.
proof fn lemma_first_char(s: Seq<char>, c: char, from: int)
    requires
        0 <= from,
    ensures
        first_char(s, c, from) matches Some(i) ==> from <= i < s.len() && s[i] == c && forall|j: int|
            from <= j < i ==> #[trigger] s[j] != c,
        first_char(s, c, from) is None ==> forall|j: int|
            from <= j < s.len() ==> #[trigger] s[j] != c,
    decreases s.len() - from,
{
    if from < s.len() && s[from] != c {
        lemma_first_char(s, c, from + 1);
    }
}

/// The pieces put together again, the separator between them.
pub open spec fn rejoined(v: Seq<Seq<char>>, sep: char) -> Seq<char>
    decreases v.len(),
{
    if v.len() == 0 {
        Seq::empty()
    } else if v.len() == 1 {
        v[0]
    } else {
        v[0] + seq![sep] + rejoined(v.drop_first(), sep)
    }
}

/// A text is cut at every separator and nowhere else: put together again, the
/// pieces are the text, and none holds the separator.
pub proof fn a_text_is_cut_at_its_separators(s: Seq<char>, sep: char)
    ensures
        pieces(s, sep).len() >= 1,
        rejoined(pieces(s, sep), sep) == s,
        forall|k: int|
            0 <= k < pieces(s, sep).len() ==> !(#[trigger] pieces(s, sep)[k]).contains(sep),
    decreases s.len(),
{
    lemma_first_char(s, sep, 0);
    let p = pieces(s, sep);
    match first_char(s, sep, 0) {
        None => {
            assert(p =~= seq![s]);
        },
        Some(i) => {
            let rest = s.subrange(i + 1, s.len() as int);
            a_text_is_cut_at_its_separators(rest, sep);
            assert(p == seq![s.take(i)] + pieces(rest, sep));
            assert(p.drop_first() =~= pieces(rest, sep));
            assert(p[0] == s.take(i));
            assert(s.take(i) + seq![sep] + rest =~= s);
            assert forall|k: int| 0 <= k < p.len() implies !(#[trigger] p[k]).contains(sep) by {
                if k > 0 {
                    assert(p[k] == pieces(rest, sep)[k - 1]);
                }
            }
        },
    }
}

/// What trimming leaves at the front.
proof fn lemma_trimmed_start(s: Seq<char>)
    ensures
        trimmed_start(s).len() <= s.len(),
        trimmed_start(s) == s.skip(s.len() - trimmed_start(s).len()),
        trimmed_start(s).len() > 0 ==> !is_white(trimmed_start(s)[0]),
        forall|i: int| 0 <= i < s.len() - trimmed_start(s).len() ==> is_white(#[trigger] s[i]),
    decreases s.len(),
{
    if s.len() > 0 && is_white(s[0]) {
        let rest = s.subrange(1, s.len() as int);
        lemma_trimmed_start(rest);
        assert(rest.skip(rest.len() - trimmed_start(rest).len()) =~= s.skip(
            s.len() - trimmed_start(rest).len(),
        ));
        assert forall|i: int| 0 <= i < s.len() - trimmed_start(s).len() implies is_white(
            #[trigger] s[i],
        ) by {
            if i > 0 {
                assert(rest[i - 1] == s[i]);
            }
        }
    } else {
        assert(s.skip(0) =~= s);
    }
}

/// What trimming leaves at the end.
proof fn lemma_trimmed_end(s: Seq<char>)
    ensures
        trimmed_end(s).len() <= s.len(),
        trimmed_end(s) == s.take(trimmed_end(s).len() as int),
        trimmed_end(s).len() > 0 ==> !is_white(trimmed_end(s).last()),
        forall|i: int| trimmed_end(s).len() <= i < s.len() ==> is_white(#[trigger] s[i]),
    decreases s.len(),
{
    if s.len() > 0 && is_white(s.last()) {
        let rest = s.drop_last();
        lemma_trimmed_end(rest);
        assert(rest.take(trimmed_end(rest).len() as int) =~= s.take(
            trimmed_end(rest).len() as int,
        ));
        assert forall|i: int| trimmed_end(s).len() <= i < s.len() implies is_white(
            #[trigger] s[i],
        ) by {
            if i < s.len() - 1 {
                assert(rest[i] == s[i]);
            }
        }
    } else {
        assert(s.take(s.len() as int) =~= s);
    }
}

/// Trimming takes the white space off both ends and nothing else.
pub proof fn trimming_takes_white_ends(s: Seq<char>)
    ensures
        trimmed(s).len() > 0 ==> !is_white(trimmed(s)[0]) && !is_white(trimmed(s).last()),
        exists|a: int, b: int|
            0 <= a <= b <= s.len() && trimmed(s) == #[trigger] s.subrange(a, b) && (forall|i: int|
                0 <= i < a ==> is_white(#[trigger] s[i])) && forall|i: int|
                b <= i < s.len() ==> is_white(#[trigger] s[i]),
{
    let t = trimmed_start(s);
    lemma_trimmed_start(s);
    lemma_trimmed_end(t);
    let a = s.len() - t.len();
    let b = a + trimmed(s).len();
    assert(trimmed(s) =~= s.subrange(a, b));
    assert forall|i: int| b <= i < s.len() implies is_white(#[trigger] s[i]) by {
        assert(t[i - a] == s[i]);
    }
    if trimmed(s).len() > 0 {
        assert(trimmed(s)[0] == t[0]);
    }
}

/// Lower case is of the twenty-six letters alone, each to its own.
pub proof fn only_letters_are_lowered(s: Seq<char>, i: int)
    requires
        0 <= i < s.len(),
    ensures
        lowered(s).len() == s.len(),
        'A' <= s[i] && s[i] <= 'Z' ==> lowered(s)[i] as u32 == s[i] as u32 + 32,
        !('A' <= s[i] && s[i] <= 'Z') ==> lowered(s)[i] == s[i],
{
    let c = s[i];
    if 'A' <= c && c <= 'Z' {
        let n = c as u32;
        assert(65 <= n <= 90);
        assert(((n + 32) as u8) as u32 == n + 32);
    }
}

/// A text comes before another where they first differ, by the character
/// there, or where it ends and the other goes on.
pub proof fn texts_differ_where_they_are_ordered(a: Seq<char>, b: Seq<char>)
    requires
        text_lt(a, b),
    ensures
        exists|k: int|
            0 <= k <= a.len() && k < b.len() && #[trigger] a.take(k) == b.take(k) && (k == a.len()
                || (k < a.len() && (a[k] as u32) < (b[k] as u32))),
    decreases a.len(),
{
    if a.len() == 0 || a[0] != b[0] {
        assert(a.take(0) =~= b.take(0));
    } else {
        texts_differ_where_they_are_ordered(a.skip(1), b.skip(1));
        let (c, d) = (a.skip(1), b.skip(1));
        let k = choose|k: int|
            0 <= k <= c.len() && k < d.len() && #[trigger] c.take(k) == d.take(k) && (k == c.len()
                || (k < c.len() && (c[k] as u32) < (d[k] as u32)));
        assert forall|i: int| 0 <= i < k + 1 implies a[i] == b[i] by {
            if i > 0 {
                assert(c.take(k)[i - 1] == a[i]);
                assert(d.take(k)[i - 1] == b[i]);
            }
        }
        assert(a.take(k + 1) =~= b.take(k + 1));
    }
}

/// Sorted texts are the same texts, none before an earlier one.
pub proof fn sorting_keeps_the_texts(v: Vec<String>, r: Vec<String>, i: int, j: int)
    requires
        call_ensures(sort_texts, (v,), r),
        0 <= i < j < r@.len(),
    ensures
        r@.len() == v@.len(),
        texts(r@).to_multiset() == texts(v@).to_multiset(),
        !text_lt(r@[j]@, r@[i]@),
{
    assert(texts(r@)[i] == r@[i]@ && texts(r@)[j] == r@[j]@);
    if text_lt(r@[j]@, r@[i]@) {
        if r@[i]@ != r@[j]@ {
            crate::order::text_lt_transitive(r@[j]@, r@[i]@, r@[j]@);
        }
        crate::order::text_lt_irreflexive(r@[j]@);
    }
}

// ---- routing ---------------------------------------------------------------

/// A transposed matrix has its rows for columns.
pub proof fn rows_become_columns(
    v: Vec<u32>,
    rows: usize,
    cols: usize,
    r: Vec<u32>,
    i: int,
    j: int,
)
    requires
        v@.len() == rows * cols,
        call_ensures(transpose, (&v, rows, cols), r),
        0 <= i < rows,
        0 <= j < cols,
    ensures
        r@.len() == v@.len(),
        r@[j * rows + i] == v@[i * cols + j],
{
    lemma_fundamental_div_mod_converse(j * rows + i, rows as int, j, i);
    assert(0 <= j * rows + i < rows * cols) by (nonlinear_arith)
        requires
            0 <= i < rows,
            0 <= j < cols,
    ;
}

/// The places of an expert are those that name it, in order.
pub proof fn places_name_their_expert(ids: Vec<u32>, e: u32, r: Vec<usize>, p: int)
    requires
        call_ensures(places, (&ids, e), r),
    ensures
        (exists|i: int| 0 <= i < r@.len() && (#[trigger] r@[i]) == p) <==> 0 <= p < ids@.len()
            && ids@[p] == e,
        forall|i: int, j: int| 0 <= i < j < r@.len() ==> (#[trigger] r@[i]) < (#[trigger] r@[j]),
{
    let at = places_of(ids@, e, ids@.len());
    let same = r@.map(|k: int, q: usize| q as int);
    places_are_the_routed_ones(ids@, e, ids@.len());
    assert(same == at);
    assert forall|i: int| 0 <= i < r@.len() implies (#[trigger] r@[i]) as int == at[i] by {
        assert(same[i] == r@[i] as int);
    }
    if exists|i: int| 0 <= i < r@.len() && (#[trigger] r@[i]) == p {
        let i = choose|i: int| 0 <= i < r@.len() && (#[trigger] r@[i]) == p;
        assert(at[i] == p);
        assert(at.contains(p));
    }
    if 0 <= p < ids@.len() && ids@[p] == e {
        assert(at.contains(p));
        let i = choose|i: int| 0 <= i < at.len() && at[i] == p;
        assert(r@[i] == p);
    }
    assert forall|i: int, j: int| 0 <= i < j < r@.len() implies (#[trigger] r@[i]) < (
    #[trigger] r@[j]) by {
        assert(at[i] < at[j]);
    }
}

/// Rows are gathered in the order asked for.
pub proof fn rows_are_gathered_in_order(
    xs: Vec<u32>,
    width: usize,
    rows: Vec<usize>,
    r: Vec<u32>,
    i: int,
    c: int,
)
    requires
        forall|k: int| 0 <= k < rows@.len() ==> (#[trigger] rows@[k] + 1) * width <= xs@.len(),
        call_ensures(gather_rows, (&xs, width, &rows), r),
        0 <= i < rows@.len(),
        0 <= c < width,
    ensures
        r@.len() == rows@.len() * width,
        r@[i * width as nat + c] == xs@[rows@[i] * width as nat + c],
{
    assert forall|k: int| 0 <= k < rows@.len() implies (#[trigger] rows@[k] + 1) * width as nat
        <= xs@.len() by {
        assert((rows@[k] + 1) * width <= xs@.len());
    }
    crate::models::qwen4exp::reading::gathering_takes_the_rows_asked_for(
        xs@,
        width as nat,
        rows@,
        i,
        c,
    );
}

// ---- the ladder ------------------------------------------------------------

/// A step down the ladder halves the bits, from thirty-two to two.
pub proof fn a_step_down_halves_the_bits(p: QuantPolicy, down: Option<QuantPolicy>, bits: u32)
    requires
        call_ensures(QuantPolicy::demote, (p,), down),
        call_ensures(QuantPolicy::bits, (p,), bits),
    ensures
        down matches Some(q) ==> 2 * q.width() == bits,
        down is None <==> bits == 2,
        p == QuantPolicy::Off <==> bits == 32,
        p.width() == bits,
{
}

/// A matrix is quantized exactly at eight bits or fewer, with rows of whole
/// blocks of thirty-two, and its scheme is of those bits and blocks.
pub proof fn matrices_of_whole_blocks_are_quantized(
    p: QuantPolicy,
    shape: Vec<usize>,
    scheme: Option<Scheme>,
    r: bool,
)
    requires
        call_ensures(QuantPolicy::eligible, (p, &shape), r),
        call_ensures(QuantPolicy::scheme, (p,), scheme),
    ensures
        r <==> {
            &&& p == QuantPolicy::Q8 || p == QuantPolicy::Q4 || p == QuantPolicy::Q2
            &&& shape@.len() == 2
            &&& shape@[1] > 0
            &&& shape@[1] % 32 == 0
        },
        scheme is Some <==> p == QuantPolicy::Q8 || p == QuantPolicy::Q4 || p == QuantPolicy::Q2,
        scheme matches Some(s) ==> s.block == 32 && s.bits == p.width(),
{
}

// ---- progress --------------------------------------------------------------

/// A phase starts from nothing: no count, no bytes, its clock at now; the load
/// and the model are what they were.
pub proof fn a_phase_starts_from_nothing(s: &mut Progress, p: Phase, expected: u64, now: u64)
    requires
        call_ensures(begin, (s, p, expected, now), ()),
    ensures
        final(s).phase == p,
        final(s).done == 0 && final(s).bytes == 0,
        final(s).expected == expected,
        final(s).started_ms == now && final(s).updated_ms == now,
        final(s).generation == old(s).generation,
        final(s).model@ == old(s).model@,
{
    assert(final(s)@.phase == final(s).phase);
}

/// An advance sets what is done and read, and the time of it, and nothing else.
pub proof fn an_advance_counts_what_is_done(s: &mut Progress, done: u64, bytes: u64, now: u64)
    requires
        call_ensures(advance, (s, done, bytes, now), ()),
    ensures
        final(s).done == done && final(s).bytes == bytes && final(s).updated_ms == now,
        final(s).phase == old(s).phase && final(s).expected == old(s).expected,
        final(s).started_ms == old(s).started_ms,
        final(s).generation == old(s).generation,
        final(s).model@ == old(s).model@,
{
    assert(final(s)@.done == final(s).done);
    assert(old(s)@.phase == old(s).phase);
}

/// Only a ready model is evicted; then nothing is loaded, and no load has
/// begun.
pub proof fn only_a_ready_model_is_evicted(s: &mut Progress, now: u64)
    requires
        call_ensures(evicted, (s, now), ()),
    ensures
        old(s).phase != Phase::Ready ==> final(s)@ == old(s)@,
        old(s).phase == Phase::Ready ==> final(s).phase == Phase::Idle && final(s).model@.len() == 0
            && final(s).generation == old(s).generation && final(s).done == 0 && final(s).expected
            == 0,
{
    assert(final(s)@.phase == final(s).phase);
}

/// A load that begins is the next one, of its model, and counts from nothing.
pub proof fn a_load_begins_as_the_next(
    s: &mut Progress,
    model: &str,
    now: u64,
    r: Load,
)
    requires
        old(s).generation < u64::MAX,
        call_ensures(Load::begin, (s, model, now), r),
    ensures
        final(s).generation == old(s).generation + 1,
        r.generation == final(s).generation && !r.done,
        final(s).phase == Phase::Loading,
        final(s).model@ == model@,
        final(s).done == 0 && final(s).bytes == 0 && final(s).expected == 0,
        final(s).started_ms == now && final(s).updated_ms == now,
{
    assert(final(s)@.phase == final(s).phase);
}

/// A load that ends unfinished leaves nothing loading, unless another began;
/// one that is finished, or is not the last, changes nothing.
pub proof fn only_the_last_load_leaves_nothing(load: Load, s: &mut Progress, now: u64)
    requires
        call_ensures(Load::end, (load, s, now), ()),
    ensures
        load.done || old(s).generation != load.generation ==> final(s)@ == old(s)@,
        !load.done && old(s).generation == load.generation ==> final(s).phase == Phase::Idle
            && final(s).model@.len() == 0 && final(s).generation == old(s).generation,
{
    assert(final(s)@.phase == final(s).phase);
}

/// A load that is ready is done; the model answers unless another load began.
pub proof fn a_ready_load_answers(load: &mut Load, s: &mut Progress, now: u64)
    requires
        call_ensures(Load::ready, (load, s, now), ()),
    ensures
        final(load).done && final(load).generation == old(load).generation,
        old(s).generation == old(load).generation ==> final(s).phase == Phase::Ready
            && final(s).model@ == old(s).model@ && final(s).generation == old(s).generation,
        old(s).generation != old(load).generation ==> final(s)@ == old(s)@,
{
    assert(final(s)@.phase == final(s).phase);
}

/// Time runs from the start of a phase to now, or to the last change where that
/// is later; it is never negative, and there is none before the first load.
pub proof fn time_runs_from_the_start_of_a_phase(s: Snapshot, now: u64, r: Option<u64>)
    requires
        call_ensures(Snapshot::elapsed_ms, (&s, now), r),
    ensures
        r is None <==> s.started_ms == 0,
        r matches Some(ms) ==> {
            &&& now >= s.updated_ms && now >= s.started_ms ==> ms == now - s.started_ms
            &&& now < s.updated_ms && s.updated_ms >= s.started_ms ==> ms == s.updated_ms
                - s.started_ms
            &&& now < s.started_ms && s.updated_ms < s.started_ms ==> ms == 0
        },
{
}

/// The time left is the time taken by what is left over what is done, where all
/// three are known; the fraction is what is done of the whole, at most all.
pub proof fn what_is_left_is_counted(
    s: Snapshot,
    now: u64,
    elapsed: Option<u64>,
    eta: Option<(u64, u64, u64)>,
    fraction: Option<(u64, u64)>,
    rate: Option<(u64, u64)>,
)
    requires
        call_ensures(Snapshot::elapsed_ms, (&s, now), elapsed),
        call_ensures(Snapshot::eta_parts, (&s, now), eta),
        call_ensures(Snapshot::fraction_parts, (&s,), fraction),
        call_ensures(Snapshot::rate_parts, (&s, now), rate),
    ensures
        eta is Some <==> s.expected > 0 && s.done > 0 && elapsed is Some && elapsed->0 > 0,
        eta matches Some(p) ==> p.0 == elapsed->0 && p.2 == s.done && (s.done <= s.expected ==> p.1
            == s.expected - s.done) && (s.done > s.expected ==> p.1 == 0),
        fraction is Some <==> s.expected > 0,
        fraction matches Some(p) ==> p.1 == s.expected && p.0 <= p.1 && (s.done <= s.expected
            ==> p.0 == s.done) && (s.done > s.expected ==> p.0 == s.expected),
        rate is Some <==> s.bytes > 0 && elapsed is Some && elapsed->0 > 0,
        rate matches Some(p) ==> p.0 == s.bytes && p.1 == elapsed->0,
{
}

// ---- profiles --------------------------------------------------------------

/// Where a path stands among ordered ones.
proof fn lemma_slot(v: Seq<Cost>, path: Seq<char>, from: int)
    requires
        0 <= from <= v.len(),
    ensures
        from <= slot(v, path, from) <= v.len(),
        forall|i: int| from <= i < slot(v, path, from) ==> text_lt((#[trigger] v[i]).path, path),
    decreases v.len() - from,
{
    if from < v.len() && text_lt(v[from].path, path) {
        lemma_slot(v, path, from + 1);
    }
}

/// A span adds its time and one entry to its own path, and leaves every other.
pub proof fn a_span_counts_for_its_own_path(v: Seq<Cost>, path: Seq<char>, ns: u64, c: Cost)
    requires
        recorded(v, path) ==> v[slot(v, path, 0)].ns + ns <= u64::MAX && v[slot(
            v,
            path,
            0,
        )].count < u64::MAX,
        c.path != path,
    ensures
        with_span(v, path, ns).contains(c) <==> v.contains(c),
        exists|i: int|
            0 <= i < with_span(v, path, ns).len() && (#[trigger] with_span(v, path, ns)[i]).path
                == path && if recorded(v, path) {
                let old = v[slot(v, path, 0)];
                with_span(v, path, ns)[i].ns == old.ns + ns && with_span(v, path, ns)[i].count
                    == old.count + 1 && old.path == path
            } else {
                with_span(v, path, ns)[i].ns == ns && with_span(v, path, ns)[i].count == 1
            },
{
    let w = with_span(v, path, ns);
    let i = slot(v, path, 0);
    lemma_slot(v, path, 0);
    assert(w[i].path == path);
    if v.contains(c) {
        let k = choose|k: int| 0 <= k < v.len() && v[k] == c;
        if recorded(v, path) {
            assert(w[k] == c);
        } else if k < i {
            assert(w[k] == c);
        } else {
            assert(w[k + 1] == c);
        }
    }
    if w.contains(c) {
        let k = choose|k: int| 0 <= k < w.len() && w[k] == c;
        if recorded(v, path) {
            assert(v[k] == c);
        } else if k < i {
            assert(v[k] == c);
        } else {
            assert(v[k - 1] == c);
        }
    }
}

/// A span is recorded only while profiling is on.
pub proof fn a_span_is_recorded_while_profiling(p: &mut Profiler, path: &str, ns: u64)
    requires
        call_ensures(record, (p, path, ns), ()),
    ensures
        !old(p).on ==> costs(final(p).totals@) == costs(old(p).totals@),
        old(p).on ==> costs(final(p).totals@) == with_span(costs(old(p).totals@), path@, ns),
        final(p).on == old(p).on,
{
}

/// A scope stands under those that were open when it was opened, and is open
/// until it ends; none is opened while profiling is off.
pub proof fn a_scope_stands_under_the_open_ones(
    p: Profiler,
    stack: &mut ScopeStack,
    name: &str,
    now: u64,
    r: ScopeGuard,
)
    requires
        call_ensures(scope, (&p, stack, name, now), r),
    ensures
        !p.on ==> r.start is None && names(*final(stack)) == names(*old(stack)),
        p.on ==> r.start == Some(now) && names(*final(stack)).drop_last() == names(*old(stack))
            && names(*final(stack)).last() == name@,
{
    if p.on {
        assert(names(*old(stack)).push(name@).drop_last() =~= names(*old(stack)));
    }
}

/// The path of open scopes: their names between semicolons, the outermost
/// first.
pub proof fn a_path_names_its_scopes(v: Seq<Seq<char>>, name: Seq<char>)
    ensures
        joined(Seq::<Seq<char>>::empty()) == Seq::<char>::empty(),
        v.len() == 0 ==> joined(v.push(name)) == name,
        v.len() > 0 ==> joined(v.push(name)) == joined(v) + ";"@ + name,
{
    assert(v.push(name).drop_last() =~= v);
}

/// The last semicolon of a text.
proof fn lemma_last_cut(s: Seq<char>, n: nat, cut: int)
    requires
        0 <= cut < n <= s.len(),
        s[cut] == ';',
        forall|i: int| cut < i < n ==> #[trigger] s[i] != ';',
    ensures
        last_cut(s, n) == Some(cut),
    decreases n,
{
    if cut < n - 1 {
        assert(s[n - 1] != ';');
        lemma_last_cut(s, (n - 1) as nat, cut);
    }
}

/// A text without a semicolon has no last one.
proof fn lemma_no_cut(s: Seq<char>, n: nat)
    requires
        n <= s.len(),
        forall|i: int| 0 <= i < n ==> #[trigger] s[i] != ';',
    ensures
        last_cut(s, n) is None,
    decreases n,
{
    if n > 0 {
        assert(s[n - 1] != ';');
        lemma_no_cut(s, (n - 1) as nat);
    }
}

/// A path is under the one without its last name; a single name is under none.
pub proof fn a_path_is_under_the_one_without_its_last_name(path: Seq<char>, name: Seq<char>)
    requires
        !name.contains(';'),
    ensures
        parent(path + ";"@ + name) == Some(path),
        parent(name) is None,
{
    reveal_strlit(";");
    let whole = path + ";"@ + name;
    let cut = path.len() as int;
    assert(whole[cut] == ';');
    assert forall|i: int| cut < i < whole.len() implies #[trigger] whole[i] != ';' by {
        assert(whole[i] == name[i - cut - 1]);
    }
    lemma_last_cut(whole, whole.len(), cut);
    assert(whole.take(cut) =~= path);
    assert forall|i: int| 0 <= i < name.len() implies #[trigger] name[i] != ';' by {
        assert(name.contains(name[i]));
    }
    lemma_no_cut(name, name.len());
}

/// The own time of a path is what its children leave of it.
pub proof fn own_time_is_what_children_leave(v: Seq<Cost>, i: int)
    requires
        0 <= i < v.len(),
    ensures
        children_ns(v, v[i].path, v.len()) <= v[i].ns ==> self_ns(v, i) + children_ns(
            v,
            v[i].path,
            v.len(),
        ) == v[i].ns,
        children_ns(v, v[i].path, v.len()) > v[i].ns ==> self_ns(v, i) == 0,
{
}

// ---- models ----------------------------------------------------------------

/// The characters that may stand in a name.
proof fn lemma_name_chars(s: Seq<char>, n: nat)
    requires
        n <= s.len(),
    ensures
        name_chars(s, n) <==> forall|i: int|
            0 <= i < n ==> {
                let c = #[trigger] s[i];
                ||| 'a' <= c && c <= 'z'
                ||| 'A' <= c && c <= 'Z'
                ||| '0' <= c && c <= '9'
                ||| c == '-'
                ||| c == '_'
                ||| c == '.'
            },
    decreases n,
{
    if n > 0 {
        lemma_name_chars(s, (n - 1) as nat);
    }
}

/// A model is accepted exactly when its name can name a directory, its
/// repository has an owner, its revision is pinned, and its file, if it is one,
/// stays in the directory and is of the format.
pub proof fn a_model_is_named_safely(m: ModelSpec, r: Result<(), String>)
    requires
        call_ensures(ModelSpec::validate, (&m,), r),
    ensures
        r is Ok <==> {
            &&& m.name@.len() > 0
            &&& m.name@ != "."@ && m.name@ != ".."@
            &&& forall|i: int|
                0 <= i < m.name@.len() ==> {
                    let c = #[trigger] m.name@[i];
                    ||| 'a' <= c && c <= 'z'
                    ||| 'A' <= c && c <= 'Z'
                    ||| '0' <= c && c <= '9'
                    ||| c == '-'
                    ||| c == '_'
                    ||| c == '.'
                }
            &&& m.repo@.contains('/')
            &&& m.revision@.len() > 0
            &&& m@.file matches Some(file) ==> {
                &&& file.len() > 0
                &&& file[0] != '/'
                &&& !occurs_in(file, ".."@)
                &&& file.len() >= 5 && file.skip(file.len() - 5) == ".gguf"@
            }
        },
{
    lemma_name_chars(m.name@, m.name@.len());
    reveal_strlit("/");
    reveal_strlit(".gguf");
    let repo = m.repo@;
    if occurs_in(repo, "/"@) {
        let at = choose|at: int| occurs_at(repo, "/"@, at);
        assert(repo.subrange(at, at + 1)[0] == repo[at]);
        assert(repo.contains('/'));
    }
    if repo.contains('/') {
        let at = choose|at: int| 0 <= at < repo.len() && repo[at] == '/';
        assert(repo.subrange(at, at + 1) =~= "/"@);
        assert(occurs_at(repo, "/"@, at));
    }
    if let Some(file) = m@.file {
        if file.len() > 0 {
            assert(file.subrange(0, 1)[0] == file[0]);
            if file[0] == '/' {
                assert(file.subrange(0, 1) =~= "/"@);
            }
        }
        if file.len() >= 5 {
            assert(file.skip(file.len() - 5) =~= file.subrange(
                file.len() - 5,
                file.len() - 5 + 5,
            ));
        }
    }
}

/// A model's directory is its name under the root, whatever the root is.
pub proof fn a_models_directory_is_under_the_root(m: ModelSpec, root: &str, r: String)
    requires
        call_ensures(ModelSpec::dir, (&m, root), r),
        safe_name(m.name@),
    ensures
        root@.is_prefix_of(r@),
        r@.skip(r@.len() - m.name@.len()) == m.name@,
        root@.len() == 0 || root@.last() == '/' ==> r@ == root@ + m.name@,
        root@.len() > 0 && root@.last() != '/' ==> r@ == root@ + "/"@ + m.name@,
{
    lemma_name_chars(m.name@, m.name@.len());
    assert(m.name@[0] != '/');
    if root@.len() == 0 {
        assert(root@ + m.name@ =~= m.name@);
    }
    assert(r@.skip(r@.len() - m.name@.len()) =~= m.name@);
}

// ---- the ring --------------------------------------------------------------

/// An upload is claimed while a slot is free: the next position, which is the
/// turn of its layer in the order.
pub proof fn an_upload_is_the_next_layers_turn<P>(s: &mut RingState<P>, r: Claim)
    requires
        call_ensures(RingState::<P>::claim, (s,), r),
    ensures
        r == Claim::Exit <==> old(s).shutdown,
        r == Claim::Wait <==> !old(s).shutdown && old(s).occupied >= old(s).slots,
        r matches Claim::Upload { pos, layer } ==> pos == old(s).next_upload && layer
            == old(s).order@[pos as int % old(s).order@.len() as int] && final(s).next_upload == pos
            + 1 && final(s).occupied == old(s).occupied + 1 && final(s).in_flight,
        !(r is Upload) ==> final(s).next_upload == old(s).next_upload && final(s).occupied
            == old(s).occupied,
{
}

/// A layer is reserved exactly when it is its turn; a layer out of turn is told
/// whose turn it is.
pub proof fn a_layer_is_reserved_in_its_turn<P>(
    s: &mut RingState<P>,
    layer: usize,
    r: Result<u64, (u64, usize)>,
)
    requires
        call_ensures(RingState::<P>::reserve, (s, layer), r),
    ensures
        ({
            let pos = old(s).next_acquire;
            let due = old(s).order@[pos as int % old(s).order@.len() as int];
            &&& r is Ok <==> layer == due
            &&& r matches Ok(p) ==> p == pos && final(s).next_acquire == pos + 1
            &&& r matches Err(e) ==> e.0 == pos && e.1 == due && final(s).next_acquire == pos
        }),
{
}

/// A landed payload is handed out once, as that of its layer, and its slot is
/// free again only when it is given back.
pub proof fn a_payload_is_handed_out_once<P>(s: &mut RingState<P>, pos: u64, r: Taken<P>)
    requires
        call_ensures(RingState::<P>::take, (s, pos), r),
    ensures
        r matches Taken::Landed(g) ==> {
            &&& old(s).ready@.len() > 0
            &&& old(s).ready@[0] == (pos, g.payload)
            &&& g.layer == old(s).order@[pos as int % old(s).order@.len() as int]
            &&& final(s).ready@ == old(s).ready@.skip(1)
        },
        r is Gone ==> old(s).prefetcher_gone && final(s).ready@ == old(s).ready@,
        r is Wait ==> !old(s).prefetcher_gone && final(s).ready@ == old(s).ready@,
        final(s).occupied == old(s).occupied,
{
    if r is Landed {
        assert(old(s).ready@.subrange(1, old(s).ready@.len() as int) =~= old(s).ready@.skip(1));
    }
}

/// A payload that lands stands behind those that landed before; one that is
/// given back frees one slot.
pub proof fn payloads_land_in_order<P>(s: &mut RingState<P>, payload: P)
    requires
        call_ensures(RingState::<P>::land, (s, payload), ()),
    ensures
        final(s).ready@.len() == old(s).ready@.len() + 1,
        final(s).ready@.last().1 == payload,
        final(s).ready@.last().0 as int == old(s).next_upload - 1 || old(s).next_upload == 0,
        final(s).ready@.drop_last() == old(s).ready@,
        !final(s).in_flight,
        final(s).occupied == old(s).occupied,
{
    assert(final(s).ready@.drop_last() =~= old(s).ready@);
}

/// A slot that is given back is one more that is free, and nothing else
/// changes.
pub proof fn a_slot_is_given_back<P>(s: &mut RingState<P>)
    requires
        call_ensures(RingState::<P>::release, (s,), ()),
    ensures
        final(s).occupied == old(s).occupied - 1,
        final(s).ready@ == old(s).ready@,
        final(s).next_upload == old(s).next_upload,
        final(s).next_acquire == old(s).next_acquire,
{
}

// ---- fetching --------------------------------------------------------------

/// What is fetched: of the model's own repository and revision, into its
/// directory; the one file of a model that is one.
pub proof fn a_model_is_fetched_into_its_directory(
    m: ModelSpec,
    root: &str,
    dir: String,
    r: Fetch,
)
    requires
        call_ensures(ModelSpec::dir, (&m, root), dir),
        call_ensures(ModelSpec::fetch, (&m, root), r),
    ensures
        r is Model <==> m.format is Safetensors,
        r matches Fetch::Model { repo, revision, dir: d } ==> repo@ == m.repo@ && revision@
            == m.revision@ && d@ == dir@,
        r matches Fetch::File { repo, revision, file, dir: d, path } ==> repo@ == m.repo@
            && revision@ == m.revision@ && d@ == dir@ && (m.format matches WeightFormat::Gguf {
            file: f,
        } && file@ == f@ && path@ == path_under(d@, f@)),
{
}

/// The built-in catalog: which models it has, by name, and what loads each.
pub proof fn the_catalog_has_these_models(r: Vec<ModelSpec>)
    requires
        call_ensures(catalog, (), r),
    ensures
        r@.len() == 13,
        r@[0].name@ == "qwen2.5-1.5b-instruct"@ && r@[0].architecture == Architecture::Qwen2,
        r@[1].name@ == "qwen2.5-0.5b-instruct"@ && r@[1].architecture == Architecture::Qwen2,
        r@[2].name@ == "lfm2.5-1.2b"@ && r@[2].architecture == Architecture::Lfm2,
        r@[3].name@ == "lfm2.5-230m"@ && r@[3].architecture == Architecture::Lfm2,
        r@[4].name@ == "all-minilm-l6-v2"@ && r@[4].architecture == Architecture::MiniLm,
        r@[5].name@ == "qwen2.5-1.5b-instruct-q4km"@ && r@[5].architecture == Architecture::Qwen2,
        r@[6].name@ == "lfm2.5-1.2b-q4km"@ && r@[6].architecture == Architecture::Lfm2,
        r@[7].name@ == "qwen3-0.6b"@ && r@[7].architecture == Architecture::Qwen3,
        r@[8].name@ == "qwen3-0.6b-q4km"@ && r@[8].architecture == Architecture::Qwen3,
        r@[9].name@ == "qwen3-4b"@ && r@[9].architecture == Architecture::Qwen3,
        r@[10].name@ == "qwen3-4b-q4km"@ && r@[10].architecture == Architecture::Qwen3,
        r@[11].name@ == "olmoe-1b-7b-0125-instruct-q4km"@ && r@[11].architecture
            == Architecture::Olmoe,
        r@[12].name@ == "olmoe-1b-7b-0125-instruct"@ && r@[12].architecture == Architecture::Olmoe,
        r@[12].repo@ == "allenai/OLMoE-1B-7B-0125-Instruct"@,
        r@[0].repo@ == "Qwen/Qwen2.5-1.5B-Instruct"@ && r@[1].repo@
            == "Qwen/Qwen2.5-0.5B-Instruct"@,
        r@[2].repo@ == "LiquidAI/LFM2.5-1.2B-Instruct"@ && r@[3].repo@ == "LiquidAI/LFM2.5-230M"@,
        r@[4].repo@ == "sentence-transformers/all-MiniLM-L6-v2"@,
        r@[5].repo@ == "Qwen/Qwen2.5-1.5B-Instruct-GGUF"@ && r@[6].repo@
            == "LiquidAI/LFM2.5-1.2B-Instruct-GGUF"@,
        r@[7].repo@ == "Qwen/Qwen3-0.6B"@ && r@[8].repo@ == "unsloth/Qwen3-0.6B-GGUF"@,
        r@[9].repo@ == "Qwen/Qwen3-4B"@ && r@[10].repo@ == "Qwen/Qwen3-4B-GGUF"@,
        r@[11].repo@ == "allenai/OLMoE-1B-7B-0125-Instruct-GGUF"@,
        forall|i: int| 0 <= i < 13 ==> (#[trigger] r@[i]).revision@ == "main"@,
        forall|i: int|
            0 <= i < 13 ==> ((#[trigger] r@[i]).format is Gguf <==> i == 5 || i == 6 || i == 8 || i
                == 10 || i == 11),
{
    assert(r@[0]@ == catalog_entry(0) && r@[1]@ == catalog_entry(1) && r@[2]@ == catalog_entry(2));
    assert(r@[3]@ == catalog_entry(3) && r@[4]@ == catalog_entry(4) && r@[5]@ == catalog_entry(5));
    assert(r@[6]@ == catalog_entry(6) && r@[7]@ == catalog_entry(7) && r@[8]@ == catalog_entry(8));
    assert(r@[9]@ == catalog_entry(9) && r@[10]@ == catalog_entry(10) && r@[11]@ == catalog_entry(
        11,
    ));
    assert(r@[12]@ == catalog_entry(12));
    assert forall|i: int| 0 <= i < 13 implies (#[trigger] r@[i]).revision@ == "main"@ && (
    r@[i].format is Gguf <==> i == 5 || i == 6 || i == 8 || i == 10 || i == 11) by {
        assert(r@[i]@ == catalog_entry(i));
    }
}

/// A level has its own blob, and is quantized as its bits are.
pub proof fn a_level_has_its_own_blob(p: Precision, blob: &'static str, policy: QuantPolicy)
    requires
        call_ensures(Precision::blob_name, (p,), blob),
        call_ensures(Precision::policy, (p,), policy),
    ensures
        p == Precision::Q4 ==> blob@ == "q4.bin"@ && policy.width() == 4,
        p == Precision::Q8 ==> blob@ == "q8.bin"@ && policy.width() == 8,
        p == Precision::F16 ==> blob@ == "f16.bin"@ && policy == QuantPolicy::Off,
        p == Precision::F32 ==> blob@ == "f32.bin"@ && policy == QuantPolicy::Off,
{
}

/// Each phase has its name, and the three between idle and ready are work.
pub proof fn phases_have_their_names(p: Phase, name: &'static str, works: bool)
    requires
        call_ensures(Phase::as_str, (p,), name),
        call_ensures(Phase::is_working, (p,), works),
    ensures
        works <==> p != Phase::Idle && p != Phase::Ready,
        p == Phase::Idle ==> name@ == "idle"@,
        p == Phase::Loading ==> name@ == "loading"@,
        p == Phase::Packing ==> name@ == "packing"@,
        p == Phase::Warming ==> name@ == "warming"@,
        p == Phase::Ready ==> name@ == "ready"@,
{
}

/// A time's rank is that of its value: a number below another ranks below it,
/// and what is not a number has none.
pub proof fn a_time_ranks_as_its_value(a: u64, b: u64, x: Option<u64>, y: Option<u64>)
    requires
        call_ensures(order_key, (a,), x),
        call_ensures(order_key, (b,), y),
    ensures
        x is None <==> (a as int / 0x10_0000_0000_0000) % 0x800 == 0x7ff && a as int
            % 0x10_0000_0000_0000 != 0,
        x is Some && y is Some && a < 0x8000_0000_0000_0000 && b < 0x8000_0000_0000_0000 ==> (x->0
            < y->0 <==> a < b),
        x is Some && y is Some && a > 0x8000_0000_0000_0000 && b < 0x8000_0000_0000_0000 ==> x->0
            < y->0,
        x is Some && y is Some && a > 0x8000_0000_0000_0000 && b > 0x8000_0000_0000_0000 ==> (x->0
            < y->0 <==> a > b),
        x is Some && y is Some && a == 0 && b == 0x8000_0000_0000_0000 ==> x == y,
{
}

// ---- values and lists ------------------------------------------------------

/// A value is given as what it is, and as nothing else.
pub proof fn a_value_is_given_as_what_it_is(
    v: GgufValue,
    u: Option<u64>,
    i: Option<i64>,
    s: Option<F32Bits>,
    b: Option<bool>,
    n: Option<u64>,
)
    requires
        call_ensures(GgufValue::as_u64, (&v,), u),
        call_ensures(GgufValue::as_i64, (&v,), i),
        call_ensures(GgufValue::as_f32, (&v,), s),
        call_ensures(GgufValue::as_bool, (&v,), b),
        call_ensures(non_negative, (&v,), n),
    ensures
        u matches Some(x) ==> is_number(v, x as int) && i is None,
        i matches Some(x) ==> is_number(v, x as int) && u is None,
        n matches Some(x) ==> is_number(v, x as int),
        n is None ==> forall|x: u64| !is_number(v, x as int),
        s matches Some(x) ==> v == GgufValue::F32(x),
        b matches Some(x) ==> v == GgufValue::Bool(x),
        s is None ==> !(v is F32),
        b is None ==> !(v is Bool),
{
}

/// A block has as many values as its type, one for a float, thirty-two or two
/// hundred and fifty-six for a quantized one, and the bytes of their scales.
pub proof fn a_block_is_as_long_as_its_type(t: GgmlType, values: usize, bytes: usize)
    requires
        call_ensures(GgmlType::block_size, (t,), values),
        call_ensures(GgmlType::bytes_per_block, (t,), bytes),
    ensures
        values == t.block() && bytes == t.block_bytes(),
        t == GgmlType::F32 ==> values == 1 && bytes == 4,
        t == GgmlType::F16 || t == GgmlType::BF16 ==> values == 1 && bytes == 2,
        t == GgmlType::Q80 ==> values == 32 && bytes == 34,
        t == GgmlType::Q40 || t == GgmlType::Iq4Nl ==> values == 32 && bytes == 18,
        t == GgmlType::Q41 ==> values == 32 && bytes == 20,
        t == GgmlType::Q50 ==> values == 32 && bytes == 22,
        t == GgmlType::Q51 ==> values == 32 && bytes == 24,
        t == GgmlType::Q2K ==> values == 256 && bytes == 84,
        t == GgmlType::Q3K ==> values == 256 && bytes == 110,
        t == GgmlType::Q4K ==> values == 256 && bytes == 144,
        t == GgmlType::Q5K ==> values == 256 && bytes == 176,
        t == GgmlType::Q6K ==> values == 256 && bytes == 210,
{
}

/// The largest keys are chosen, largest first, the lower of equal ones.
pub proof fn the_largest_keys_are_chosen(keys: Vec<u32>, k: usize, r: Vec<u32>, i: int, e: int)
    requires
        1 <= k <= keys@.len(),
        keys@.len() <= u32::MAX,
        call_ensures(top_k, (&keys, k), r),
        0 <= i < k,
        0 <= e < keys@.len(),
    ensures
        r@.len() == k,
        r@[i] < keys@.len(),
        !r@.contains(e as u32) ==> keys@[r@[i] as int] > keys@[e] || (keys@[r@[i] as int] == keys@[e]
            && r@[i] < e),
        forall|j: int|
            i < j < k ==> keys@[r@[i] as int] > keys@[(#[trigger] r@[j]) as int] || (
            keys@[r@[i] as int] == keys@[r@[j] as int] && r@[i] < r@[j]),
{
    the_most_probable_experts_are_chosen(keys@, r@, k as nat, i, e);
}

/// Groups come by expert, ascending, none empty.
pub proof fn groups_come_by_expert(ids: Vec<u32>, n_experts: usize, r: Vec<Group>, g: int, h: int)
    requires
        n_experts <= u32::MAX,
        call_ensures(group_by_expert, (&ids, n_experts), r),
        0 <= g < h < r@.len(),
    ensures
        r@[g].expert < r@[h].expert,
{
    jobs_come_by_expert(ids@, n_experts as nat, g, h);
    let v = group_views(r@);
    assert(v[g].0 == r@[g].expert && v[h].0 == r@[h].expert);
}

/// A text starts or ends with another where that is its front or its end.
pub proof fn a_text_starts_and_ends_with_its_ends(
    hay: &str,
    needle: &str,
    starts: bool,
    ends: bool,
    same: bool,
)
    requires
        call_ensures(starts_with_text, (hay, needle), starts),
        call_ensures(ends_with_text, (hay, needle), ends),
        call_ensures(same_text, (hay, needle), same),
    ensures
        starts <==> needle@.is_prefix_of(hay@),
        ends <==> needle@.len() <= hay@.len() && hay@.skip(hay@.len() - needle@.len()) == needle@,
        same <==> hay@ == needle@,
{
    let (h, n) = (hay@, needle@);
    if n.len() <= h.len() {
        assert(h.skip(h.len() - n.len()) =~= h.subrange(
            h.len() - n.len(),
            h.len() - n.len() + n.len(),
        ));
        if n.is_prefix_of(h) {
            assert(h.subrange(0, n.len() as int) =~= n);
        }
        if starts {
            assert(h.subrange(0, n.len() as int) == n);
        }
    }
}

/// A text is trimmed, lowered and cut as its characters say.
pub proof fn texts_are_taken_apart(
    s: Vec<char>,
    sep: char,
    t: Vec<char>,
    l: Vec<char>,
    p: Vec<Vec<char>>,
    k: int,
)
    requires
        call_ensures(trim, (&s,), t),
        call_ensures(lowercase, (&s,), l),
        call_ensures(split_at, (&s, sep), p),
        0 <= k < p@.len(),
    ensures
        t@ == trimmed(s@),
        t@.len() > 0 ==> !is_white(t@[0]) && !is_white(t@.last()),
        l@ == lowered(s@),
        p@.len() == pieces(s@, sep).len(),
        p@[k]@ == pieces(s@, sep)[k],
        !p@[k]@.contains(sep),
{
    trimming_takes_white_ends(s@);
    a_text_is_cut_at_its_separators(s@, sep);
    assert(char_lists(p@)[k] == p@[k]@);
}

/// Folded text has a line for each path, in order: the path, how often it was
/// entered, and its own time in microseconds.
pub proof fn folded_text_has_a_line_for_each_path(p: Profiler, r: String)
    requires
        call_ensures(folded, (&p,), r),
    ensures
        costs(p.totals@).len() == 0 ==> r@.len() == 0,
        costs(p.totals@).len() > 0 ==> ({
            let c = costs(p.totals@);
            let n = c.len();
            r@ == lines_upto(c, (n - 1) as nat) + c[n - 1].path + " ("@ + decimal(
                c[n - 1].count as nat,
            ) + "x) "@ + decimal(self_ns(c, n - 1) / 1000) + "\n"@
        }),
{
    let c = costs(p.totals@);
    assert(c.len() == p.totals@.len());
    if c.len() > 0 {
        let n = c.len();
        assert(lines_upto(c, n) == lines_upto(c, (n - 1) as nat) + line_of(c, n - 1));
        assert(lines_upto(c, n) =~= lines_upto(c, (n - 1) as nat) + c[n - 1].path + " ("@ + decimal(
            c[n - 1].count as nat,
        ) + "x) "@ + decimal(self_ns(c, n - 1) / 1000) + "\n"@);
    }
}

/// A step up the ladder doubles the bits, up to thirty-two.
pub proof fn a_step_up_doubles_the_bits(p: QuantPolicy, up: Option<QuantPolicy>)
    requires
        call_ensures(QuantPolicy::promote, (p,), up),
    ensures
        up matches Some(q) ==> q.width() == 2 * p.width(),
        up is None <==> p.width() == 32,
{
}

/// A placement is charged for every change between host and device along the
/// layers, and as many back.
pub proof fn a_placement_is_charged_both_ways(actions: Vec<LayerAction>, r: usize, a: int, b: int)
    requires
        call_ensures(boundaries, (&actions,), r),
    ensures
        r % 2 == 0,
        0 <= a < b <= actions@.len() && b - a < actions@.len() && (forall|i: int|
            0 <= i < actions@.len() ==> (#[trigger] actions@[i] == LayerAction::Host <==> a <= i
                < b)) ==> r == 2,
        (forall|i: int| 0 <= i < actions@.len() ==> #[trigger] actions@[i] == LayerAction::Host)
            ==> r == 0,
{
    host_runs_pay_both_ways(actions@);
    if 0 <= a < b <= actions@.len() && b - a < actions@.len() && (forall|i: int|
        0 <= i < actions@.len() ==> (#[trigger] actions@[i] == LayerAction::Host <==> a <= i < b)) {
        one_host_run_costs_two_hops(actions@, a, b);
    }
}

/// A phase that is entered starts from nothing, for the load that is current;
/// for any other nothing changes.
pub proof fn a_phase_is_entered_by_the_current_load(
    load: Load,
    s: &mut Progress,
    p: Phase,
    expected: u64,
    now: u64,
)
    requires
        call_ensures(Load::begin_phase, (&load, s, p, expected, now), ()),
    ensures
        old(s).generation != load.generation ==> final(s)@ == old(s)@,
        old(s).generation == load.generation ==> final(s).phase == p && final(s).done == 0
            && final(s).expected == expected && final(s).bytes == 0 && final(s).started_ms == now
            && final(s).generation == old(s).generation && final(s).model@ == old(s).model@,
{
    assert(final(s)@.phase == final(s).phase);
}

// ---- scopes ----------------------------------------------------------------

/// A scope that ends counts for the path of the open ones, as long as it was
/// open, and is open no longer; one that was opened while profiling was off
/// counts for nothing.
pub proof fn a_scope_counts_as_long_as_it_was_open(
    g: ScopeGuard,
    p: &mut Profiler,
    stack: &mut ScopeStack,
    now: u64,
    path: String,
)
    requires
        call_ensures(ScopeStack::path, (old(stack),), path),
        call_ensures(ScopeGuard::end, (g, p, stack, now), ()),
    ensures
        path@ == joined(names(*old(stack))),
        g.start is None ==> costs(final(p).totals@) == costs(old(p).totals@) && names(*final(stack))
            == names(*old(stack)),
        g.start matches Some(s) ==> {
            let ns = if now >= s {
                (now - s) as u64
            } else {
                0
            };
            &&& costs(final(p).totals@) == with_span(costs(old(p).totals@), path@, ns)
            &&& names(*old(stack)).len() > 0 ==> names(*final(stack)) == names(
                *old(stack),
            ).drop_last()
        },
{
}

/// Profiling that is switched keeps what was recorded; what is reset is gone.
pub proof fn switching_keeps_what_was_recorded(p: &mut Profiler, on: bool)
    requires
        call_ensures(crate::prof::set_enabled, (p, on), ()),
    ensures
        final(p).on == on,
        final(p).totals@ == old(p).totals@,
{
}

/// What is reset is gone, and profiling stays as it was.
pub proof fn a_reset_forgets_what_was_recorded(p: &mut Profiler)
    requires
        call_ensures(crate::prof::reset, (p,), ()),
    ensures
        final(p).totals@.len() == 0,
        final(p).on == old(p).on,
{
}

/// What is idle loads nothing, and counts nothing.
pub proof fn what_is_idle_loads_nothing(s: &mut Progress, now: u64)
    requires
        call_ensures(crate::progress::idle, (s, now), ()),
    ensures
        final(s).phase == Phase::Idle && final(s).model@.len() == 0,
        final(s).done == 0 && final(s).expected == 0 && final(s).bytes == 0,
        final(s).generation == old(s).generation,
{
    assert(final(s)@.phase == final(s).phase);
}

/// What is finished is ready, and is still the model that was loaded.
pub proof fn what_is_finished_is_ready(s: &mut Progress, now: u64)
    requires
        call_ensures(crate::progress::finish, (s, now), ()),
    ensures
        final(s).phase == Phase::Ready && final(s).model@ == old(s).model@,
        final(s).generation == old(s).generation,
        final(s).started_ms == now && final(s).updated_ms == now,
{
    assert(final(s)@.phase == final(s).phase);
}

/// A snapshot is of the progress as it stands.
pub proof fn a_snapshot_is_of_the_progress(s: Progress, r: Snapshot)
    requires
        call_ensures(crate::progress::snapshot, (&s,), r),
    ensures
        r.phase == s.phase && r.generation == s.generation && r.model@ == s.model@,
        r.done == s.done && r.expected == s.expected && r.bytes == s.bytes,
        r.started_ms == s.started_ms && r.updated_ms == s.updated_ms,
{
    assert(r@.phase == s@.phase);
}

/// The ladder goes from the most bits to the fewest, every rung once.
pub proof fn the_ladder_goes_down(r: Vec<QuantPolicy>, p: QuantPolicy)
    requires
        call_ensures(QuantPolicy::ladder, (), r),
    ensures
        r@.contains(p),
        forall|i: int, j: int|
            0 <= i < j < r@.len() ==> (#[trigger] r@[i]).width() > (#[trigger] r@[j]).width(),
{
    assert(r@[0] == QuantPolicy::Off && r@[1] == QuantPolicy::F16 && r@[2] == QuantPolicy::Q8
        && r@[3] == QuantPolicy::Q4 && r@[4] == QuantPolicy::Q2);
}

/// A model that is one file has it in its directory.
pub proof fn a_models_file_is_in_its_directory(
    m: ModelSpec,
    root: &str,
    dir: String,
    r: Option<String>,
)
    requires
        call_ensures(ModelSpec::dir, (&m, root), dir),
        call_ensures(ModelSpec::gguf_path, (&m, root), r),
    ensures
        r is None <==> m.format is Safetensors,
        r matches Some(p) ==> (m.format matches WeightFormat::Gguf { file } && p@ == path_under(
            dir@,
            file@,
        )),
{
}

/// A ring that is shut down, or whose prefetcher is gone, says so and keeps
/// what has landed.
pub proof fn a_ring_that_is_shut_down_keeps_what_landed<P>(s: &mut RingState<P>)
    requires
        call_ensures(RingState::<P>::shut_down, (s,), ()),
    ensures
        final(s).shutdown,
        final(s).prefetcher_gone == old(s).prefetcher_gone,
        final(s).ready@ == old(s).ready@,
        final(s).next_upload == old(s).next_upload && final(s).next_acquire == old(s).next_acquire,
        final(s).occupied == old(s).occupied,
{
}

/// A prefetcher that retires is gone, and leaves what has landed.
pub proof fn a_prefetcher_that_retires_is_gone<P>(s: &mut RingState<P>)
    requires
        call_ensures(RingState::<P>::retire, (s,), ()),
    ensures
        final(s).prefetcher_gone,
        final(s).shutdown == old(s).shutdown,
        final(s).ready@ == old(s).ready@,
        final(s).occupied == old(s).occupied,
{
}

} // verus!
