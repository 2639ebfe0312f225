//! Selecting and grouping rows for experts: top-k selection, which rows each
//! expert serves, gathering rows, and turning row-major results token-major.
//!
//! Values are carried by their bit patterns. For non-negative singles the
//! order of the bit patterns is the order of the values, so a probability is
//! compared by its pattern.

use vstd::arithmetic::div_mod::{lemma_fundamental_div_mod, lemma_mod_bound};
use vstd::arithmetic::mul::lemma_mul_inequality;
use vstd::prelude::*;

verus! {

/// Does expert `a` rank before expert `b`: the larger key first, the lower id
/// first among equal keys?
pub open spec fn ranks_before(keys: Seq<u32>, a: int, b: int) -> bool {
    keys[a] > keys[b] || (keys[a] == keys[b] && a < b)
}

/// Are `ids` the `k` best-ranked places of `keys`, best first?
pub open spec fn is_top(keys: Seq<u32>, ids: Seq<u32>, k: nat) -> bool {
    &&& ids.len() == k
    &&& forall|i: int| 0 <= i < k ==> (#[trigger] ids[i]) < keys.len()
    &&& forall|i: int, j: int|
        0 <= i < j < k ==> ranks_before(keys, #[trigger] ids[i] as int, #[trigger] ids[j] as int)
    &&& forall|e: int, i: int|
        0 <= e < keys.len() && 0 <= i < k && !ids.contains(e as u32) ==> #[trigger] ranks_before(
            keys,
            ids[i] as int,
            e,
        )
}

/// Is place `e` among the selected ones?
spec fn listed(ids: Seq<u32>, e: int) -> bool {
    ids.contains(e as u32)
}

/// The state of the selection after the first `n` keys: the best of them, at
/// most `k`, best first.
spec fn best_of(keys: Seq<u32>, n: int, k: nat, ids: Seq<u32>) -> bool {
    &&& ids.len() == if n < k {
        n
    } else {
        k as int
    }
    &&& forall|i: int| 0 <= i < ids.len() ==> (#[trigger] ids[i]) < n
    &&& forall|i: int, j: int|
        0 <= i < j < ids.len() ==> ranks_before(
            keys,
            #[trigger] ids[i] as int,
            #[trigger] ids[j] as int,
        )
    &&& forall|e: int, i: int|
        0 <= e < n && 0 <= i < ids.len() && !ids.contains(e as u32) ==> #[trigger] ranks_before(
            keys,
            ids[i] as int,
            e,
        )
    &&& forall|e: int| 0 <= e < n && !(#[trigger] listed(ids, e)) ==> ids.len() == k
}

/// The `k` places of `keys` with the largest keys, in descending order; among
/// equal keys the lower place wins and comes first.
pub fn top_k(keys: &Vec<u32>, k: usize) -> (r: Vec<u32>)
    requires
        1 <= k <= keys@.len(),
        keys@.len() <= u32::MAX,
    ensures
        is_top(keys@, r@, k as nat),
{
    let mut best: Vec<u32> = Vec::new();
    let mut id: usize = 0;
    while id < keys.len()
        invariant
            id <= keys@.len(),
            1 <= k <= keys@.len(),
            keys@.len() <= u32::MAX,
            best_of(keys@, id as int, k as nat, best@),
        decreases keys@.len() - id,
    {
        let p: u32 = keys[id];
        let full: bool = best.len() == k;
        let ghost before = best@;
        if full && p <= keys[best[k - 1] as usize] {
            proof {
                assert forall|e: int, i: int|
                    0 <= e < id + 1 && 0 <= i < before.len() && !before.contains(
                        e as u32,
                    ) implies #[trigger] ranks_before(keys@, before[i] as int, e) by {
                    if e == id {
                        if i < k - 1 {
                            assert(ranks_before(
                                keys@,
                                before[i] as int,
                                before[k - 1] as int,
                            ));
                        }
                    }
                }
            }
            id += 1;
            continue ;
        }
        let mut pos: usize = 0;
        while pos < best.len() && keys[best[pos] as usize] >= p
            invariant
                pos <= best@.len(),
                best@ == before,
                p == keys@[id as int],
                id < keys@.len(),
                best_of(keys@, id as int, k as nat, before),
                forall|i: int| 0 <= i < pos ==> keys@[(#[trigger] before[i]) as int] >= p,
            decreases best@.len() - pos,
        {
            pos += 1;
        }
        best.insert(pos, id as u32);
        let ghost grown = best@;
        if best.len() > k {
            best.truncate(k);
        }
        proof {
            lemma_insert_best(keys@, id as int, k as nat, before, pos as int, grown, best@);
        }
        id += 1;
    }
    best
}

/// Inserting the next key at its place, and dropping the overflow, keeps the
/// selection.
proof fn lemma_insert_best(
    keys: Seq<u32>,
    id: int,
    k: nat,
    before: Seq<u32>,
    pos: int,
    grown: Seq<u32>,
    after: Seq<u32>,
)
    requires
        0 <= id < keys.len() <= u32::MAX,
        1 <= k,
        best_of(keys, id, k, before),
        0 <= pos <= before.len(),
        grown == before.insert(pos, id as u32),
        after == (if grown.len() > k {
            grown.take(k as int)
        } else {
            grown
        }),
        forall|i: int| 0 <= i < pos ==> keys[(#[trigger] before[i]) as int] >= keys[id],
        pos < before.len() ==> keys[before[pos] as int] < keys[id],
        before.len() == k ==> keys[before[k - 1] as int] < keys[id],
    ensures
        best_of(keys, id + 1, k, after),
{
    assert forall|i: int| 0 <= i < grown.len() implies (#[trigger] grown[i]) < id + 1 by {
        if i < pos {
            assert(grown[i] == before[i]);
        } else if i > pos {
            assert(grown[i] == before[i - 1]);
        }
    }
    assert forall|i: int, j: int| 0 <= i < j < grown.len() implies ranks_before(
        keys,
        #[trigger] grown[i] as int,
        #[trigger] grown[j] as int,
    ) by {
        let pi = if i < pos {
            i
        } else {
            i - 1
        };
        let pj = if j < pos {
            j
        } else {
            j - 1
        };
        if i == pos {
            assert(grown[j] == before[j - 1]);
            if j - 1 > pos {
                assert(ranks_before(keys, before[pos] as int, before[j - 1] as int));
            }
        } else if j == pos {
            assert(grown[i] == before[i]);
            assert(before[i] < id);
        } else {
            assert(grown[i] == before[pi]);
            assert(grown[j] == before[pj]);
        }
    }
    assert forall|i: int| 0 <= i < after.len() implies after[i] == grown[i] by {}
    assert forall|e: int, i: int|
        0 <= e < id + 1 && 0 <= i < after.len() && !after.contains(e as u32) implies #[trigger] ranks_before(
        keys,
        after[i] as int,
        e,
    ) by {
        assert(after[i] == grown[i]);
        if grown.contains(e as u32) {
            let q = choose|q: int| 0 <= q < grown.len() && grown[q] == e as u32;
            if q < after.len() {
                assert(after[q] == e as u32);
            }
            assert(q >= after.len());
            assert(ranks_before(keys, grown[i] as int, grown[q] as int));
        } else {
            if e == id {
                assert(grown[pos] == id as u32);
            }
            assert(e < id);
            if before.contains(e as u32) {
                let q = choose|q: int| 0 <= q < before.len() && before[q] == e as u32;
                if q < pos {
                    assert(grown[q] == before[q]);
                } else {
                    assert(grown[q + 1] == before[q]);
                }
            }
            assert(!before.contains(e as u32));
            if i < pos {
                assert(grown[i] == before[i]);
            } else if i > pos {
                assert(grown[i] == before[i - 1]);
            } else {
                assert(!listed(before, e));
                assert(ranks_before(keys, before[k - 1] as int, e));
            }
        }
    }
    assert forall|e: int| 0 <= e < id + 1 && !(#[trigger] listed(after, e)) implies after.len()
        == k by {
        if grown.len() <= k {
            if e == id {
                assert(grown[pos] == id as u32);
            } else if before.contains(e as u32) {
                let q = choose|q: int| 0 <= q < before.len() && before[q] == e as u32;
                if q < pos {
                    assert(grown[q] == before[q]);
                } else {
                    assert(grown[q + 1] == before[q]);
                }
            } else {
                assert(!listed(before, e));
            }
        }
    }
}

/// The selection is determined: two selections of the same keys agree.
pub proof fn top_is_unique(keys: Seq<u32>, a: Seq<u32>, b: Seq<u32>, k: nat)
    requires
        is_top(keys, a, k),
        is_top(keys, b, k),
        keys.len() <= u32::MAX,
    ensures
        a == b,
{
    lemma_top_prefix(keys, a, b, k, k);
    assert(a =~= b);
}

/// Two selections agree on every leading run.
proof fn lemma_top_prefix(keys: Seq<u32>, a: Seq<u32>, b: Seq<u32>, k: nat, n: nat)
    requires
        is_top(keys, a, k),
        is_top(keys, b, k),
        keys.len() <= u32::MAX,
        n <= k,
    ensures
        forall|i: int| 0 <= i < n ==> a[i] == b[i],
    decreases n,
{
    if n > 0 {
        lemma_top_prefix(keys, a, b, k, (n - 1) as nat);
        let m = n - 1;
        let x = a[m] as int;
        let y = b[m] as int;
        if x != y {
            if b.contains(x as u32) {
                let q = choose|q: int| 0 <= q < b.len() && b[q] == x as u32;
                if q < m {
                    assert(a[q] == b[q]);
                    assert(ranks_before(keys, a[q] as int, a[m] as int));
                }
                assert(ranks_before(keys, b[m] as int, b[q] as int));
            } else {
                assert(ranks_before(keys, b[m] as int, x));
            }
            if a.contains(y as u32) {
                let q = choose|q: int| 0 <= q < a.len() && a[q] == y as u32;
                if q < m {
                    assert(a[q] == b[q]);
                    assert(ranks_before(keys, b[q] as int, b[m] as int));
                }
                assert(ranks_before(keys, a[m] as int, a[q] as int));
            } else {
                assert(ranks_before(keys, a[m] as int, y));
            }
        }
    }
}

/// The places among the first `n` that were routed to expert `e`, ascending.
pub open spec fn places_of(ids: Seq<u32>, e: u32, n: nat) -> Seq<int>
    decreases n,
{
    if n == 0 {
        Seq::empty()
    } else {
        let rest = places_of(ids, e, (n - 1) as nat);
        if ids[n - 1] == e {
            rest.push(n - 1)
        } else {
            rest
        }
    }
}

/// A place is listed for an expert exactly when it was routed to it.
pub proof fn places_are_the_routed_ones(ids: Seq<u32>, e: u32, n: nat)
    requires
        n <= ids.len(),
    ensures
        forall|p: int|
            (#[trigger] places_of(ids, e, n).contains(p)) == (0 <= p < n && ids[p] == e),
        forall|i: int, j: int|
            0 <= i < j < places_of(ids, e, n).len() ==> (#[trigger] places_of(ids, e, n)[i])
                < (#[trigger] places_of(ids, e, n)[j]),
    decreases n,
{
    if n > 0 {
        let m = (n - 1) as nat;
        places_are_the_routed_ones(ids, e, m);
        let old_places = places_of(ids, e, m);
        let new_places = places_of(ids, e, n);
        assert forall|p: int| (#[trigger] new_places.contains(p)) == (0 <= p < n && ids[p]
            == e) by {
            if new_places.contains(p) {
                let i = choose|i: int| 0 <= i < new_places.len() && new_places[i] == p;
                if i < old_places.len() {
                    assert(old_places[i] == p);
                    assert(old_places.contains(p));
                }
            }
            if 0 <= p < n && ids[p] == e {
                if p < m {
                    assert(old_places.contains(p));
                    let i = choose|i: int| 0 <= i < old_places.len() && old_places[i] == p;
                    assert(new_places[i] == p);
                } else {
                    assert(new_places[old_places.len() as int] == p);
                }
            }
        }
        assert forall|i: int, j: int| 0 <= i < j < new_places.len() implies (
        #[trigger] new_places[i]) < (#[trigger] new_places[j]) by {
            if j == old_places.len() {
                assert(old_places.contains(old_places[i]));
            }
        }
    }
}

/// One expert in service, with the places routed to it.
#[derive(Debug)]
pub struct Group {
    pub expert: u32,
    pub places: Vec<usize>,
}

/// The experts from `from` on below `n_experts` that serve any place,
/// ascending, each with its places.
pub open spec fn groups_from(ids: Seq<u32>, from: nat, n_experts: nat) -> Seq<(u32, Seq<int>)>
    decreases n_experts - from,
{
    if from >= n_experts {
        Seq::empty()
    } else {
        let rest = groups_from(ids, from + 1, n_experts);
        let mine = places_of(ids, from as u32, ids.len());
        if mine.len() == 0 {
            rest
        } else {
            seq![(from as u32, mine)] + rest
        }
    }
}

/// The experts and places of a list of groups.
pub open spec fn group_views(v: Seq<Group>) -> Seq<(u32, Seq<int>)> {
    Seq::new(v.len(), |i: int| (v[i].expert, v[i].places@.map(|k: int, p: usize| p as int)))
}

/// The places routed to one expert, ascending.
pub fn places(ids: &Vec<u32>, e: u32) -> (r: Vec<usize>)
    ensures
        r@.map(|k: int, p: usize| p as int) == places_of(ids@, e, ids@.len()),
        forall|i: int| 0 <= i < r@.len() ==> (#[trigger] r@[i]) < ids@.len(),
{
    let mut out: Vec<usize> = Vec::new();
    let mut p: usize = 0;
    assert(out@.map(|k: int, q: usize| q as int) =~= places_of(ids@, e, 0));
    while p < ids.len()
        invariant
            p <= ids@.len(),
            out@.map(|k: int, q: usize| q as int) == places_of(ids@, e, p as nat),
            forall|i: int| 0 <= i < out@.len() ==> (#[trigger] out@[i]) < ids@.len(),
        decreases ids@.len() - p,
    {
        if ids[p] == e {
            let ghost before = out@.map(|k: int, q: usize| q as int);
            out.push(p);
            assert(out@.map(|k: int, q: usize| q as int) =~= before.push(p as int));
        }
        p += 1;
    }
    out
}

/// Group the routed places by expert: each expert in service once, ascending,
/// with exactly the places routed to it, ascending.
pub fn group_by_expert(ids: &Vec<u32>, n_experts: usize) -> (r: Vec<Group>)
    requires
        n_experts <= u32::MAX,
    ensures
        group_views(r@) == groups_from(ids@, 0, n_experts as nat),
{
    let mut out: Vec<Group> = Vec::new();
    let mut e: usize = 0;
    proof {
        assert(group_views(out@) + groups_from(ids@, 0, n_experts as nat) =~= groups_from(
            ids@,
            0,
            n_experts as nat,
        ));
    }
    while e < n_experts
        invariant
            e <= n_experts,
            n_experts <= u32::MAX,
            group_views(out@) + groups_from(ids@, e as nat, n_experts as nat) == groups_from(
                ids@,
                0,
                n_experts as nat,
            ),
        decreases n_experts - e,
    {
        let mine: Vec<usize> = places(ids, e as u32);
        let ghost listed = mine@.map(|k: int, q: usize| q as int);
        let ghost before = group_views(out@);
        let ghost rest = groups_from(ids@, (e + 1) as nat, n_experts as nat);
        if mine.len() > 0 {
            assert(listed.len() == mine@.len());
            out.push(Group { expert: e as u32, places: mine });
            assert(group_views(out@) =~= before.push((e as u32, listed)));
            assert(before.push((e as u32, listed)) + rest =~= before + (seq![
                (e as u32, listed),
            ] + rest));
        } else {
            assert(listed.len() == 0);
        }
        e += 1;
    }
    assert(group_views(out@) + Seq::<(u32, Seq<int>)>::empty() =~= group_views(out@));
    out
}

/// The rows of `xs` (each `width` wide) at `rows`, concatenated.
pub open spec fn gathered(xs: Seq<u32>, width: nat, rows: Seq<usize>) -> Seq<u32>
    decreases rows.len(),
{
    if rows.len() == 0 {
        Seq::empty()
    } else {
        gathered(xs, width, rows.drop_last()) + xs.subrange(
            rows.last() * width as int,
            rows.last() * width as int + width,
        )
    }
}

/// Gather rows of `xs`, each `width` wide, in request order.
pub fn gather_rows(xs: &Vec<u32>, width: usize, rows: &Vec<usize>) -> (r: Vec<u32>)
    requires
        forall|i: int|
            0 <= i < rows@.len() ==> (#[trigger] rows@[i] + 1) * width <= xs@.len(),
    ensures
        r@ == gathered(xs@, width as nat, rows@),
{
    let mut out: Vec<u32> = Vec::new();
    let mut i: usize = 0;
    assert(rows@.take(0) =~= Seq::<usize>::empty());
    while i < rows.len()
        invariant
            i <= rows@.len(),
            forall|k: int|
                0 <= k < rows@.len() ==> (#[trigger] rows@[k] + 1) * width <= xs@.len(),
            out@ == gathered(xs@, width as nat, rows@.take(i as int)),
        decreases rows@.len() - i,
    {
        let row: usize = rows[i];
        proof {
            assert((rows@[i as int] + 1) * width <= xs@.len());
            assert((row + 1) * width == row * width + width) by (nonlinear_arith);
            assert(0 <= row * width) by (nonlinear_arith);
            assert(xs.len() == xs@.len());
        }
        let at: usize = row * width;
        let end: usize = at + width;
        let ghost before = out@;
        let mut j: usize = at;
        while j < end
            invariant
                at <= j <= end <= xs@.len(),
                out@ == before + xs@.subrange(at as int, j as int),
            decreases end - j,
        {
            out.push(xs[j]);
            assert(xs@.subrange(at as int, j + 1) =~= xs@.subrange(at as int, j as int).push(
                xs@[j as int],
            ));
            j += 1;
        }
        proof {
            let next = rows@.take(i + 1);
            assert(next.drop_last() =~= rows@.take(i as int));
            assert(next.last() == row);
        }
        i += 1;
    }
    assert(rows@.take(i as int) =~= rows@);
    out
}

/// The `cols` by `rows` matrix whose rows are the columns of a row-major
/// `rows` by `cols` matrix.
pub open spec fn transposed(v: Seq<u32>, rows: int, cols: int) -> Seq<u32> {
    Seq::new((rows * cols) as nat, |i: int| v[(i % rows) * cols + i / rows])
}

/// Transpose a row-major `rows` by `cols` matrix.
pub fn transpose(v: &Vec<u32>, rows: usize, cols: usize) -> (r: Vec<u32>)
    requires
        v@.len() == rows * cols,
    ensures
        r@ == transposed(v@, rows as int, cols as int),
{
    let total: usize = v.len();
    let mut out: Vec<u32> = Vec::new();
    let mut i: usize = 0;
    while i < total
        invariant
            i <= total,
            total == v@.len(),
            v@.len() == rows * cols,
            out@.len() == i,
            forall|k: int|
                0 <= k < i ==> (#[trigger] out@[k]) == transposed(v@, rows as int, cols as int)[k],
        decreases total - i,
    {
        proof {
            if rows == 0 {
                assert(rows * cols == 0) by (nonlinear_arith)
                    requires
                        rows == 0,
                ;
            }
            lemma_transpose_bounds(i as int, rows as int, cols as int);
            assert(v.len() == v@.len());
        }
        let r: usize = i % rows;
        let c: usize = i / rows;
        out.push(v[r * cols + c]);
        i += 1;
    }
    assert(out@ =~= transposed(v@, rows as int, cols as int));
    out
}

/// A place of the transposed matrix reads a place of the matrix.
proof fn lemma_transpose_bounds(i: int, rows: int, cols: int)
    requires
        0 <= i < rows * cols,
        0 < rows,
    ensures
        0 <= i % rows < rows,
        0 <= i / rows < cols,
        0 <= (i % rows) * cols,
        0 <= (i % rows) * cols + i / rows < rows * cols,
        i == (i / rows) * rows + i % rows,
{
    lemma_fundamental_div_mod(i, rows);
    lemma_mod_bound(i, rows);
    let r = i % rows;
    let c = i / rows;
    assert(c * rows == rows * c) by (nonlinear_arith);
    assert(0 <= c < cols) by (nonlinear_arith)
        requires
            0 <= i < rows * cols,
            i == rows * c + r,
            0 <= r < rows,
    ;
    lemma_mul_inequality(r + 1, rows, cols);
    assert((r + 1) * cols == r * cols + cols) by (nonlinear_arith);
    assert(0 <= r * cols) by (nonlinear_arith)
        requires
            0 <= r,
            0 <= cols,
    ;
}

/// Transposing twice gives the matrix back.
pub proof fn transpose_twice(v: Seq<u32>, rows: int, cols: int)
    requires
        0 <= rows,
        0 <= cols,
        v.len() == rows * cols,
    ensures
        transposed(transposed(v, rows, cols), cols, rows) == v,
{
    let t = transposed(v, rows, cols);
    let back = transposed(t, cols, rows);
    assert(rows * cols == cols * rows) by (nonlinear_arith);
    assert forall|i: int| 0 <= i < v.len() implies back[i] == v[i] by {
        if cols == 0 {
            assert(rows * cols == 0) by (nonlinear_arith)
                requires
                    cols == 0,
            ;
        }
        if rows == 0 {
            assert(rows * cols == 0) by (nonlinear_arith)
                requires
                    rows == 0,
            ;
        }
        lemma_transpose_bounds(i, cols, rows);
        let c = i % cols;
        let r = i / cols;
        let k = c * rows + r;
        lemma_transpose_bounds(k, rows, cols);
        vstd::arithmetic::div_mod::lemma_fundamental_div_mod_converse(k, rows, c, r);
    }
    assert(back =~= v);
}

} // verus!
