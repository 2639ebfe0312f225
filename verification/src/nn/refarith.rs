//! Reference arithmetic: a diagnostic that makes a forward compute the way
//! the reference backend does. Which activations are put on which grid, in
//! which blocks; which cached positions a query reads; and the integer stream
//! that a perturbation is drawn from. The rounding itself is the caller's.

use crate::gguf::GgmlType;
use crate::text::same_text;
use vstd::prelude::*;

verus! {

/// Has the emulation been switched, or is its setting still to be read?
#[derive(Debug, Clone, Copy, PartialEq, Eq, Structural)]
pub enum Switch {
    Unread,
    On,
    Off,
}

/// The emulation's state: its switch, the perturbation of the embeddings and
/// the storage type of each shape of linear.
pub struct RefArith {
    pub switch: Switch,
    /// Seed of the perturbation, `None` for no perturbation.
    pub seed: Option<u64>,
    /// Relative size of the perturbation, by bit pattern.
    pub eps: u64,
    pub shapes: Vec<ShapeEntry>,
}

/// The storage type of the linears of one shape, `None` where two of them
/// disagree.
#[derive(Debug, Clone, Copy, PartialEq, Eq, Structural)]
pub struct ShapeEntry {
    pub inp: usize,
    pub out: usize,
    pub dtype: Option<GgmlType>,
}

/// The registry as a map from shapes to storage types.
pub open spec fn shape_map(s: Seq<ShapeEntry>) -> Map<(usize, usize), Option<GgmlType>>
    decreases s.len(),
{
    if s.len() == 0 {
        Map::empty()
    } else {
        shape_map(s.drop_last()).insert((s.last().inp, s.last().out), s.last().dtype)
    }
}

/// No shape is listed twice.
pub open spec fn distinct_shapes(s: Seq<ShapeEntry>) -> bool {
    forall|i: int, j: int|
        #![trigger s[i], s[j]]
        0 <= i < j < s.len() ==> (s[i].inp, s[i].out) != (s[j].inp, s[j].out)
}

/// What the map holds of the list.
proof fn lemma_shape_map(s: Seq<ShapeEntry>)
    requires
        distinct_shapes(s),
    ensures
        forall|i: int|
            #![trigger s[i]]
            0 <= i < s.len() ==> shape_map(s).dom().contains((s[i].inp, s[i].out))
                && shape_map(s)[(s[i].inp, s[i].out)] == s[i].dtype,
        forall|k: (usize, usize)|
            #![trigger shape_map(s).dom().contains(k)]
            shape_map(s).dom().contains(k) ==> exists|i: int|
                0 <= i < s.len() && #[trigger] s[i].inp == k.0 && s[i].out == k.1,
    decreases s.len(),
{
    if s.len() > 0 {
        let rest = s.drop_last();
        assert(distinct_shapes(rest)) by {
            assert forall|i: int, j: int| #![trigger rest[i], rest[j]] 0 <= i < j < rest.len() implies
                (rest[i].inp, rest[i].out) != (rest[j].inp, rest[j].out) by {
                assert(rest[i] == s[i] && rest[j] == s[j]);
            }
        }
        lemma_shape_map(rest);
        let n = s.len() - 1;
        assert forall|i: int| #![trigger s[i]] 0 <= i < s.len() implies shape_map(s).dom().contains(
            (s[i].inp, s[i].out),
        ) && shape_map(s)[(s[i].inp, s[i].out)] == s[i].dtype by {
            if i < n {
                assert(rest[i] == s[i]);
                assert((s[i].inp, s[i].out) != (s[n].inp, s[n].out));
            }
        }
        assert forall|k: (usize, usize)| #![trigger shape_map(s).dom().contains(k)] shape_map(
            s,
        ).dom().contains(k) implies exists|i: int|
            0 <= i < s.len() && #[trigger] s[i].inp == k.0 && s[i].out == k.1 by {
            if k == (s[n].inp, s[n].out) {
                assert(s[n].inp == k.0);
            } else {
                assert(shape_map(rest).dom().contains(k));
                let i = choose|i: int|
                    0 <= i < rest.len() && #[trigger] rest[i].inp == k.0 && rest[i].out == k.1;
                assert(rest[i] == s[i]);
                assert(s[i].inp == k.0);
            }
        }
    }
}

/// Changing the type of one listed shape changes the map there.
proof fn lemma_shape_update(s: Seq<ShapeEntry>, at: int, dtype: Option<GgmlType>)
    requires
        distinct_shapes(s),
        0 <= at < s.len(),
    ensures
        ({
            let t = s.update(at, ShapeEntry { inp: s[at].inp, out: s[at].out, dtype });
            distinct_shapes(t) && shape_map(t) == shape_map(s).insert(
                (s[at].inp, s[at].out),
                dtype,
            )
        }),
    decreases s.len(),
{
    let t = s.update(at, ShapeEntry { inp: s[at].inp, out: s[at].out, dtype });
    assert forall|i: int, j: int| #![trigger t[i], t[j]] 0 <= i < j < t.len() implies (
    t[i].inp, t[i].out) != (t[j].inp, t[j].out) by {
        assert((s[i].inp, s[i].out) != (s[j].inp, s[j].out));
    }
    let n = s.len() - 1;
    if at == n {
        assert(t.drop_last() =~= s.drop_last());
        assert(shape_map(t) =~= shape_map(s).insert((s[at].inp, s[at].out), dtype));
    } else {
        let rest = s.drop_last();
        assert forall|i: int, j: int| #![trigger rest[i], rest[j]] 0 <= i < j < rest.len() implies (
        rest[i].inp, rest[i].out) != (rest[j].inp, rest[j].out) by {
            assert(rest[i] == s[i] && rest[j] == s[j]);
        }
        lemma_shape_update(rest, at, dtype);
        assert(t.drop_last() =~= rest.update(
            at,
            ShapeEntry { inp: s[at].inp, out: s[at].out, dtype },
        ));
        assert((s[at].inp, s[at].out) != (s[n].inp, s[n].out));
        assert(shape_map(t) =~= shape_map(s).insert((s[at].inp, s[at].out), dtype));
    }
}

impl RefArith {
    /// The state before anything was set or read.
    pub fn new() -> (r: Self)
        ensures
            r.wf(),
            r.switch == Switch::Unread,
            r.seed is None,
            r.eps == 0,
            r.registry() == Map::<(usize, usize), Option<GgmlType>>::empty(),
    {
        RefArith { switch: Switch::Unread, seed: None, eps: 0, shapes: Vec::new() }
    }

    /// No shape is listed twice.
    pub open spec fn wf(self) -> bool {
        distinct_shapes(self.shapes@)
    }

    /// The storage type of each registered shape.
    pub open spec fn registry(self) -> Map<(usize, usize), Option<GgmlType>> {
        shape_map(self.shapes@)
    }

    /// Where a shape is listed.
    fn find(&self, inp: usize, out: usize) -> (r: Option<usize>)
        requires
            self.wf(),
        ensures
            match r {
                Some(i) => i < self.shapes@.len() && self.shapes@[i as int].inp == inp
                    && self.shapes@[i as int].out == out && self.registry().dom().contains(
                    (inp, out),
                ) && self.registry()[(inp, out)] == self.shapes@[i as int].dtype,
                None => !self.registry().dom().contains((inp, out)) && forall|k: int|
                    0 <= k < self.shapes@.len() ==> ((#[trigger] self.shapes@[k]).inp != inp
                        || self.shapes@[k].out != out),
            },
    {
        let mut i: usize = 0;
        proof {
            lemma_shape_map(self.shapes@);
        }
        while i < self.shapes.len()
            invariant
                i <= self.shapes@.len(),
                forall|k: int|
                    0 <= k < i ==> ((#[trigger] self.shapes@[k]).inp != inp || self.shapes@[k].out
                        != out),
                forall|k: int|
                    #![trigger self.shapes@[k]]
                    0 <= k < self.shapes@.len() ==> self.registry().dom().contains(
                        (self.shapes@[k].inp, self.shapes@[k].out),
                    ) && self.registry()[(self.shapes@[k].inp, self.shapes@[k].out)]
                        == self.shapes@[k].dtype,
            decreases self.shapes@.len() - i,
        {
            if self.shapes[i].inp == inp && self.shapes[i].out == out {
                return Some(i);
            }
            i += 1;
        }
        None
    }
}

/// Does a switch stand on, given the setting that counts until it is read?
pub open spec fn switched_on(switch: Switch, setting: Option<&str>) -> bool {
    match switch {
        Switch::On => true,
        Switch::Off => false,
        Switch::Unread => match setting {
            Some(v) => v@ == "1"@,
            None => false,
        },
    }
}

/// Is the emulation on? Its setting counts until the first time it is read or
/// switched: `1` turns it on.
pub fn enabled(state: &mut RefArith, setting: Option<&str>) -> (r: bool)
    ensures
        r == switched_on(old(state).switch, setting),
        final(state).switch == (if r {
            Switch::On
        } else {
            Switch::Off
        }),
        final(state).seed == old(state).seed,
        final(state).eps == old(state).eps,
        final(state).shapes@ == old(state).shapes@,
{
    match state.switch {
        Switch::On => true,
        Switch::Off => false,
        Switch::Unread => {
            let on: bool = match setting {
                Some(v) => same_text(v, "1"),
                None => false,
            };
            set_enabled(state, on);
            on
        },
    }
}

/// Turn the emulation on or off for every later forward.
pub fn set_enabled(state: &mut RefArith, on: bool)
    ensures
        final(state).switch == (if on {
            Switch::On
        } else {
            Switch::Off
        }),
        final(state).seed == old(state).seed,
        final(state).eps == old(state).eps,
        final(state).shapes@ == old(state).shapes@,
{
    state.switch = if on {
        Switch::On
    } else {
        Switch::Off
    };
}

/// Scale every later embedding by a draw from `seed`, of relative size `eps`
/// (`None`: exact embeddings).
pub fn set_perturbation(state: &mut RefArith, seed: Option<u64>, eps: u64)
    ensures
        final(state).seed == seed,
        final(state).eps == eps,
        final(state).switch == old(state).switch,
        final(state).shapes@ == old(state).shapes@,
{
    state.seed = seed;
    state.eps = eps;
}

/// Is a perturbation of the embeddings configured?
#[must_use]
pub fn perturbation_active(state: &RefArith) -> (r: bool)
    ensures
        r == (state.seed is Some),
{
    state.seed.is_some()
}

/// The stream that the embeddings are perturbed by: the one of the number
/// after the seed, none where they are exact.
pub fn perturbation(state: &RefArith) -> (r: Option<Draws>)
    ensures
        match state.seed {
            Some(s) => r == Some(Draws { state: s.wrapping_add(1).wrapping_mul(GOLDEN) }),
            None => r is None,
        },
{
    match state.seed {
        Some(s) => Some(Draws::new(s.wrapping_add(1))),
        None => None,
    }
}

/// The odd constant the stream steps by.
pub const GOLDEN: u64 = 0x9E37_79B9_7F4A_7C15;

/// One output of the stream from its stepped state.
pub open spec fn scrambled(z: u64) -> u64 {
    let a = (z ^ (z >> 30)).wrapping_mul(0xBF58_476D_1CE4_E5B9);
    let b = (a ^ (a >> 27)).wrapping_mul(0x94D0_49BB_1331_11EB);
    b ^ (b >> 31)
}

/// A stream of 53-bit integers, the same for the same seed.
#[derive(Debug, Clone, Copy, PartialEq, Eq, Structural)]
pub struct Draws {
    pub state: u64,
}

impl Draws {
    /// The stream of a seed.
    pub fn new(seed: u64) -> (r: Self)
        ensures
            r.state == seed.wrapping_mul(GOLDEN),
    {
        Draws { state: seed.wrapping_mul(GOLDEN) }
    }

    /// The next integer `u`: the uniform drawn is `(u + 0.5) / 2^53`.
    pub fn uniform(&mut self) -> (r: u64)
        ensures
            final(self).state == old(self).state.wrapping_add(GOLDEN),
            r == scrambled(final(self).state) >> 11,
            r < 0x20_0000_0000_0000,
    {
        self.state = self.state.wrapping_add(GOLDEN);
        let z: u64 = self.state;
        let a: u64 = (z ^ (z >> 30)).wrapping_mul(0xBF58_476D_1CE4_E5B9);
        let b: u64 = (a ^ (a >> 27)).wrapping_mul(0x94D0_49BB_1331_11EB);
        let c: u64 = b ^ (b >> 31);
        assert(c >> 11 < 0x20_0000_0000_0000) by (bit_vector);
        c >> 11
    }
}

/// The registry after a linear of shape `k` was seen stored as `d`.
pub open spec fn noted(
    m: Map<(usize, usize), Option<GgmlType>>,
    k: (usize, usize),
    d: GgmlType,
) -> Map<(usize, usize), Option<GgmlType>> {
    if !m.dom().contains(k) {
        m.insert(k, Some(d))
    } else if m[k] matches Some(prev) && prev != d {
        m.insert(k, None)
    } else {
        m
    }
}

/// Record that a linear `inp -> out` is stored as `dtype`. A shape seen with
/// two types is marked ambiguous instead of guessed; the type it was known by
/// until then comes back, for a warning.
pub fn register_linear(state: &mut RefArith, inp: usize, out: usize, dtype: GgmlType) -> (r: Option<
    GgmlType,
>)
    requires
        old(state).wf(),
    ensures
        final(state).wf(),
        final(state).registry() == noted(old(state).registry(), (inp, out), dtype),
        r == (if old(state).registry().dom().contains((inp, out)) {
            match old(state).registry()[(inp, out)] {
                Some(prev) => if prev != dtype {
                    Some(prev)
                } else {
                    None
                },
                None => None,
            }
        } else {
            None
        }),
        final(state).switch == old(state).switch,
        final(state).seed == old(state).seed,
        final(state).eps == old(state).eps,
{
    let ghost before = state.shapes@;
    match state.find(inp, out) {
        Some(i) => {
            match state.shapes[i].dtype {
                Some(prev) => {
                    if prev != dtype {
                        proof {
                            lemma_shape_update(before, i as int, None);
                        }
                        state.shapes.set(i, ShapeEntry { inp, out, dtype: None });
                        return Some(prev);
                    }
                },
                None => {},
            }
            None
        },
        None => {
            state.shapes.push(ShapeEntry { inp, out, dtype: Some(dtype) });
            assert(state.shapes@.drop_last() =~= before);
            None
        },
    }
}

/// The storage type of the linears `inp -> out`, where they are registered
/// and agree.
pub open spec fn known_as(m: Map<(usize, usize), Option<GgmlType>>, k: (usize, usize)) -> Option<
    GgmlType,
> {
    if m.dom().contains(k) {
        m[k]
    } else {
        None
    }
}

/// The storage type of the linears `inp -> out`, where they are registered
/// and agree.
pub fn dtype_of(state: &RefArith, inp: usize, out: usize) -> (r: Option<GgmlType>)
    requires
        state.wf(),
    ensures
        r == known_as(state.registry(), (inp, out)),
{
    match state.find(inp, out) {
        Some(i) => state.shapes[i].dtype,
        None => None,
    }
}

/// A shape stored with two types is not emulated, and never again; other
/// shapes are not touched.
pub proof fn an_ambiguous_shape_stays_ambiguous(
    m: Map<(usize, usize), Option<GgmlType>>,
    k: (usize, usize),
    a: GgmlType,
    b: GgmlType,
    later: GgmlType,
    other: (usize, usize),
)
    requires
        a != b,
        other != k,
    ensures
        known_as(noted(noted(m, k, a), k, b), k) is None,
        known_as(noted(noted(noted(m, k, a), k, b), k, later), k) is None,
        known_as(noted(m, k, a), other) == known_as(m, other),
{
}

/// The order in which linears are registered does not matter.
pub proof fn registration_order_is_free(
    m: Map<(usize, usize), Option<GgmlType>>,
    j: (usize, usize),
    a: GgmlType,
    k: (usize, usize),
    b: GgmlType,
)
    ensures
        noted(noted(m, j, a), k, b) == noted(noted(m, k, b), j, a),
{
    assert(noted(noted(m, j, a), k, b) =~= noted(noted(m, k, b), j, a));
}

/// The grid that activations are rounded to before a product.
#[derive(Debug, Clone, Copy, PartialEq, Eq, Structural)]
pub enum Grid {
    /// Blocks of 32 on the half-precision scale `amax / 127`.
    Narrow,
    /// Blocks of 256 on the signed scale of their largest value.
    Wide,
}

/// The grid for a weight stored as `dtype`; float weights leave activations
/// exact.
pub open spec fn grid_for(dtype: GgmlType) -> Option<Grid> {
    match dtype {
        GgmlType::Q80 | GgmlType::Q51 | GgmlType::Q40 | GgmlType::Q50 | GgmlType::Q41 => Some(
            Grid::Narrow,
        ),
        GgmlType::Q4K | GgmlType::Q5K | GgmlType::Q6K | GgmlType::Q3K | GgmlType::Q2K => Some(
            Grid::Wide,
        ),
        _ => None,
    }
}

/// Values per block of a grid.
pub open spec fn grid_block(g: Grid) -> nat {
    match g {
        Grid::Narrow => 32,
        Grid::Wide => 256,
    }
}

/// A run of values that share a scale.
#[derive(Debug, Clone, Copy, PartialEq, Eq, Structural)]
pub struct Run {
    pub start: usize,
    pub len: usize,
}

/// The runs of one row from `at` on: `block` values each, the last one what
/// is left.
pub open spec fn row_runs(at: nat, end: nat, block: nat) -> Seq<Run>
    decreases end - at,
{
    if at >= end || block == 0 {
        Seq::empty()
    } else {
        let len = if end - at < block {
            (end - at) as nat
        } else {
            block
        };
        seq![Run { start: at as usize, len: len as usize }] + row_runs(at + len, end, block)
    }
}

/// The runs of all rows of `width` values from `at` on, no run straddling two
/// rows.
pub open spec fn runs(at: nat, total: nat, width: nat, block: nat) -> Seq<Run>
    decreases total - at,
{
    if at >= total || width == 0 {
        Seq::empty()
    } else {
        let end = if total - at < width {
            total
        } else {
            at + width
        };
        row_runs(at, end, block) + runs(end, total, width, block)
    }
}

/// The runs of rows of `width` values in blocks of `block`.
fn collect_runs(total: usize, width: usize, block: usize) -> (r: Vec<Run>)
    requires
        width > 0,
        block > 0,
    ensures
        r@ == runs(0, total as nat, width as nat, block as nat),
{
    let mut out: Vec<Run> = Vec::new();
    let mut at: usize = 0;
    while at < total
        invariant
            width > 0,
            block > 0,
            at <= total,
            out@ + runs(at as nat, total as nat, width as nat, block as nat) == runs(
                0,
                total as nat,
                width as nat,
                block as nat,
            ),
        decreases total - at,
    {
        let end: usize = if total - at < width {
            total
        } else {
            at + width
        };
        let ghost done = out@;
        let ghost row = row_runs(at as nat, end as nat, block as nat);
        let ghost rest = runs(end as nat, total as nat, width as nat, block as nat);
        let mut from: usize = at;
        assert(done + row =~= out@ + row_runs(from as nat, end as nat, block as nat));
        while from < end
            invariant
                block > 0,
                from <= end,
                done + row == out@ + row_runs(from as nat, end as nat, block as nat),
            decreases end - from,
        {
            let len: usize = if end - from < block {
                end - from
            } else {
                block
            };
            let ghost tail = row_runs((from + len) as nat, end as nat, block as nat);
            assert(out@ + (seq![Run { start: from, len }] + tail) =~= out@.push(
                Run { start: from, len },
            ) + tail);
            out.push(Run { start: from, len });
            from += len;
        }
        assert(out@ =~= done + row);
        assert(done + (row + rest) =~= (done + row) + rest);
        at = end;
    }
    assert(out@ =~= runs(0, total as nat, width as nat, block as nat));
    out
}

/// The runs that activations `[.., width]`, `total` values in all, are
/// rounded in before a product with a weight stored as `dtype`, and the grid;
/// `None` where they stay exact.
pub fn fake_quant_rows(total: usize, width: usize, dtype: GgmlType) -> (r: Option<
    (Grid, Vec<Run>),
>)
    requires
        grid_for(dtype) is Some ==> width > 0,
    ensures
        match r {
            Some(p) => grid_for(dtype) == Some(p.0) && p.1@ == runs(
                0,
                total as nat,
                width as nat,
                grid_block(p.0),
            ),
            None => grid_for(dtype) is None,
        },
{
    match dtype {
        GgmlType::Q80 | GgmlType::Q51 | GgmlType::Q40 | GgmlType::Q50 | GgmlType::Q41 => {
            Some((Grid::Narrow, collect_runs(total, width, 32)))
        },
        GgmlType::Q4K | GgmlType::Q5K | GgmlType::Q6K | GgmlType::Q3K | GgmlType::Q2K => {
            Some((Grid::Wide, collect_runs(total, width, 256)))
        },
        _ => None,
    }
}

/// The runs of 32 that each give one minimum term, row by row.
#[must_use]
pub fn q8_1_min_term_rounding(total: usize, width: usize) -> (r: Vec<Run>)
    requires
        width > 0,
    ensures
        r@ == runs(0, total as nat, width as nat, 32),
{
    collect_runs(total, width, 32)
}

/// Every value lies in exactly one run: the runs follow each other without a
/// gap, from the first value to the last, none of them empty.
pub open spec fn tiles(s: Seq<Run>, from: nat, to: nat) -> bool
    decreases s.len(),
{
    if s.len() == 0 {
        from == to
    } else {
        s[0].start == from && s[0].len > 0 && from + s[0].len <= to && tiles(
            s.skip(1),
            from + s[0].len as nat,
            to,
        )
    }
}

/// Runs that follow runs.
proof fn lemma_tiles_join(a: Seq<Run>, b: Seq<Run>, from: nat, mid: nat, to: nat)
    requires
        tiles(a, from, mid),
        tiles(b, mid, to),
        mid <= to,
    ensures
        tiles(a + b, from, to),
    decreases a.len(),
{
    if a.len() == 0 {
        assert(a + b =~= b);
    } else {
        lemma_tiles_join(a.skip(1), b, from + a[0].len as nat, mid, to);
        assert((a + b).skip(1) =~= a.skip(1) + b);
    }
}

/// The runs of a row tile it.
proof fn lemma_row_runs(at: nat, end: nat, block: nat)
    requires
        at <= end <= usize::MAX,
        block > 0,
    ensures
        tiles(row_runs(at, end, block), at, end),
        forall|i: int|
            0 <= i < row_runs(at, end, block).len() ==> (#[trigger] row_runs(
                at,
                end,
                block,
            )[i]).len <= block,
    decreases end - at,
{
    if at < end {
        let len = if end - at < block {
            (end - at) as nat
        } else {
            block
        };
        lemma_row_runs(at + len, end, block);
        let s = row_runs(at, end, block);
        assert(s.skip(1) =~= row_runs(at + len, end, block));
        assert forall|i: int| 0 <= i < s.len() implies (#[trigger] s[i]).len <= block by {
            if i > 0 {
                assert(s[i] == row_runs(at + len, end, block)[i - 1]);
            }
        }
    }
}

/// The runs cover every value exactly once, and none is longer than a block.
pub proof fn every_value_is_rounded_once(at: nat, total: nat, width: nat, block: nat)
    requires
        at <= total <= usize::MAX,
        width > 0,
        block > 0,
    ensures
        tiles(runs(at, total, width, block), at, total),
        forall|i: int|
            0 <= i < runs(at, total, width, block).len() ==> (#[trigger] runs(
                at,
                total,
                width,
                block,
            )[i]).len <= block,
    decreases total - at,
{
    if at < total {
        let end = if total - at < width {
            total
        } else {
            at + width
        };
        lemma_row_runs(at, end, block);
        every_value_is_rounded_once(end, total, width, block);
        lemma_tiles_join(
            row_runs(at, end, block),
            runs(end, total, width, block),
            at,
            end,
            total,
        );
        let s = runs(at, total, width, block);
        let row = row_runs(at, end, block);
        assert forall|i: int| 0 <= i < s.len() implies (#[trigger] s[i]).len <= block by {
            if i < row.len() {
                assert(s[i] == row[i]);
            } else {
                assert(s[i] == runs(end, total, width, block)[i - row.len()]);
            }
        }
    }
}

/// The storage type whose grid the activations of a linear are rounded to:
/// none while the emulation is off or the shape is unknown or ambiguous.
pub fn linear_input2(
    state: &mut RefArith,
    setting: Option<&str>,
    d_in: usize,
    d_out: usize,
) -> (r: Option<GgmlType>)
    requires
        old(state).wf(),
    ensures
        final(state).wf(),
        final(state).registry() == old(state).registry(),
        final(state).seed == old(state).seed,
        final(state).eps == old(state).eps,
        final(state).switch == (if switched_on(old(state).switch, setting) {
            Switch::On
        } else {
            Switch::Off
        }),
        r == (if switched_on(old(state).switch, setting) {
            known_as(old(state).registry(), (d_in, d_out))
        } else {
            None
        }),
{
    if !enabled(state, setting) {
        return None;
    }
    dtype_of(state, d_in, d_out)
}

/// What one query row reads: where it stands, where its key/value head
/// begins, and how many positions of it count.
#[derive(Debug, Clone, Copy, PartialEq, Eq, Structural)]
pub struct FlashRow {
    pub query: usize,
    pub keys: usize,
    pub positions: usize,
}

/// The sizes of an attention: `batch` sequences of `rows` new positions after
/// `tt - rows` cached ones, `nh` query heads of `hd` values over `nkv`
/// key/value heads.
#[derive(Debug, Clone, Copy, PartialEq, Eq, Structural)]
pub struct FlashDims {
    pub batch: usize,
    pub nh: usize,
    pub rows: usize,
    pub hd: usize,
    pub nkv: usize,
    pub tt: usize,
}

impl FlashDims {
    /// The heads divide evenly, the new positions are cached, and every
    /// offset can be counted.
    pub open spec fn wf(self) -> bool {
        &&& self.nkv >= 1
        &&& self.nh >= 1
        &&& self.nh % self.nkv == 0
        &&& self.rows <= self.tt
        &&& self.batch * self.nh * self.rows * self.hd <= usize::MAX
        &&& self.batch * self.nh * self.rows <= usize::MAX
        &&& self.batch * self.nkv * self.tt * self.hd <= usize::MAX
        &&& self.batch * self.nkv * self.tt <= usize::MAX
    }

    /// The row of query head `head` of sequence `b` at new position `row`.
    pub open spec fn row(self, b: int, head: int, row: int) -> FlashRow {
        let kh = head / (self.nh as int / self.nkv as int);
        FlashRow {
            query: (((b * self.nh + head) * self.rows + row) * self.hd) as usize,
            keys: ((b * self.nkv + kh) * self.tt * self.hd) as usize,
            positions: (self.tt - self.rows + row + 1) as usize,
        }
    }
}

/// Offsets of one row stay in the tensors.
proof fn lemma_flash_row(d: FlashDims, b: int, head: int, row: int)
    requires
        d.wf(),
        0 <= b < d.batch,
        0 <= head < d.nh,
        0 <= row < d.rows,
    ensures
        d.nh as int / d.nkv as int >= 1,
        0 <= head / (d.nh as int / d.nkv as int) < d.nkv,
        0 <= b * d.nh,
        0 <= b * d.nh + head < d.batch * d.nh,
        d.batch * d.nh <= usize::MAX,
        0 <= (b * d.nh + head) * d.rows,
        0 <= (b * d.nh + head) * d.rows + row < d.batch * d.nh * d.rows,
        0 <= ((b * d.nh + head) * d.rows + row) * d.hd,
        ((b * d.nh + head) * d.rows + row) * d.hd + d.hd <= d.batch * d.nh * d.rows * d.hd,
        0 <= b * d.nkv,
        0 <= b * d.nkv + head / (d.nh as int / d.nkv as int) < d.batch * d.nkv,
        d.batch * d.nkv <= usize::MAX,
        0 <= (b * d.nkv + head / (d.nh as int / d.nkv as int)) * d.tt,
        (b * d.nkv + head / (d.nh as int / d.nkv as int)) * d.tt + d.tt <= d.batch * d.nkv * d.tt,
        0 <= (b * d.nkv + head / (d.nh as int / d.nkv as int)) * d.tt * d.hd,
        (b * d.nkv + head / (d.nh as int / d.nkv as int)) * d.tt * d.hd + d.tt * d.hd <= d.batch
            * d.nkv * d.tt * d.hd,
{
    let nh = d.nh as int;
    let nkv = d.nkv as int;
    let rows = d.rows as int;
    let hd = d.hd as int;
    let tt = d.tt as int;
    let batch = d.batch as int;
    let group = nh / nkv;
    vstd::arithmetic::div_mod::lemma_fundamental_div_mod(nh, nkv);
    assert(group >= 1 && nh == nkv * group) by (nonlinear_arith)
        requires
            nh == nkv * group + nh % nkv,
            nh % nkv == 0,
            nh >= 1,
            nkv >= 1,
    ;
    let kh = head / group;
    vstd::arithmetic::div_mod::lemma_fundamental_div_mod(head, group);
    vstd::arithmetic::div_mod::lemma_mod_bound(head, group);
    assert(0 <= kh < nkv) by (nonlinear_arith)
        requires
            head == group * kh + head % group,
            0 <= head % group < group,
            0 <= head < nkv * group,
            group >= 1,
    ;
    let q = b * nh + head;
    assert(0 <= b * nh && q < batch * nh) by (nonlinear_arith)
        requires
            0 <= b < batch,
            0 <= head < nh,
            q == b * nh + head,
    ;
    let qr = q * rows + row;
    assert(0 <= q * rows && qr < batch * nh * rows) by (nonlinear_arith)
        requires
            0 <= q < batch * nh,
            0 <= row < rows,
            qr == q * rows + row,
    ;
    assert(batch * nh <= batch * nh * rows) by (nonlinear_arith)
        requires
            rows >= 1,
            batch * nh >= 0,
    ;
    assert(0 <= qr * hd && qr * hd + hd <= batch * nh * rows * hd) by (nonlinear_arith)
        requires
            0 <= qr < batch * nh * rows,
            hd >= 0,
    ;
    let k = b * nkv + kh;
    assert(0 <= b * nkv && k < batch * nkv) by (nonlinear_arith)
        requires
            0 <= b < batch,
            0 <= kh < nkv,
            k == b * nkv + kh,
    ;
    assert(batch * nkv <= batch * nkv * tt) by (nonlinear_arith)
        requires
            tt >= 1,
            batch * nkv >= 0,
    ;
    assert(0 <= k * tt && k * tt + tt <= batch * nkv * tt) by (nonlinear_arith)
        requires
            0 <= k < batch * nkv,
            tt >= 0,
    ;
    assert(0 <= k * tt * hd && k * tt * hd + tt * hd <= batch * nkv * tt * hd) by (nonlinear_arith)
        requires
            0 <= k * tt,
            k * tt + tt <= batch * nkv * tt,
            hd >= 0,
    ;
}

/// What every query row reads, sequence by sequence, head by head, row by
/// row: query head `h` reads key/value head `h / (nh / nkv)`, and a new row
/// every position up to its own.
pub fn flash_attn_rows(d: FlashDims) -> (r: Vec<FlashRow>)
    requires
        d.wf(),
    ensures
        r@.len() == d.batch * d.nh * d.rows,
        forall|p: int|
            0 <= p < r@.len() ==> (#[trigger] r@[p]) == d.row(
                p / d.rows as int / d.nh as int,
                p / d.rows as int % d.nh as int,
                p % d.rows as int,
            ),
{
    let group: usize = d.nh / d.nkv;
    let past: usize = d.tt - d.rows;
    let mut out: Vec<FlashRow> = Vec::new();
    proof {
        lemma_factor_fits(d);
    }
    if d.rows == 0 {
        return out;
    }
    let total: usize = d.batch * d.nh * d.rows;
    let mut p: usize = 0;
    while p < total
        invariant
            d.wf(),
            group == d.nh / d.nkv,
            past == d.tt - d.rows,
            total == d.batch * d.nh * d.rows,
            p <= total,
            out@.len() == p,
            forall|x: int|
                0 <= x < p ==> (#[trigger] out@[x]) == d.row(
                    x / d.rows as int / d.nh as int,
                    x / d.rows as int % d.nh as int,
                    x % d.rows as int,
                ),
        decreases total - p,
    {
        proof {
            lemma_flash_place(d, p as int);
        }
        let q: usize = p / d.rows;
        let row: usize = p % d.rows;
        let b: usize = q / d.nh;
        let head: usize = q % d.nh;
        proof {
            lemma_flash_row(d, b as int, head as int, row as int);
        }
        let kh: usize = head / group;
        let query: usize = ((b * d.nh + head) * d.rows + row) * d.hd;
        let keys: usize = (b * d.nkv + kh) * d.tt * d.hd;
        out.push(FlashRow { query, keys, positions: past + row + 1 });
        p += 1;
    }
    out
}

/// The number of rows can be counted factor by factor.
proof fn lemma_factor_fits(d: FlashDims)
    requires
        d.wf(),
    ensures
        d.rows > 0 ==> d.batch * d.nh <= usize::MAX,
        d.rows == 0 ==> d.batch * d.nh * d.rows == 0,
{
    let n = d.batch * d.nh;
    assert(n >= 0) by (nonlinear_arith)
        requires
            n == d.batch * d.nh,
    ;
    assert(d.rows > 0 ==> n <= n * d.rows) by (nonlinear_arith)
        requires
            n >= 0,
    ;
    assert(d.rows == 0 ==> n * d.rows == 0) by (nonlinear_arith);
}

/// Row `p` in order has a sequence, a head and a position.
proof fn lemma_flash_place(d: FlashDims, p: int)
    requires
        d.wf(),
        0 <= p < d.batch * d.nh * d.rows,
    ensures
        d.rows > 0,
        0 <= p / (d.rows as int) / (d.nh as int) < d.batch,
        0 <= (p / (d.rows as int)) % (d.nh as int) < d.nh,
        0 <= p % (d.rows as int) < d.rows,
{
    let rows = d.rows as int;
    let nh = d.nh as int;
    let n = d.batch * d.nh;
    assert(rows > 0) by (nonlinear_arith)
        requires
            0 <= p < n * rows,
            rows >= 0,
    ;
    vstd::arithmetic::div_mod::lemma_fundamental_div_mod(p, rows);
    vstd::arithmetic::div_mod::lemma_mod_bound(p, rows);
    let q = p / rows;
    assert(0 <= q < n) by (nonlinear_arith)
        requires
            p == rows * q + p % rows,
            0 <= p % rows < rows,
            0 <= p < n * rows,
            rows > 0,
    ;
    vstd::arithmetic::div_mod::lemma_fundamental_div_mod(q, nh);
    vstd::arithmetic::div_mod::lemma_mod_bound(q, nh);
    let b = q / nh;
    assert(0 <= b < d.batch) by (nonlinear_arith)
        requires
            q == nh * b + q % nh,
            0 <= q % nh < nh,
            0 <= q < d.batch * nh,
            nh > 0,
    ;
}

/// No query row reads a position after its own: the last one it reads is its
/// own, and what it reads stays inside its key/value head.
pub proof fn no_row_reads_the_future(d: FlashDims, b: int, head: int, row: int)
    requires
        d.wf(),
        0 <= b < d.batch,
        0 <= head < d.nh,
        0 <= row < d.rows,
    ensures
        d.row(b, head, row).positions == d.tt - d.rows + row + 1,
        d.row(b, head, row).positions <= d.tt,
        d.row(b, head, row).keys + d.row(b, head, row).positions * d.hd <= d.batch * d.nkv * d.tt
            * d.hd,
{
    lemma_flash_row(d, b, head, row);
    let p = d.row(b, head, row).positions as int;
    assert(p * d.hd <= d.tt * d.hd) by (nonlinear_arith)
        requires
            p <= d.tt,
    ;
}

} // verus!
