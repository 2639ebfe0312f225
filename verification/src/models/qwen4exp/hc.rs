//! Hyper-connections: the residual is `H` parallel streams, stream-major
//! (stream `s` is elements `s * E .. (s + 1) * E` of a row), every block reads
//! a gated mean of them and writes its output back into each with a weight of
//! its own. Here: which shapes fit, and which places of the tensors meet. The
//! norm, the gates and the sums are the caller's.

use crate::text::{decimal, push_decimal};
use vstd::arithmetic::div_mod::{
    lemma_fundamental_div_mod, lemma_fundamental_div_mod_converse, lemma_mod_bound,
};
use vstd::prelude::*;

verus! {

/// A projection's weight, inputs by outputs.
#[derive(Debug, Clone, Copy, PartialEq, Eq, Structural)]
pub struct Weight {
    pub inputs: usize,
    pub outputs: usize,
}

/// What is wrong with projecting rows of `d_in` values.
pub open spec fn projection_flaw(w: Weight, d_in: nat) -> Option<Seq<char>> {
    if w.inputs != d_in {
        Some(
            "projection expects "@ + decimal(w.inputs as nat) + " input features, got "@ + decimal(
                d_in,
            ),
        )
    } else {
        None
    }
}

/// The shape of a projection of `[b, t, d_in]`, or what is wrong with it.
pub fn linear3(w: Weight, b: usize, t: usize, d_in: usize) -> (r: Result<
    (usize, usize, usize),
    String,
>)
    ensures
        match r {
            Ok(d) => projection_flaw(w, d_in as nat) is None && d == (b, t, w.outputs),
            Err(e) => projection_flaw(w, d_in as nat) == Some(e@),
        },
{
    if w.inputs != d_in {
        let mut m: String = String::new();
        m.append("projection expects ");
        push_decimal(&mut m, w.inputs as u64);
        m.append(" input features, got ");
        push_decimal(&mut m, d_in as u64);
        return Err(m);
    }
    Ok((b, t, w.outputs))
}

/// What is wrong with a row of `width` values in `groups` groups.
pub open spec fn groups_flaw(width: nat, groups: nat) -> Option<Seq<char>> {
    if groups == 0 || width % groups != 0 {
        Some(
            "width "@ + decimal(width) + " is not "@ + decimal(groups) + " whole groups"@,
        )
    } else {
        None
    }
}

/// The width of one of `groups` groups of a row, or what is wrong with it.
pub fn grouped_rms(width: usize, groups: usize) -> (r: Result<usize, String>)
    ensures
        match r {
            Ok(e) => groups_flaw(width as nat, groups as nat) is None && e * groups == width,
            Err(m) => groups_flaw(width as nat, groups as nat) == Some(m@),
        },
{
    if groups == 0 || width % groups != 0 {
        let mut m: String = String::new();
        m.append("width ");
        push_decimal(&mut m, width as u64);
        m.append(" is not ");
        push_decimal(&mut m, groups as u64);
        m.append(" whole groups");
        return Err(m);
    }
    proof {
        lemma_fundamental_div_mod(width as int, groups as int);
        assert((width as int / groups as int) * groups == groups * (width as int / groups as int))
            by (nonlinear_arith);
    }
    Ok(width / groups)
}

/// What is wrong with a residual of `width` values.
pub open spec fn width_flaw(width: nat, streams: nat, hidden: nat) -> Option<Seq<char>> {
    if width != streams * hidden {
        Some(
            "residual width "@ + decimal(width) + " is not "@ + decimal(streams)
                + " streams of "@ + decimal(hidden),
        )
    } else {
        None
    }
}

/// What is wrong with a residual of `width` values.
pub(crate) fn width_complaint(width: usize, streams: usize, hidden: usize) -> (r: Option<String>)
    requires
        streams * hidden <= usize::MAX,
    ensures
        match r {
            Some(m) => width_flaw(width as nat, streams as nat, hidden as nat) == Some(m@),
            None => width_flaw(width as nat, streams as nat, hidden as nat) is None,
        },
{
    if width != streams * hidden {
        let mut m: String = String::new();
        m.append("residual width ");
        push_decimal(&mut m, width as u64);
        m.append(" is not ");
        push_decimal(&mut m, streams as u64);
        m.append(" streams of ");
        push_decimal(&mut m, hidden as u64);
        return Some(m);
    }
    None
}

/// The size of a three-dimensional tensor.
#[derive(Debug, Clone, Copy, PartialEq, Eq, Structural)]
pub struct Dims3 {
    pub batch: usize,
    pub time: usize,
    pub width: usize,
}

/// What is wrong with writing a block's output back into the streams.
pub open spec fn combine_flaw(res: Dims3, block: Dims3, inject: Dims3, streams: nat) -> Option<
    Seq<char>,
> {
    if block.batch != res.batch || block.time != res.time {
        Some("block output batch/time must match the residual"@)
    } else if width_flaw(res.width as nat, streams, block.width as nat) is Some {
        width_flaw(res.width as nat, streams, block.width as nat)
    } else if inject.batch != res.batch || inject.time != res.time || inject.width != streams {
        Some("inject is one weight per stream"@)
    } else {
        None
    }
}

/// What is wrong with writing a block's output back into the streams.
pub fn combine_complaint(res: Dims3, block: Dims3, inject: Dims3, streams: usize) -> (r: Option<
    String,
>)
    requires
        streams * block.width <= usize::MAX,
    ensures
        match r {
            Some(m) => combine_flaw(res, block, inject, streams as nat) == Some(m@),
            None => combine_flaw(res, block, inject, streams as nat) is None,
        },
{
    if block.batch != res.batch || block.time != res.time {
        return Some("block output batch/time must match the residual".to_owned());
    }
    match width_complaint(res.width, streams, block.width) {
        Some(m) => {
            return Some(m);
        },
        None => {},
    }
    if inject.batch != res.batch || inject.time != res.time || inject.width != streams {
        return Some("inject is one weight per stream".to_owned());
    }
    None
}

/// Which places meet at one residual element: it gains the block output at
/// `output`, weighed by the injection at `inject`.
#[derive(Debug, Clone, Copy, PartialEq, Eq, Structural)]
pub struct Meeting {
    pub output: usize,
    pub inject: usize,
}

/// What meets at residual element `p` of rows of `streams` streams of
/// `hidden` values.
pub open spec fn meeting(p: int, streams: int, hidden: int) -> Meeting {
    let row = p / hidden / streams;
    let stream = p / hidden % streams;
    Meeting {
        output: (row * hidden + p % hidden) as usize,
        inject: (row * streams + stream) as usize,
    }
}

/// A residual element has a row, a stream and a place in it.
proof fn lemma_meeting(p: int, rows: int, streams: int, hidden: int)
    requires
        0 <= p < rows * streams * hidden,
        rows >= 0,
        streams >= 0,
        hidden >= 0,
    ensures
        hidden > 0,
        streams > 0,
        0 <= p / hidden / streams < rows,
        0 <= (p / hidden) % streams < streams,
        0 <= p % hidden < hidden,
        0 <= (p / hidden / streams) * hidden,
        (p / hidden / streams) * hidden + p % hidden < rows * hidden,
        0 <= (p / hidden / streams) * streams,
        (p / hidden / streams) * streams + (p / hidden) % streams < rows * streams,
        ((p / hidden / streams) * streams + (p / hidden) % streams) * hidden + p % hidden == p,
{
    let n = rows * streams;
    assert(hidden > 0) by (nonlinear_arith)
        requires
            0 <= p < n * hidden,
            hidden >= 0,
    ;
    lemma_fundamental_div_mod(p, hidden);
    lemma_mod_bound(p, hidden);
    let q = p / hidden;
    assert(0 <= q < n) by (nonlinear_arith)
        requires
            p == hidden * q + p % hidden,
            0 <= p % hidden < hidden,
            0 <= p < n * hidden,
            hidden > 0,
    ;
    assert(streams > 0) by (nonlinear_arith)
        requires
            0 <= q < rows * streams,
            streams >= 0,
    ;
    lemma_fundamental_div_mod(q, streams);
    lemma_mod_bound(q, streams);
    let r = q / streams;
    assert(0 <= r < rows) by (nonlinear_arith)
        requires
            q == streams * r + q % streams,
            0 <= q % streams < streams,
            0 <= q < rows * streams,
            streams > 0,
    ;
    assert(0 <= r * hidden && r * hidden + p % hidden < rows * hidden) by (nonlinear_arith)
        requires
            0 <= r < rows,
            0 <= p % hidden < hidden,
    ;
    assert(0 <= r * streams && r * streams + q % streams < rows * streams) by (nonlinear_arith)
        requires
            0 <= r < rows,
            0 <= q % streams < streams,
    ;
    assert(r * streams == streams * r) by (nonlinear_arith);
    assert(q * hidden == hidden * q) by (nonlinear_arith);
}

/// Which places meet at every element of a residual of `rows` rows:
/// `res[s] += output * 2 * sigmoid(inject[s] / H)` in every stream `s`.
pub fn hc_combine(rows: usize, streams: usize, hidden: usize) -> (r: Vec<Meeting>)
    requires
        rows * streams * hidden <= usize::MAX,
        rows * streams <= usize::MAX,
        rows * hidden <= usize::MAX,
    ensures
        r@.len() == rows * streams * hidden,
        forall|p: int|
            0 <= p < r@.len() ==> (#[trigger] r@[p]) == meeting(
                p,
                streams as int,
                hidden as int,
            ),
{
    let total: usize = rows * streams * hidden;
    let mut out: Vec<Meeting> = Vec::new();
    let mut p: usize = 0;
    while p < total
        invariant
            total == rows * streams * hidden,
            rows * streams <= usize::MAX,
            rows * hidden <= usize::MAX,
            p <= total,
            out@.len() == p,
            forall|k: int|
                0 <= k < p ==> (#[trigger] out@[k]) == meeting(k, streams as int, hidden as int),
        decreases total - p,
    {
        proof {
            lemma_meeting(p as int, rows as int, streams as int, hidden as int);
        }
        let row: usize = p / hidden / streams;
        let stream: usize = p / hidden % streams;
        out.push(
            Meeting { output: row * hidden + p % hidden, inject: row * streams + stream },
        );
        p += 1;
    }
    out
}

/// The place of element `e` of stream `s` in row `row`.
pub open spec fn stream_place(row: int, s: int, e: int, streams: int, hidden: int) -> int {
    (row * streams + s) * hidden + e
}

/// Every stream of a row gains the same block output, each by a weight of its
/// own: element `e` of stream `s` meets output element `e` of the row and the
/// row's injection `s`.
pub proof fn every_stream_gains_the_output(row: int, s: int, e: int, streams: int, hidden: int)
    requires
        row >= 0,
        0 <= s < streams,
        0 <= e < hidden,
        row * hidden + e <= usize::MAX,
        row * streams + s <= usize::MAX,
    ensures
        meeting(stream_place(row, s, e, streams, hidden), streams, hidden).output == row * hidden
            + e,
        meeting(stream_place(row, s, e, streams, hidden), streams, hidden).inject == row * streams
            + s,
{
    let q = row * streams + s;
    lemma_fundamental_div_mod_converse(q * hidden + e, hidden, q, e);
    lemma_fundamental_div_mod_converse(q, streams, row, s);
    assert(0 <= row * hidden && 0 <= row * streams) by (nonlinear_arith)
        requires
            row >= 0,
            hidden >= 0,
            streams >= 0,
    ;
}

/// One mixer: its sizes, its rank, whether it has an injection, and the
/// epsilon of its norm by bit pattern.
#[derive(Debug, Clone, Copy, PartialEq, Eq, Structural)]
pub struct HyperConnection {
    pub norm: usize,
    pub down: Weight,
    pub up: Weight,
    pub inject: Option<Weight>,
    /// Width of one stream and of the mixed block input.
    pub hidden: usize,
    /// Number of residual streams.
    pub streams: usize,
    pub eps: u64,
}

/// What is wrong with a mixer's weights.
pub open spec fn weights_flaw(
    norm: nat,
    down: Weight,
    up: Weight,
    inject: Option<Weight>,
    hidden: nat,
    streams: nat,
) -> Option<Seq<char>> {
    let width = hidden * streams;
    if norm != width {
        Some("hc norm is [H*E]"@)
    } else if down.inputs != width {
        Some("hc down reads the whole residual"@)
    } else if up.inputs != down.outputs || up.outputs != width {
        Some("hc up maps R back to H*E"@)
    } else if inject is Some && (inject->0.inputs != width || inject->0.outputs != streams) {
        Some("hc inject is H*E -> H"@)
    } else {
        None
    }
}

impl HyperConnection {
    /// The weights fit the streams.
    pub open spec fn wf(self) -> bool {
        &&& self.hidden * self.streams <= usize::MAX
        &&& weights_flaw(
            self.norm as nat,
            self.down,
            self.up,
            self.inject,
            self.hidden as nat,
            self.streams as nat,
        ) is None
    }

    /// Assemble a mixer from its weights, or say which one does not fit.
    pub fn from_weights(
        norm: usize,
        down: Weight,
        up: Weight,
        inject: Option<Weight>,
        hidden: usize,
        streams: usize,
        eps: u64,
    ) -> (r: Result<Self, String>)
        requires
            hidden * streams <= usize::MAX,
        ensures
            match r {
                Ok(hc) => hc.wf() && hc == (HyperConnection {
                    norm,
                    down,
                    up,
                    inject,
                    hidden,
                    streams,
                    eps,
                }) && weights_flaw(norm as nat, down, up, inject, hidden as nat, streams as nat)
                    is None,
                Err(e) => weights_flaw(
                    norm as nat,
                    down,
                    up,
                    inject,
                    hidden as nat,
                    streams as nat,
                ) == Some(e@),
            },
    {
        let width: usize = hidden * streams;
        if norm != width {
            return Err("hc norm is [H*E]".to_owned());
        }
        if down.inputs != width {
            return Err("hc down reads the whole residual".to_owned());
        }
        if up.inputs != down.outputs || up.outputs != width {
            return Err("hc up maps R back to H*E".to_owned());
        }
        match inject {
            Some(w) => {
                if w.inputs != width || w.outputs != streams {
                    return Err("hc inject is H*E -> H".to_owned());
                }
            },
            None => {},
        }
        Ok(HyperConnection { norm, down, up, inject, hidden, streams, eps })
    }

    /// The low rank.
    #[must_use]
    pub fn low_rank(&self) -> (r: usize)
        ensures
            r == self.down.outputs,
    {
        self.down.outputs
    }

    /// The widths that mixing a residual of `width` values gives: the mixed
    /// block input, and the injection where there is one.
    pub fn mix(&self, width: usize) -> (r: Result<(usize, Option<usize>), String>)
        requires
            self.wf(),
        ensures
            match r {
                Ok(d) => width_flaw(width as nat, self.streams as nat, self.hidden as nat) is None
                    && d.0 == self.hidden && d.1 == (if self.inject is Some {
                    Some(self.streams)
                } else {
                    None
                }),
                Err(e) => width_flaw(width as nat, self.streams as nat, self.hidden as nat) == Some(
                    e@,
                ),
            },
    {
        assert(self.streams * self.hidden == self.hidden * self.streams) by (nonlinear_arith);
        match width_complaint(width, self.streams, self.hidden) {
            Some(m) => {
                return Err(m);
            },
            None => {},
        }
        let injected: Option<usize> = match self.inject {
            Some(w) => Some(w.outputs),
            None => None,
        };
        Ok((self.hidden, injected))
    }

    /// The places that are summed into element `e` of a row's mixed input:
    /// that element of every stream.
    pub fn mixed_places(&self, row: usize, e: usize) -> (r: Vec<usize>)
        requires
            self.wf(),
            e < self.hidden,
            (row + 1) * self.hidden * self.streams <= usize::MAX,
        ensures
            r@.len() == self.streams,
            forall|s: int|
                0 <= s < self.streams ==> (#[trigger] r@[s]) == stream_place(
                    row as int,
                    s,
                    e as int,
                    self.streams as int,
                    self.hidden as int,
                ),
    {
        let mut out: Vec<usize> = Vec::new();
        let mut s: usize = 0;
        while s < self.streams
            invariant
                e < self.hidden,
                (row + 1) * self.hidden * self.streams <= usize::MAX,
                s <= self.streams,
                out@.len() == s,
                forall|k: int|
                    0 <= k < s ==> (#[trigger] out@[k]) == stream_place(
                        row as int,
                        k,
                        e as int,
                        self.streams as int,
                        self.hidden as int,
                    ),
            decreases self.streams - s,
        {
            proof {
                let h = self.hidden as int;
                let n = self.streams as int;
                assert(0 <= row * n && row * n + s < (row + 1) * n) by (nonlinear_arith)
                    requires
                        0 <= row,
                        0 <= s < n,
                ;
                assert((row + 1) * h * n == ((row + 1) * n) * h) by (nonlinear_arith);
                let q = row * n + s;
                assert((row + 1) * n <= ((row + 1) * n) * h) by (nonlinear_arith)
                    requires
                        h >= 1,
                        (row + 1) * n >= 0,
                ;
                assert(0 <= q * h && q * h + e < ((row + 1) * n) * h) by (nonlinear_arith)
                    requires
                        0 <= q < (row + 1) * n,
                        0 <= e < h,
                ;
            }
            out.push((row * self.streams + s) * self.hidden + e);
            s += 1;
        }
        out
    }

    /// What is wrong with writing a block's output back into the streams.
    pub fn combine(&self, res: Dims3, block: Dims3, inject: Dims3) -> (r: Option<String>)
        requires
            self.streams * block.width <= usize::MAX,
        ensures
            match r {
                Some(m) => combine_flaw(res, block, inject, self.streams as nat) == Some(m@),
                None => combine_flaw(res, block, inject, self.streams as nat) is None,
            },
    {
        combine_complaint(res, block, inject, self.streams)
    }
}

} // verus!
