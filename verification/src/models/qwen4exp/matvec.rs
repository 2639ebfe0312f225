//! How one expert's weights are multiplied with activation rows: which bytes
//! are read, which runs of weight rows are dequantized at a time, where each
//! product lands, and which activations are rounded first while the stored-type
//! emulation is on. The products themselves are the caller's.

use crate::gguf::GgmlType;
use crate::models::qwen4exp::experts::{
    check_len, chunk_rows, len_refusal, BankKind, ExpertBank, ExpertBytes, LayerExperts, Payload,
    WeightSource, CHUNK_ELEMS,
};
use crate::routing::{transpose, transposed};
use crate::text::decimal;
use vstd::arithmetic::div_mod::{
    lemma_fundamental_div_mod, lemma_fundamental_div_mod_converse, lemma_mod_bound, lemma_small_mod,
};
use vstd::prelude::*;

verus! {

/// A run of whole weight rows, `start .. end`.
#[derive(Debug, Clone, Copy, PartialEq, Eq, Structural)]
pub struct RowChunk {
    pub start: usize,
    pub end: usize,
}

/// The `i`-th run of `rows` rows out of `out_dim`: the last may be shorter.
pub open spec fn row_chunk(i: int, out_dim: int, rows: int) -> RowChunk {
    RowChunk {
        start: (i * rows) as usize,
        end: (if (i + 1) * rows < out_dim {
            (i + 1) * rows
        } else {
            out_dim
        }) as usize,
    }
}

/// How many runs of `rows` rows `out_dim` rows make.
pub open spec fn chunk_count(out_dim: int, rows: int) -> int {
    (out_dim + rows - 1) / rows
}

/// A run that starts below the end is counted, and one that is counted starts
/// below the end.
proof fn lemma_chunk_count(i: int, out_dim: int, rows: int)
    requires
        0 <= i,
        0 <= out_dim,
        1 <= rows,
    ensures
        i * rows < out_dim <==> i < chunk_count(out_dim, rows),
{
    let c = chunk_count(out_dim, rows);
    let x = out_dim + rows - 1;
    lemma_fundamental_div_mod(x, rows);
    lemma_mod_bound(x, rows);
    assert(i * rows < out_dim <==> i < c) by (nonlinear_arith)
        requires
            0 <= i,
            1 <= rows,
            x == out_dim + rows - 1,
            x == rows * c + x % rows,
            0 <= x % rows < rows,
    ;
}

/// The runs of `rows` rows that `out_dim` rows make, in order.
pub fn row_chunks(out_dim: usize, rows: usize) -> (r: Vec<RowChunk>)
    requires
        1 <= rows,
    ensures
        r@ == Seq::new(
            chunk_count(out_dim as int, rows as int) as nat,
            |i: int| row_chunk(i, out_dim as int, rows as int),
        ),
{
    let mut out: Vec<RowChunk> = Vec::new();
    let mut start: usize = 0;
    let ghost mut n: int = 0;
    while start < out_dim
        invariant
            1 <= rows,
            0 <= n,
            n == out@.len(),
            start == (if n * rows < out_dim {
                n * rows
            } else {
                out_dim as int
            }),
            n <= chunk_count(out_dim as int, rows as int),
            forall|i: int|
                0 <= i < n ==> #[trigger] out@[i] == row_chunk(i, out_dim as int, rows as int),
        decreases out_dim - start,
    {
        proof {
            lemma_chunk_count(n, out_dim as int, rows as int);
            assert((n + 1) * rows == n * rows + rows) by (nonlinear_arith);
        }
        let end: usize = if out_dim - start > rows {
            start + rows
        } else {
            out_dim
        };
        out.push(RowChunk { start, end });
        start = end;
        proof {
            n = n + 1;
        }
    }
    proof {
        lemma_chunk_count(n, out_dim as int, rows as int);
        assert(0 <= n * rows) by (nonlinear_arith)
            requires
                0 <= n,
        ;
        assert(out@ =~= Seq::new(
            chunk_count(out_dim as int, rows as int) as nat,
            |i: int| row_chunk(i, out_dim as int, rows as int),
        ));
    }
    out
}

/// Every weight row is in exactly one run, whatever the runs' length: a product
/// does not depend on how the rows were cut.
pub proof fn every_row_is_in_one_chunk(r: int, out_dim: int, rows: int, i: int)
    requires
        0 <= r < out_dim <= usize::MAX,
        1 <= rows,
        0 <= i < chunk_count(out_dim, rows),
    ensures
        0 <= r / rows < chunk_count(out_dim, rows),
        row_chunk(i, out_dim, rows).start <= r < row_chunk(i, out_dim, rows).end <==> i == r
            / rows,
{
    lemma_fundamental_div_mod(r, rows);
    lemma_mod_bound(r, rows);
    let q = r / rows;
    assert(0 <= q) by (nonlinear_arith)
        requires
            0 <= r,
            1 <= rows,
            r == rows * q + r % rows,
            r % rows < rows,
    ;
    assert(q * rows == rows * q) by (nonlinear_arith);
    assert((q + 1) * rows == q * rows + rows) by (nonlinear_arith);
    lemma_chunk_count(q, out_dim, rows);
    lemma_chunk_count(i, out_dim, rows);
    assert(0 <= i * rows) by (nonlinear_arith)
        requires
            0 <= i,
            1 <= rows,
    ;
    assert((i + 1) * rows == i * rows + rows) by (nonlinear_arith);
    if i < q {
        assert((i + 1) * rows <= q * rows) by (nonlinear_arith)
            requires
                i + 1 <= q,
                1 <= rows,
        ;
    }
    if i > q {
        assert((q + 1) * rows <= i * rows) by (nonlinear_arith)
            requires
                q + 1 <= i,
                1 <= rows,
        ;
    }
}

/// Products by weight row, `n` tokens each, moved to rows by token.
pub fn token_major(by_row: Vec<u32>, out_dim: usize, n: usize) -> (r: Vec<u32>)
    requires
        by_row@.len() == out_dim * n,
    ensures
        r@ == transposed(by_row@, out_dim as int, n as int),
{
    if n == 1 {
        proof {
            assert(out_dim * n == out_dim) by (nonlinear_arith)
                requires
                    n == 1,
            ;
            assert forall|i: int| 0 <= i < by_row@.len() implies #[trigger] by_row@[i]
                == transposed(by_row@, out_dim as int, n as int)[i] by {
                lemma_small_mod(i as nat, out_dim as nat);
                lemma_fundamental_div_mod_converse(i, out_dim as int, 0, i);
                assert(i * 1 == i) by (nonlinear_arith);
            }
            assert(by_row@ =~= transposed(by_row@, out_dim as int, n as int));
        }
        return by_row;
    }
    transpose(&by_row, out_dim, n)
}

/// The product of weight row `row` with token `t` stands at `row` of token
/// `t`'s output.
pub proof fn products_land_by_token(by_row: Seq<u32>, out_dim: int, n: int, row: int, t: int)
    requires
        0 <= row < out_dim,
        0 <= t < n,
        by_row.len() == out_dim * n,
    ensures
        0 <= t * out_dim + row < transposed(by_row, out_dim, n).len(),
        transposed(by_row, out_dim, n)[t * out_dim + row] == by_row[row * n + t],
{
    lemma_fundamental_div_mod_converse(t * out_dim + row, out_dim, t, row);
    assert(0 <= t * out_dim + row < out_dim * n) by (nonlinear_arith)
        requires
            0 <= row < out_dim,
            0 <= t < n,
    ;
}

/// What multiplying one expert's bank with activation rows takes: the stored
/// bytes and the runs of rows in which they are dequantized.
#[derive(Debug)]
pub struct Matvec {
    pub bytes: ExpertBytes,
    pub chunks: Vec<RowChunk>,
}

/// The runs in which `out_dim` rows of `in_dim` weights are multiplied.
pub open spec fn chunks_for(in_dim: int, out_dim: int) -> Seq<RowChunk> {
    let rows = if in_dim > CHUNK_ELEMS {
        1
    } else {
        CHUNK_ELEMS as int / in_dim
    };
    Seq::new(chunk_count(out_dim, rows) as nat, |i: int| row_chunk(i, out_dim, rows))
}

impl ExpertBank {
    /// Why expert `e` cannot be multiplied with `n` rows given as `values`
    /// values.
    pub open spec fn matvec_refusal(self, e: nat, values: nat, n: nat) -> Option<Seq<char>> {
        if len_refusal("matvec input"@, values, n, self.in_dim as nat) is Some {
            len_refusal("matvec input"@, values, n, self.in_dim as nat)
        } else if e >= self.n_experts {
            Some(
                "expert "@ + decimal(e) + " out of range (bank has "@ + decimal(
                    self.n_experts as nat,
                ) + ")"@,
            )
        } else {
            None
        }
    }

    /// What multiplying expert `e` with `n` rows takes; nothing where there
    /// are no rows.
    pub fn matvec(&self, e: usize, values: usize, n: usize) -> (r: Result<Option<Matvec>, String>)
        requires
            self.wf(),
        ensures
            match r {
                Err(m) => self.matvec_refusal(e as nat, values as nat, n as nat) == Some(m@),
                Ok(None) => self.matvec_refusal(e as nat, values as nat, n as nat) is None && n == 0,
                Ok(Some(plan)) => {
                    &&& self.matvec_refusal(e as nat, values as nat, n as nat) is None
                    &&& n > 0
                    &&& self.holds(e as int, plan.bytes)
                    &&& plan.chunks@ == chunks_for(self.in_dim as int, self.out_dim as int)
                },
            },
    {
        match check_len("matvec input", values, n, self.in_dim) {
            Ok(_) => {},
            Err(m) => {
                return Err(m);
            },
        }
        match self.expert_bytes(e) {
            Err(m) => Err(m),
            Ok(bytes) => {
                if n == 0 {
                    return Ok(None);
                }
                let rows: usize = chunk_rows(self.in_dim);
                Ok(Some(Matvec { bytes, chunks: row_chunks(self.out_dim, rows) }))
            },
        }
    }

    /// `got` are the bytes of expert `e`, or the read that gives them.
    pub open spec fn holds(self, e: int, got: ExpertBytes) -> bool {
        match (self.payload, got) {
            (Payload::Memory(b), ExpertBytes::Bytes(v)) => v@
                == b@.subrange(e * self.expert_len(), e * self.expert_len() + self.expert_len()),
            (
                Payload::File { path, offset },
                ExpertBytes::Read { offset: at, len },
            ) => at == offset + e * self.expert_len() && len == self.expert_len(),
            _ => false,
        }
    }
}

/// A dequantized expert's matrix: its sizes and the runs of its rows.
#[derive(Debug)]
pub struct DenseMatvec {
    pub in_dim: usize,
    pub out_dim: usize,
    pub chunks: Vec<RowChunk>,
}

/// The width of what a bank of a kind reads.
pub open spec fn reads(kind: BankKind, hidden: usize, ffn: usize) -> usize {
    match kind {
        BankKind::Down => ffn,
        _ => hidden,
    }
}

/// The width of what a bank of a kind gives.
pub open spec fn gives(kind: BankKind, hidden: usize, ffn: usize) -> usize {
    match kind {
        BankKind::Down => hidden,
        _ => ffn,
    }
}

/// What multiplying a cached expert's matrix with `n` rows takes; nothing
/// where there are no rows.
pub fn dense_matvec(kind: BankKind, hidden: usize, ffn: usize, values: usize, n: usize) -> (r:
    Result<Option<DenseMatvec>, String>)
    requires
        hidden > 0,
        ffn > 0,
    ensures
        ({
            let width = reads(kind, hidden, ffn);
            let refusal = len_refusal("expert input"@, values as nat, n as nat, width as nat);
            match r {
                Err(m) => refusal == Some(m@),
                Ok(None) => refusal is None && n == 0,
                Ok(Some(plan)) => {
                    &&& refusal is None
                    &&& n > 0
                    &&& plan.in_dim == width
                    &&& plan.out_dim == gives(kind, hidden, ffn)
                    &&& plan.chunks@ == chunks_for(plan.in_dim as int, plan.out_dim as int)
                },
            }
        }),
{
    let (in_dim, out_dim): (usize, usize) = match kind {
        BankKind::Down => (ffn, hidden),
        _ => (hidden, ffn),
    };
    match check_len("expert input", values, n, in_dim) {
        Ok(_) => {},
        Err(m) => {
            return Err(m);
        },
    }
    if n == 0 {
        return Ok(None);
    }
    let rows: usize = chunk_rows(in_dim);
    Ok(Some(DenseMatvec { in_dim, out_dim, chunks: row_chunks(out_dim, rows) }))
}

/// The grid that an activation row is rounded to before a bank reads it.
#[derive(Debug, Clone, Copy, PartialEq, Eq, Structural)]
pub struct ActivationGrid {
    pub width: usize,
    pub dtype: GgmlType,
}

/// What the emulation does to one expert's step.
#[derive(Debug, Clone, Copy, PartialEq, Eq, Structural)]
pub struct FfnEmulation {
    pub gate: Option<ActivationGrid>,
    pub up: Option<ActivationGrid>,
    pub down: Option<ActivationGrid>,
    /// Add the rounding of the block sums that the minima are multiplied by.
    pub min_rounding: bool,
}

/// The grid of a bank, where the stored weights are read under emulation.
pub open spec fn grid_of(layer: LayerExperts, kind: BankKind, on: bool) -> Option<ActivationGrid> {
    if on {
        Some(
            ActivationGrid { width: layer.bank_of(kind).in_dim, dtype: layer.bank_of(kind).dtype },
        )
    } else {
        None
    }
}

/// The grid of a bank, where the stored weights are read under emulation.
fn grid(layer: &LayerExperts, kind: BankKind, on: bool) -> (r: Option<ActivationGrid>)
    ensures
        r == grid_of(*layer, kind, on),
{
    if on {
        let b: &ExpertBank = layer.bank(kind);
        Some(ActivationGrid { width: b.in_dim(), dtype: b.dtype() })
    } else {
        None
    }
}

/// What the emulation does to one expert's step: only the stored banks know
/// their type, so nothing is rounded for a dequantized expert.
pub fn ffn(layer: &LayerExperts, source: WeightSource, emulating: bool) -> (r: FfnEmulation)
    ensures
        ({
            let on = emulating && source == WeightSource::Quantized;
            r == (FfnEmulation {
                gate: grid_of(*layer, BankKind::Gate, on),
                up: grid_of(*layer, BankKind::Up, on),
                down: grid_of(*layer, BankKind::Down, on),
                min_rounding: on && layer.down.dtype == GgmlType::Q51,
            })
        }),
{
    let on: bool = emulating && source == WeightSource::Quantized;
    FfnEmulation {
        gate: grid(layer, BankKind::Gate, on),
        up: grid(layer, BankKind::Up, on),
        down: grid(layer, BankKind::Down, on),
        min_rounding: on && layer.down.dtype() == GgmlType::Q51,
    }
}

/// Bytes of one stored block of thirty-two five-bit values: a half-precision
/// step, a half-precision minimum, the fifth bits and the nibbles.
pub const Q5_1_BLOCK: usize = 24;

/// The minimum of the `i`-th block, by bit pattern.
pub open spec fn min_of(bytes: Seq<u8>, i: int) -> int {
    bytes[i * 24 + 2] + 256 * bytes[i * 24 + 3]
}

/// The minima of the whole blocks in `bytes`, by bit pattern.
pub fn block_minima(bytes: &Vec<u8>) -> (r: Vec<u16>)
    ensures
        r@.len() == bytes@.len() / 24,
        forall|i: int| 0 <= i < r@.len() ==> #[trigger] r@[i] == min_of(bytes@, i),
{
    let blocks: usize = bytes.len() / Q5_1_BLOCK;
    let mut out: Vec<u16> = Vec::new();
    let mut i: usize = 0;
    while i < blocks
        invariant
            blocks == bytes@.len() / 24,
            i <= blocks,
            out@.len() == i,
            forall|k: int| 0 <= k < i ==> #[trigger] out@[k] == min_of(bytes@, k),
        decreases blocks - i,
    {
        assert(bytes.len() == bytes@.len());
        let at: usize = i * Q5_1_BLOCK;
        out.push(bytes[at + 2] as u16 + 256 * bytes[at + 3] as u16);
        i += 1;
    }
    out
}

} // verus!
