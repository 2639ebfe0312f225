//! The PLE table: fixed-width rows of one storage type, addressed row by
//! row, and the payload files it may live in.

use crate::gguf::{dims_product, GgmlType, GgufFile, GgufTensorInfo};
use crate::models::qwen4exp::ple::{vocab_sum, PleHash};
use crate::text::{decimal, list_text, push_decimal, push_list};
use std::ops::Range;
use vstd::arithmetic::div_mod::{
    lemma_div_by_multiple, lemma_div_is_ordered, lemma_div_multiples_vanish,
    lemma_fundamental_div_mod, lemma_mod_bound, lemma_mod_multiples_basic,
};
use vstd::arithmetic::mul::{lemma_mul_inequality, lemma_mul_is_commutative};
use vstd::prelude::*;

verus! {

/// The name of the PLE table tensor.
pub const PLE_TABLE_TENSOR: &'static str = "per_layer_token_embd.weight";

/// One payload file: where its payloads start, how long the file is, and
/// which run of the tensor directory it holds.
#[derive(Debug)]
pub struct PayloadShard {
    pub path: String,
    pub len: u64,
    pub data_offset: u64,
    pub tensors: Range<usize>,
}

/// The payload files of a (possibly split) GGUF.
#[derive(Debug)]
pub struct GgufPayloadFiles {
    pub shards: Vec<PayloadShard>,
}

/// The first shard from `from` on that holds tensor `index`.
pub open spec fn owner_from(shards: Seq<PayloadShard>, index: int, from: int) -> Option<int>
    decreases shards.len() - from,
{
    if from < 0 || from >= shards.len() {
        None
    } else if shards[from].tensors.start <= index < shards[from].tensors.end {
        Some(from)
    } else {
        owner_from(shards, index, from + 1)
    }
}

/// The runs of the tensor directory that the payload files of `f` hold: the
/// whole directory for a single file, each shard's own run for a split set.
pub open spec fn payload_runs(f: GgufFile) -> Seq<(Seq<char>, u64, int, int)> {
    if f.shards@.len() == 0 {
        seq![(f.path@, f.data_offset, 0int, f.tensors@.len() as int)]
    } else {
        Seq::new(
            f.shards@.len(),
            |i: int|
                (
                    f.shards@[i].path@,
                    f.shards@[i].data_offset,
                    f.shards@[i].tensors.start as int,
                    f.shards@[i].tensors.end as int,
                ),
        )
    }
}

/// Where tensor `index` of `f` lies: its shard and the absolute start of its
/// payload, or why it cannot be read.
pub open spec fn location(shards: Seq<PayloadShard>, f: GgufFile, index: nat) -> Result<
    (usize, u64),
    Seq<char>,
> {
    if index >= f.tensors@.len() {
        Err("tensor index "@ + decimal(index) + " out of range"@)
    } else {
        let info = f.tensors@[index as int];
        match owner_from(shards, index as int, 0) {
            None => Err("tensor "@ + info.name@ + " belongs to no open shard"@),
            Some(slot) => {
                let shard = shards[slot];
                let start = shard.data_offset + info.offset;
                let end = start + info.payload_bytes();
                if start > u64::MAX {
                    Err("payload offset overflows u64"@)
                } else if !info.sized() || end > u64::MAX {
                    Err("payload end overflows u64"@)
                } else if shard.len < end {
                    Err(
                        shard.path@ + " is "@ + decimal(shard.len as nat) + " bytes but "@
                            + info.name@ + " needs bytes up to "@ + decimal(end as nat),
                    )
                } else {
                    Ok((slot as usize, start as u64))
                }
            },
        }
    }
}

impl GgufPayloadFiles {
    /// The payload files of `f`, whose lengths are `lens` in file order.
    pub fn open(f: &GgufFile, lens: &Vec<u64>) -> (r: Self)
        requires
            lens@.len() == payload_runs(*f).len(),
        ensures
            r.shards@.len() == lens@.len(),
            forall|i: int|
                0 <= i < r.shards@.len() ==> {
                    let s = #[trigger] r.shards@[i];
                    s.len == lens@[i] && payload_runs(*f)[i] == (
                        s.path@,
                        s.data_offset,
                        s.tensors.start as int,
                        s.tensors.end as int,
                    )
                },
    {
        let mut shards: Vec<PayloadShard> = Vec::new();
        if f.shards.len() == 0 {
            shards.push(
                PayloadShard {
                    path: f.path.clone(),
                    len: lens[0],
                    data_offset: f.data_offset,
                    tensors: Range { start: 0, end: f.tensors.len() },
                },
            );
        } else {
            let mut i: usize = 0;
            while i < f.shards.len()
                invariant
                    i <= f.shards@.len(),
                    f.shards@.len() > 0,
                    lens@.len() == payload_runs(*f).len(),
                    shards@.len() == i,
                    forall|k: int|
                        0 <= k < i ==> {
                            let s = #[trigger] shards@[k];
                            s.len == lens@[k] && payload_runs(*f)[k] == (
                                s.path@,
                                s.data_offset,
                                s.tensors.start as int,
                                s.tensors.end as int,
                            )
                        },
                decreases f.shards@.len() - i,
            {
                let s = &f.shards[i];
                shards.push(
                    PayloadShard {
                        path: s.path.clone(),
                        len: lens[i],
                        data_offset: s.data_offset,
                        tensors: Range { start: s.tensors.start, end: s.tensors.end },
                    },
                );
                i += 1;
            }
        }
        GgufPayloadFiles { shards }
    }

    /// The shard that holds tensor `index`.
    pub fn owner(&self, index: usize) -> (r: Option<usize>)
        ensures
            match r {
                Some(slot) => slot < self.shards@.len() && owner_from(
                    self.shards@,
                    index as int,
                    0,
                ) == Some(slot as int),
                None => owner_from(self.shards@, index as int, 0) is None,
            },
    {
        let mut slot: usize = 0;
        while slot < self.shards.len()
            invariant
                slot <= self.shards@.len(),
                owner_from(self.shards@, index as int, 0) == owner_from(
                    self.shards@,
                    index as int,
                    slot as int,
                ),
            decreases self.shards@.len() - slot,
        {
            let run = &self.shards[slot].tensors;
            if run.start <= index && index < run.end {
                return Some(slot);
            }
            slot += 1;
        }
        None
    }

    /// `(shard slot, absolute payload start)` of tensor `index` of `f`, after
    /// checking the owning file really holds the whole payload: a truncated
    /// shard would otherwise surface as a short read mid-generation.
    pub fn locate(&self, f: &GgufFile, index: usize) -> (r: Result<(usize, u64), String>)
        ensures
            match r {
                Ok(at) => location(self.shards@, *f, index as nat) == Ok::<_, Seq<char>>(at),
                Err(e) => location(self.shards@, *f, index as nat) == Err::<(usize, u64), _>(e@),
            },
    {
        if index >= f.tensors.len() {
            let mut m: String = String::new();
            m.append("tensor index ");
            push_decimal(&mut m, index as u64);
            m.append(" out of range");
            return Err(m);
        }
        let info: &GgufTensorInfo = &f.tensors[index];
        let slot: usize = match self.owner(index) {
            Some(s) => s,
            None => {
                let mut m: String = String::new();
                m.append("tensor ");
                m.append(info.name.as_str());
                m.append(" belongs to no open shard");
                return Err(m);
            },
        };
        let shard = &self.shards[slot];
        let start: u64 = match shard.data_offset.checked_add(info.offset) {
            Some(s) => s,
            None => {
                return Err("payload offset overflows u64".to_owned());
            },
        };
        let bytes: u64 = match info.byte_len() {
            Some(n) => n,
            None => {
                return Err("payload end overflows u64".to_owned());
            },
        };
        let end: u64 = match start.checked_add(bytes) {
            Some(n) => n,
            None => {
                return Err("payload end overflows u64".to_owned());
            },
        };
        if shard.len < end {
            let mut m: String = shard.path.clone();
            m.append(" is ");
            push_decimal(&mut m, shard.len);
            m.append(" bytes but ");
            m.append(info.name.as_str());
            m.append(" needs bytes up to ");
            push_decimal(&mut m, end);
            return Err(m);
        }
        Ok((slot, start))
    }
}

/// `(elements, bytes)` of one row of `width` elements, or why such a row
/// cannot be read on its own: it must be whole blocks.
pub open spec fn row_layout_of(dtype: GgmlType, width: nat) -> Result<(nat, nat), Seq<char>> {
    if width == 0 || width % dtype.block() != 0 {
        Err(
            "a "@ + decimal(width) + "-element row is not whole "@ + dtype.name_text()
                + " blocks of "@ + decimal(dtype.block()),
        )
    } else {
        Ok((width, width / dtype.block() * dtype.block_bytes()))
    }
}

/// `(elements, bytes)` of one row of `width` elements of `dtype`, refusing a
/// row that is not whole blocks (it could not be read independently).
pub fn row_layout(dtype: GgmlType, width: usize) -> (r: Result<(usize, usize), String>)
    requires
        width / dtype.block() as usize * dtype.block_bytes() <= usize::MAX,
    ensures
        match r {
            Ok(l) => row_layout_of(dtype, width as nat) == Ok::<_, Seq<char>>(
                (l.0 as nat, l.1 as nat),
            ),
            Err(e) => row_layout_of(dtype, width as nat) == Err::<(nat, nat), _>(e@),
        },
{
    let block: usize = dtype.block_size();
    let bpb: usize = dtype.bytes_per_block();
    if width == 0 || width % block != 0 {
        let mut m: String = String::new();
        m.append("a ");
        push_decimal(&mut m, width as u64);
        m.append("-element row is not whole ");
        m.append(dtype.name());
        m.append(" blocks of ");
        push_decimal(&mut m, block as u64);
        return Err(m);
    }
    Ok((width, width / block * bpb))
}

/// Where the table's bytes are.
#[derive(Debug)]
pub enum TableSource {
    /// In payload file `slot`, from absolute byte `start` on.
    File { slot: usize, start: u64 },
    /// In memory.
    Memory(Vec<u8>),
}

/// What a gather of rows comes to.
#[derive(Debug)]
pub enum Gathered {
    /// The stored bytes of the rows, concatenated in request order.
    Bytes(Vec<u8>),
    /// One read of a whole row per requested row, at these absolute offsets
    /// of payload file `slot`, in request order.
    Reads { slot: usize, offsets: Vec<u64> },
}

/// The PLE table: fixed-width rows of one storage type, gathered row by row.
#[derive(Debug)]
pub struct PleTable {
    pub source: TableSource,
    pub dtype: GgmlType,
    /// Elements per row.
    pub row_width: usize,
    /// Bytes per row.
    pub row_bytes: usize,
    /// Rows the table stores (padding included).
    pub rows: u64,
    /// Rows a lookup may address.
    pub row_bound: u64,
}

/// The first of `rows` from `from` on that lies at or past `bound`.
pub open spec fn first_past(rows: Seq<u64>, bound: u64, from: int) -> Option<int>
    decreases rows.len() - from,
{
    if from < 0 || from >= rows.len() {
        None
    } else if rows[from] >= bound {
        Some(from)
    } else {
        first_past(rows, bound, from + 1)
    }
}

/// No row at or past the bound: every row is below it.
proof fn lemma_none_past(rows: Seq<u64>, bound: u64, from: int)
    requires
        0 <= from,
        first_past(rows, bound, from) is None,
    ensures
        forall|i: int| from <= i < rows.len() ==> #[trigger] rows[i] < bound,
    decreases rows.len() - from,
{
    if from < rows.len() {
        lemma_none_past(rows, bound, from + 1);
    }
}

/// The stored bytes of `rows`, concatenated.
pub open spec fn rows_bytes(bytes: Seq<u8>, row_bytes: nat, rows: Seq<u64>) -> Seq<u8>
    decreases rows.len(),
{
    if rows.len() == 0 {
        Seq::empty()
    } else {
        rows_bytes(bytes, row_bytes, rows.drop_last()) + bytes.subrange(
            rows.last() * row_bytes as int,
            rows.last() * row_bytes as int + row_bytes,
        )
    }
}

impl PleTable {
    /// Every addressable row lies inside the stored payload.
    pub open spec fn wf(self) -> bool {
        &&& self.rows > 0
        &&& 1 <= self.row_bound <= self.rows
        &&& row_layout_of(self.dtype, self.row_width as nat) == Ok::<_, Seq<char>>(
            (self.row_width as nat, self.row_bytes as nat),
        )
        &&& match self.source {
            TableSource::File { slot, start } => start + self.rows * self.row_bytes <= u64::MAX,
            TableSource::Memory(b) => b@.len() == self.rows * self.row_bytes,
        }
    }

    /// Why a bound is refused.
    pub open spec fn bound_refusal(self, bound: u64) -> Option<Seq<char>> {
        if bound == 0 || bound > self.rows {
            Some(
                "PLE row bound "@ + decimal(bound as nat) + " must be in 1..="@ + decimal(
                    self.rows as nat,
                ) + " (the stored rows)"@,
            )
        } else {
            None
        }
    }

    /// Why a gather of `rows` into `outputs` elements is refused.
    pub open spec fn gather_refusal(self, rows: Seq<u64>, outputs: nat) -> Option<Seq<char>> {
        if outputs != rows.len() * self.row_width {
            Some(
                "gather of "@ + decimal(rows.len()) + " rows needs "@ + decimal(
                    (rows.len() * self.row_width) as nat,
                ) + " outputs, got "@ + decimal(outputs),
            )
        } else {
            match first_past(rows, self.row_bound, 0) {
                None => None,
                Some(i) => Some(
                    "PLE row "@ + decimal(rows[i] as nat) + " is past the "@ + decimal(
                        self.row_bound as nat,
                    ) + "-row hash range"@,
                ),
            }
        }
    }

    /// What a gather of `rows` that is not refused gives.
    pub open spec fn gathers(self, rows: Seq<u64>, g: Gathered) -> bool {
        match (self.source, g) {
            (TableSource::Memory(b), Gathered::Bytes(out)) => out@ == rows_bytes(
                b@,
                self.row_bytes as nat,
                rows,
            ),
            (TableSource::File { slot, start }, Gathered::Reads { slot: s, offsets }) => {
                &&& s == slot
                &&& offsets@.len() == rows.len()
                &&& forall|i: int|
                    0 <= i < rows.len() ==> (#[trigger] offsets@[i]) == start + rows[i]
                        * self.row_bytes
            },
            _ => false,
        }
    }

    /// Restrict lookups to rows below `bound` (must not exceed the stored
    /// rows). A stored table may be padded; the pad rows are never valid hash
    /// outputs.
    pub fn with_row_bound(self, bound: u64) -> (r: Result<Self, String>)
        ensures
            match r {
                Ok(t) => self.bound_refusal(bound) is None && t == (PleTable {
                    row_bound: bound,
                    ..self
                }),
                Err(e) => self.bound_refusal(bound) == Some(e@),
            },
    {
        if bound == 0 || bound > self.rows {
            let mut m: String = String::new();
            m.append("PLE row bound ");
            push_decimal(&mut m, bound);
            m.append(" must be in 1..=");
            push_decimal(&mut m, self.rows);
            m.append(" (the stored rows)");
            return Err(m);
        }
        Ok(
            PleTable {
                source: self.source,
                dtype: self.dtype,
                row_width: self.row_width,
                row_bytes: self.row_bytes,
                rows: self.rows,
                row_bound: bound,
            },
        )
    }

    /// Elements per row.
    pub fn row_width(&self) -> (r: usize)
        ensures
            r == self.row_width,
    {
        self.row_width
    }

    /// Rows a lookup may address.
    pub fn row_bound(&self) -> (r: u64)
        ensures
            r == self.row_bound,
    {
        self.row_bound
    }

    /// The stored type.
    pub fn dtype(&self) -> (r: GgmlType)
        ensures
            r == self.dtype,
    {
        self.dtype
    }

    /// The rows in request order: their stored bytes for a table in memory,
    /// the reads to make for one in a file. `outputs` is how many elements
    /// the caller has room for. A row at or past the bound is an error.
    pub fn gather(&self, rows: &[u64], outputs: usize) -> (r: Result<Gathered, String>)
        requires
            self.wf(),
            rows@.len() * self.row_width <= usize::MAX,
            rows@.len() * self.row_bytes <= usize::MAX,
        ensures
            match r {
                Ok(g) => self.gather_refusal(rows@, outputs as nat) is None && self.gathers(
                    rows@,
                    g,
                ),
                Err(e) => self.gather_refusal(rows@, outputs as nat) == Some(e@),
            },
    {
        if outputs != rows.len() * self.row_width {
            let mut m: String = String::new();
            m.append("gather of ");
            push_decimal(&mut m, rows.len() as u64);
            m.append(" rows needs ");
            push_decimal(&mut m, (rows.len() * self.row_width) as u64);
            m.append(" outputs, got ");
            push_decimal(&mut m, outputs as u64);
            return Err(m);
        }
        let mut i: usize = 0;
        while i < rows.len()
            invariant
                i <= rows@.len(),
                outputs == rows@.len() * self.row_width,
                first_past(rows@, self.row_bound, 0) == first_past(
                    rows@,
                    self.row_bound,
                    i as int,
                ),
            decreases rows@.len() - i,
        {
            if rows[i] >= self.row_bound {
                let mut m: String = String::new();
                m.append("PLE row ");
                push_decimal(&mut m, rows[i]);
                m.append(" is past the ");
                push_decimal(&mut m, self.row_bound);
                m.append("-row hash range");
                return Err(m);
            }
            i += 1;
        }
        proof {
            lemma_none_past(rows@, self.row_bound, 0);
        }
        match &self.source {
            TableSource::Memory(b) => Ok(Gathered::Bytes(self.copy_rows(b, rows))),
            TableSource::File { slot, start } => {
                let mut offsets: Vec<u64> = Vec::new();
                let mut k: usize = 0;
                while k < rows.len()
                    invariant
                        k <= rows@.len(),
                        self.row_bound <= self.rows,
                        start + self.rows * self.row_bytes <= u64::MAX,
                        forall|j: int| 0 <= j < rows@.len() ==> #[trigger] rows@[j]
                            < self.row_bound,
                        offsets@.len() == k,
                        forall|j: int|
                            0 <= j < k ==> (#[trigger] offsets@[j]) == start + rows@[j]
                                * self.row_bytes,
                    decreases rows@.len() - k,
                {
                    let row: u64 = rows[k];
                    proof {
                        assert(rows@[k as int] < self.row_bound);
                        lemma_mul_inequality(row as int, self.rows as int, self.row_bytes as int);
                        assert(0 <= row * self.row_bytes) by (nonlinear_arith);
                    }
                    offsets.push(*start + row * self.row_bytes as u64);
                    k += 1;
                }
                Ok(Gathered::Reads { slot: *slot, offsets })
            },
        }
    }

    /// Concatenate the stored bytes of `rows`, all of them in range.
    fn copy_rows(&self, bytes: &Vec<u8>, rows: &[u64]) -> (out: Vec<u8>)
        requires
            bytes@.len() == self.rows * self.row_bytes,
            forall|i: int| 0 <= i < rows@.len() ==> #[trigger] rows@[i] < self.rows,
        ensures
            out@ == rows_bytes(bytes@, self.row_bytes as nat, rows@),
    {
        let mut out: Vec<u8> = Vec::new();
        let mut k: usize = 0;
        assert(rows@.take(0) =~= Seq::<u64>::empty());
        while k < rows.len()
            invariant
                k <= rows@.len(),
                bytes@.len() == self.rows * self.row_bytes,
                forall|i: int| 0 <= i < rows@.len() ==> #[trigger] rows@[i] < self.rows,
                out@ == rows_bytes(bytes@, self.row_bytes as nat, rows@.take(k as int)),
            decreases rows@.len() - k,
        {
            let row: u64 = rows[k];
            proof {
                assert(rows@[k as int] < self.rows);
                lemma_mul_inequality(row + 1, self.rows as int, self.row_bytes as int);
                assert((row + 1) * self.row_bytes == row * self.row_bytes + self.row_bytes)
                    by (nonlinear_arith);
                assert(0 <= row * self.row_bytes) by (nonlinear_arith);
                assert(bytes.len() == bytes@.len());
            }
            let at: usize = (row * self.row_bytes as u64) as usize;
            let end: usize = at + self.row_bytes;
            let ghost before = out@;
            let mut j: usize = at;
            while j < end
                invariant
                    at <= j <= end <= bytes@.len(),
                    out@ == before + bytes@.subrange(at as int, j as int),
                decreases end - j,
            {
                out.push(bytes[j]);
                assert(bytes@.subrange(at as int, j + 1) =~= bytes@.subrange(
                    at as int,
                    j as int,
                ).push(bytes@[j as int]));
                j += 1;
            }
            proof {
                let next = rows@.take(k + 1);
                assert(next.drop_last() =~= rows@.take(k as int));
                assert(next.last() == row);
            }
            k += 1;
        }
        assert(rows@.take(k as int) =~= rows@);
        out
    }

    /// The rows of each token of a span following `history` (see
    /// [`PleHash::rows_for_span`]), gathered: token-major, head-major within
    /// a token.
    pub fn embed(&self, hash: &PleHash, history: &[u32], tokens: &[u32]) -> (r: Result<
        Gathered,
        String,
    >)
        requires
            self.wf(),
            hash.wf(),
            tokens@.len() * hash.head_vocab_sizes@.len() * self.row_width <= usize::MAX,
            tokens@.len() * hash.head_vocab_sizes@.len() * self.row_bytes <= usize::MAX,
        ensures
            match r {
                Ok(g) => {
                    &&& vocab_sum(hash.head_vocab_sizes@) <= self.row_bound
                    &&& exists|rows: Seq<u64>|
                        {
                            &&& #[trigger] rows.len() == hash.span_rows(history@, tokens@).len()
                            &&& forall|k: int|
                                0 <= k < rows.len() ==> (#[trigger] rows[k]) == hash.span_rows(
                                    history@,
                                    tokens@,
                                )[k]
                            &&& self.gathers(rows, g)
                        }
                },
                Err(e) => vocab_sum(hash.head_vocab_sizes@) > self.row_bound && e@
                    == "PLE hash addresses "@ + decimal(vocab_sum(hash.head_vocab_sizes@))
                    + " rows but the table allows "@ + decimal(self.row_bound as nat),
            },
    {
        proof {
            hash.wf_bounds();
        }
        let total: u64 = hash.total_rows();
        if total > self.row_bound {
            let mut m: String = String::new();
            m.append("PLE hash addresses ");
            push_decimal(&mut m, total);
            m.append(" rows but the table allows ");
            push_decimal(&mut m, self.row_bound);
            return Err(m);
        }
        let rows: Vec<u64> = hash.rows_for_span(history, tokens);
        let outputs: usize = rows.len() * self.row_width;
        let got: Result<Gathered, String> = self.gather(rows.as_slice(), outputs);
        proof {
            let n = hash.head_vocab_sizes@.len() as int;
            assert forall|k: int| 0 <= k < rows@.len() implies (#[trigger] rows@[k])
                < self.row_bound by {
                lemma_fundamental_div_mod(k, n);
                let i = k / n;
                let h = k % n;
                lemma_mod_bound(k, n);
                assert(0 <= i < tokens@.len()) by (nonlinear_arith)
                    requires
                        0 <= k < tokens@.len() * n,
                        k == n * i + h,
                        0 <= h < n,
                ;
                assert(i * n + h == k) by (nonlinear_arith)
                    requires
                        k == n * i + h,
                ;
                hash.rows_stay_in_their_slices(history@, tokens@, i, h);
            }
            lemma_all_below(rows@, self.row_bound, 0);
        }
        got
    }
}

/// Rows that are all below the bound have no first one past it.
proof fn lemma_all_below(rows: Seq<u64>, bound: u64, from: int)
    requires
        0 <= from,
        forall|i: int| from <= i < rows.len() ==> #[trigger] rows[i] < bound,
    ensures
        first_past(rows, bound, from) is None,
    decreases rows.len() - from,
{
    if from < rows.len() {
        assert(rows[from] < bound);
        lemma_all_below(rows, bound, from + 1);
    }
}

/// Why `len` bytes cannot be a table of `rows` rows of `dtype`.
pub open spec fn bytes_refusal(len: nat, dtype: GgmlType, rows: u64) -> Option<Seq<char>> {
    if rows > usize::MAX {
        Some("row count does not fit usize"@)
    } else if rows == 0 || len == 0 || len % rows as nat != 0 {
        Some(decimal(len) + " bytes is not "@ + decimal(rows as nat) + " whole rows"@)
    } else if (len / rows as nat) % dtype.block_bytes() != 0 {
        Some(
            "a "@ + decimal(len / rows as nat) + "-byte row is not whole "@ + dtype.name_text()
                + " blocks of "@ + decimal(dtype.block_bytes()),
        )
    } else {
        None
    }
}

impl PleTable {
    /// A table over in-memory bytes: `rows` rows of `dtype`, the row width
    /// inferred from the byte count.
    pub fn from_bytes(bytes: Vec<u8>, dtype: GgmlType, rows: u64) -> (r: Result<Self, String>)
        requires
            bytes@.len() / dtype.block_bytes() * dtype.block() <= usize::MAX,
        ensures
            match r {
                Ok(t) => {
                    &&& bytes_refusal(bytes@.len(), dtype, rows) is None
                    &&& t.wf()
                    &&& t.source == TableSource::Memory(bytes)
                    &&& t.dtype == dtype
                    &&& t.rows == rows
                    &&& t.row_bound == rows
                    &&& t.row_bytes == bytes@.len() / rows as nat
                    &&& t.row_width == t.row_bytes / dtype.block_bytes() as usize * dtype.block()
                },
                Err(e) => bytes_refusal(bytes@.len(), dtype, rows) == Some(e@),
            },
    {
        if rows > usize::MAX as u64 {
            return Err("row count does not fit usize".to_owned());
        }
        let count: usize = rows as usize;
        if rows == 0 || bytes.len() == 0 || bytes.len() % count != 0 {
            let mut m: String = String::new();
            push_decimal(&mut m, bytes.len() as u64);
            m.append(" bytes is not ");
            push_decimal(&mut m, rows);
            m.append(" whole rows");
            return Err(m);
        }
        let row_bytes: usize = bytes.len() / count;
        let bpb: usize = dtype.bytes_per_block();
        if row_bytes % bpb != 0 {
            let mut m: String = String::new();
            m.append("a ");
            push_decimal(&mut m, row_bytes as u64);
            m.append("-byte row is not whole ");
            m.append(dtype.name());
            m.append(" blocks of ");
            push_decimal(&mut m, bpb as u64);
            return Err(m);
        }
        let block: usize = dtype.block_size();
        proof {
            let len = bytes@.len() as int;
            lemma_fundamental_div_mod(len, count as int);
            lemma_fundamental_div_mod(row_bytes as int, bpb as int);
            assert(row_bytes <= len) by (nonlinear_arith)
                requires
                    len == count * row_bytes,
                    1 <= count,
                    0 <= row_bytes,
            ;
            lemma_div_is_ordered(row_bytes as int, len, bpb as int);
            lemma_mul_inequality(row_bytes as int / bpb as int, len / bpb as int, block as int);
            assert(row_bytes > 0) by (nonlinear_arith)
                requires
                    len == count * row_bytes,
                    len > 0,
                    0 <= row_bytes,
            ;
            let q = row_bytes as int / bpb as int;
            assert(q > 0) by (nonlinear_arith)
                requires
                    row_bytes == bpb * q,
                    row_bytes > 0,
                    bpb > 0,
            ;
            assert(q * block > 0) by (nonlinear_arith)
                requires
                    q > 0,
                    block > 0,
            ;
            lemma_mod_multiples_basic(q, block as int);
            lemma_div_by_multiple(q, block as int);
            lemma_mul_is_commutative(q, bpb as int);
            lemma_mul_is_commutative(count as int, row_bytes as int);
        }
        let width: usize = row_bytes / bpb * block;
        Ok(
            PleTable {
                source: TableSource::Memory(bytes),
                dtype,
                row_width: width,
                row_bytes,
                rows,
                row_bound: rows,
            },
        )
    }
}

/// Why the table of `f` cannot be opened over `shards` with `bound`
/// addressable rows, or the table's `(shard slot, start, width, rows)`.
pub open spec fn opened(shards: Seq<PayloadShard>, f: GgufFile, bound: u64) -> Result<
    (usize, u64, u64, u64),
    Seq<char>,
> {
    match f.index_of(PLE_TABLE_TENSOR@) {
        None => Err("GGUF has no per_layer_token_embd.weight"@),
        Some(index) => {
            let info = f.tensors@[index];
            if info.dims@.len() != 2 {
                Err("per_layer_token_embd.weight must be 2-D, got dims "@ + list_text(info.dims@))
            } else if info.dims@[0] > usize::MAX {
                Err("PLE row width does not fit usize"@)
            } else {
                match row_layout_of(info.dtype, info.dims@[0] as nat) {
                    Err(e) => Err(e),
                    Ok(_) => match location(shards, f, index as nat) {
                        Err(e) => Err(e),
                        Ok(at) => if bound == 0 || bound > info.dims@[1] {
                            Err(
                                "PLE row bound "@ + decimal(bound as nat) + " must be in 1..="@
                                    + decimal(info.dims@[1] as nat) + " (the stored rows)"@,
                            )
                        } else {
                            Ok((at.0, at.1, info.dims@[0], info.dims@[1]))
                        },
                    },
                }
            }
        },
    }
}

/// A two-dimensional payload of whole-block rows is its rows, one after
/// another.
proof fn lemma_payload_is_rows(info: GgufTensorInfo)
    requires
        info.dims@.len() == 2,
        info.dims@[0] as nat % info.dtype.block() == 0,
    ensures
        info.payload_bytes() == info.dims@[1] * (info.dims@[0] as nat / info.dtype.block()
            * info.dtype.block_bytes()),
{
    let w = info.dims@[0] as int;
    let n = info.dims@[1] as int;
    let b = info.dtype.block() as int;
    let p = info.dtype.block_bytes() as int;
    let one = info.dims@.drop_last();
    assert(one.drop_last() =~= Seq::<u64>::empty());
    assert(dims_product(one.drop_last()) == 1);
    assert(dims_product(one) == w);
    assert(dims_product(info.dims@) == w * n);
    let q = w / b;
    lemma_fundamental_div_mod(w, b);
    assert(w * n == b * (q * n)) by (nonlinear_arith)
        requires
            w == b * q,
    ;
    lemma_div_multiples_vanish(q * n, b);
    assert((q * n) * p == n * (q * p)) by (nonlinear_arith);
}

impl PleTable {
    /// Locate the table in `f` and its payload files. `row_bound` is the
    /// summed head vocabulary ([`PleHash::total_rows`]).
    pub fn open_with(f: &GgufFile, files: &GgufPayloadFiles, row_bound: u64) -> (r: Result<
        Self,
        String,
    >)
        requires
            f.index_of(PLE_TABLE_TENSOR@) matches Some(i) ==> f.tensors@[i].dims@.len() == 2
                ==> f.tensors@[i].dims@[0] as nat / f.tensors@[i].dtype.block()
                * f.tensors@[i].dtype.block_bytes() <= usize::MAX,
        ensures
            match r {
                Ok(t) => {
                    &&& t.wf()
                    &&& f.index_of(PLE_TABLE_TENSOR@) is Some
                    &&& t.dtype == f.tensors@[f.index_of(PLE_TABLE_TENSOR@)->0].dtype
                    &&& t.row_bound == row_bound
                    &&& t.source matches TableSource::File { slot, start } && opened(
                        files.shards@,
                        *f,
                        row_bound,
                    ) == Ok::<_, Seq<char>>((slot, start, t.row_width as u64, t.rows))
                },
                Err(e) => opened(files.shards@, *f, row_bound) == Err::<
                    (usize, u64, u64, u64),
                    _,
                >(e@),
            },
    {
        let index: usize = match f.tensor_index(PLE_TABLE_TENSOR) {
            Some(i) => i,
            None => {
                return Err("GGUF has no per_layer_token_embd.weight".to_owned());
            },
        };
        let info: &GgufTensorInfo = &f.tensors[index];
        if info.dims.len() != 2 {
            let mut m: String = String::new();
            m.append("per_layer_token_embd.weight must be 2-D, got dims ");
            push_list(&mut m, &info.dims);
            return Err(m);
        }
        let width: u64 = info.dims[0];
        let rows: u64 = info.dims[1];
        if width > usize::MAX as u64 {
            return Err("PLE row width does not fit usize".to_owned());
        }
        assert(f.tensors@[index as int].dims@.len() == 2);
        let layout: (usize, usize) = match row_layout(info.dtype, width as usize) {
            Ok(l) => l,
            Err(e) => {
                return Err(e);
            },
        };
        let at: (usize, u64) = match files.locate(f, index) {
            Ok(a) => a,
            Err(e) => {
                return Err(e);
            },
        };
        proof {
            lemma_payload_is_rows(*info);
        }
        let table: PleTable = PleTable {
            source: TableSource::File { slot: at.0, start: at.1 },
            dtype: info.dtype,
            row_width: layout.0,
            row_bytes: layout.1,
            rows,
            row_bound: rows,
        };
        table.with_row_bound(row_bound)
    }
}

} // verus!
