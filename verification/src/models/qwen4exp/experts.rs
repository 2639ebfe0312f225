//! The routed experts: the geometry of their banks, which bytes an expert
//! is, which experts a token is routed to, and the bounded cache of
//! dequantized experts.

use crate::gguf::{GgmlType, GgufFile, GgufTensorInfo};
use crate::models::qwen4exp::cache::{
    cached, entry_from, touched, CacheStats, ExpertCache, Lookup,
};
use crate::models::qwen4exp::table::{owner_from, GgufPayloadFiles, PayloadShard};
use crate::routing::{
    gather_rows, gathered, group_by_expert, group_views, groups_from, is_top, places_of, top_k,
    Group,
};
use crate::text::{decimal, list_text, push_decimal, push_list};
use vstd::arithmetic::div_mod::lemma_fundamental_div_mod;
use vstd::arithmetic::mul::lemma_mul_inequality;
use vstd::prelude::*;

verus! {

/// Elements per dequantized row chunk: large enough to amortize a task, small
/// enough to stay in a near cache.
pub const CHUNK_ELEMS: usize = 65536;

/// The setting that gives the size of the expert cache in GiB.
pub const CACHE_ENV: &'static str = "MUMMU_QWEN4EXP_EXPERT_CACHE_GB";

/// Which of an expert's three projections.
#[derive(Debug, Clone, Copy, PartialEq, Eq, Structural)]
pub enum BankKind {
    /// `[hidden, ffn, n_expert]`.
    Gate,
    /// `[hidden, ffn, n_expert]`.
    Up,
    /// `[ffn, hidden, n_expert]`.
    Down,
}

impl BankKind {
    /// The tensor name of this bank in block `layer`.
    pub open spec fn name_of(self, layer: nat) -> Seq<char> {
        "blk."@ + decimal(layer) + ".ffn_"@ + (match self {
            BankKind::Gate => "gate"@,
            BankKind::Up => "up"@,
            BankKind::Down => "down"@,
        }) + "_exps.weight"@
    }

    /// The tensor name of this bank in block `layer`.
    pub fn tensor_name(self, layer: usize) -> (r: String)
        ensures
            r@ == self.name_of(layer as nat),
    {
        let mut s: String = String::new();
        s.append("blk.");
        push_decimal(&mut s, layer as u64);
        s.append(".ffn_");
        match self {
            BankKind::Gate => {
                s.append("gate");
            },
            BankKind::Up => {
                s.append("up");
            },
            BankKind::Down => {
                s.append("down");
            },
        }
        s.append("_exps.weight");
        s
    }
}

/// Three dimensions as a list.
pub open spec fn dims3(ne: [usize; 3]) -> Seq<u64> {
    seq![ne[0] as u64, ne[1] as u64, ne[2] as u64]
}

/// Three dimensions as a list.
fn dims_list(ne: [usize; 3]) -> (r: Vec<u64>)
    ensures
        r@ == dims3(ne),
{
    let mut v: Vec<u64> = Vec::new();
    v.push(ne[0] as u64);
    v.push(ne[1] as u64);
    v.push(ne[2] as u64);
    assert(v@ =~= dims3(ne));
    v
}

/// Bytes of one stored row.
pub open spec fn bank_row_bytes(dtype: GgmlType, in_dim: nat) -> nat {
    in_dim / dtype.block() * dtype.block_bytes()
}

/// Why a bank of these dimensions is refused.
pub open spec fn geometry_refusal(dtype: GgmlType, ne: [usize; 3]) -> Option<Seq<char>> {
    let row = bank_row_bytes(dtype, ne[0] as nat);
    if ne[0] == 0 || ne[1] == 0 || ne[2] == 0 {
        Some("expert bank ne "@ + list_text(dims3(ne)) + " has a zero dimension"@)
    } else if ne[0] as nat % dtype.block() != 0 {
        Some(
            "expert bank ne "@ + list_text(dims3(ne)) + ": row width "@ + decimal(ne[0] as nat)
                + " is not whole "@ + dtype.name_text() + " blocks of "@ + decimal(
                dtype.block(),
            ),
        )
    } else if ne[2] * ne[1] > usize::MAX || ne[2] * ne[1] * row > usize::MAX {
        Some("expert bank ne "@ + list_text(dims3(ne)) + " overflows usize bytes"@)
    } else {
        None
    }
}

/// Where a bank's bytes are.
#[derive(Debug)]
pub enum Payload {
    /// In the file at `path`, from absolute byte `offset` on.
    File { path: String, offset: u64 },
    /// In memory.
    Memory(Vec<u8>),
}

/// The bytes of one expert.
#[derive(Debug)]
pub enum ExpertBytes {
    /// The stored bytes.
    Bytes(Vec<u8>),
    /// One positional read of the bank's file.
    Read { offset: u64, len: usize },
}

/// One expert bank: `n_experts` matrices of `out_dim` rows by `in_dim`
/// columns, stored expert-major, then row-major, each row whole blocks.
#[derive(Debug)]
pub struct ExpertBank {
    pub dtype: GgmlType,
    pub in_dim: usize,
    pub out_dim: usize,
    pub n_experts: usize,
    pub row_bytes: usize,
    pub payload: Payload,
}

impl ExpertBank {
    /// The dimensions `[in_dim, out_dim, n_experts]`.
    pub open spec fn shape(self) -> [usize; 3] {
        [self.in_dim, self.out_dim, self.n_experts]
    }

    /// Bytes of one expert.
    pub open spec fn expert_len(self) -> int {
        self.out_dim * self.row_bytes
    }

    /// The geometry is accepted and the payload holds every expert.
    pub open spec fn wf(self) -> bool {
        &&& self.in_dim > 0
        &&& self.out_dim > 0
        &&& self.n_experts > 0
        &&& self.row_bytes == bank_row_bytes(self.dtype, self.in_dim as nat)
        &&& self.n_experts * self.out_dim * self.row_bytes <= usize::MAX
        &&& match self.payload {
            Payload::File { path, offset } => offset + self.n_experts * self.out_dim
                * self.row_bytes <= u64::MAX,
            Payload::Memory(b) => b@.len() == self.n_experts * self.out_dim * self.row_bytes,
        }
    }

    /// Validate the geometry and return `(row_bytes, total_bytes)`: a row
    /// that is not whole blocks cannot be sliced out of the bank.
    pub fn geometry(dtype: GgmlType, ne: [usize; 3]) -> (r: Result<(usize, usize), String>)
        ensures
            match r {
                Ok(g) => {
                    &&& geometry_refusal(dtype, ne) is None
                    &&& g.0 == bank_row_bytes(dtype, ne[0] as nat)
                    &&& g.1 == ne[2] * ne[1] * g.0
                },
                Err(e) => geometry_refusal(dtype, ne) == Some(e@),
            },
    {
        if ne[0] == 0 || ne[1] == 0 || ne[2] == 0 {
            let mut m: String = String::new();
            m.append("expert bank ne ");
            push_list(&mut m, &dims_list(ne));
            m.append(" has a zero dimension");
            return Err(m);
        }
        let block: usize = dtype.block_size();
        let bpb: usize = dtype.bytes_per_block();
        if ne[0] % block != 0 {
            let mut m: String = String::new();
            m.append("expert bank ne ");
            push_list(&mut m, &dims_list(ne));
            m.append(": row width ");
            push_decimal(&mut m, ne[0] as u64);
            m.append(" is not whole ");
            m.append(dtype.name());
            m.append(" blocks of ");
            push_decimal(&mut m, block as u64);
            return Err(m);
        }
        let row: Option<usize> = (ne[0] / block).checked_mul(bpb);
        let rows: Option<usize> = ne[2].checked_mul(ne[1]);
        proof {
            let r = bank_row_bytes(dtype, ne[0] as nat) as int;
            let k = ne[2] * ne[1];
            assert(k >= 1) by (nonlinear_arith)
                requires
                    k == ne[2] * ne[1],
                    ne[1] >= 1,
                    ne[2] >= 1,
            ;
            assert(k * r >= r) by (nonlinear_arith)
                requires
                    k >= 1,
                    r >= 0,
            ;
        }
        let total: Option<(usize, usize)> = match (row, rows) {
            (Some(row_bytes), Some(v)) => match v.checked_mul(row_bytes) {
                Some(t) => Some((row_bytes, t)),
                None => None,
            },
            _ => None,
        };
        match total {
            Some(t) => Ok(t),
            None => {
                let mut m: String = String::new();
                m.append("expert bank ne ");
                push_list(&mut m, &dims_list(ne));
                m.append(" overflows usize bytes");
                Err(m)
            },
        }
    }

    /// A bank held in memory: `bytes` is the whole tensor payload.
    pub fn from_bytes(dtype: GgmlType, ne: [usize; 3], bytes: Vec<u8>) -> (r: Result<
        Self,
        String,
    >)
        ensures
            ({
                let total = ne[2] * ne[1] * bank_row_bytes(dtype, ne[0] as nat);
                match r {
                    Ok(b) => {
                        &&& geometry_refusal(dtype, ne) is None
                        &&& bytes@.len() == total
                        &&& b.wf()
                        &&& b.dtype == dtype
                        &&& b.shape() == ne
                        &&& b.payload == Payload::Memory(bytes)
                    },
                    Err(e) => match geometry_refusal(dtype, ne) {
                        Some(m) => e@ == m,
                        None => bytes@.len() != total && e@ == "expert bank ne "@ + list_text(
                            dims3(ne),
                        ) + " "@ + dtype.name_text() + " is "@ + decimal(total as nat)
                            + " bytes, got "@ + decimal(bytes@.len()),
                    },
                }
            }),
    {
        let g: (usize, usize) = match ExpertBank::geometry(dtype, ne) {
            Ok(g) => g,
            Err(e) => {
                return Err(e);
            },
        };
        if bytes.len() != g.1 {
            let mut m: String = String::new();
            m.append("expert bank ne ");
            push_list(&mut m, &dims_list(ne));
            m.append(" ");
            m.append(dtype.name());
            m.append(" is ");
            push_decimal(&mut m, g.1 as u64);
            m.append(" bytes, got ");
            push_decimal(&mut m, bytes.len() as u64);
            return Err(m);
        }
        let b: ExpertBank = ExpertBank {
            dtype,
            in_dim: ne[0],
            out_dim: ne[1],
            n_experts: ne[2],
            row_bytes: g.0,
            payload: Payload::Memory(bytes),
        };
        assert(b.shape() =~= ne);
        Ok(b)
    }

    /// A bank read on demand from the file at `path`, which is `len` bytes
    /// long and holds the payload from the absolute `offset` on. A file too
    /// short for the bank is refused here, not as a short read later.
    pub fn from_file(
        path: &str,
        len: u64,
        offset: u64,
        dtype: GgmlType,
        ne: [usize; 3],
    ) -> (r: Result<Self, String>)
        ensures
            ({
                let end = offset + ne[2] * ne[1] * bank_row_bytes(dtype, ne[0] as nat);
                match r {
                    Ok(b) => {
                        &&& geometry_refusal(dtype, ne) is None
                        &&& end <= len
                        &&& b.wf()
                        &&& b.dtype == dtype
                        &&& b.shape() == ne
                        &&& b.payload matches Payload::File { path: p, offset: o } && p@ == path@
                            && o == offset
                    },
                    Err(e) => match geometry_refusal(dtype, ne) {
                        Some(m) => e@ == m,
                        None => {
                            &&& end > len
                            &&& e@ == if end > u64::MAX {
                                path@ + ": bank end overflows u64"@
                            } else {
                                path@ + ": expert bank needs bytes up to "@ + decimal(end as nat)
                                    + ", file is "@ + decimal(len as nat)
                            }
                        },
                    },
                }
            }),
    {
        let g: (usize, usize) = match ExpertBank::geometry(dtype, ne) {
            Ok(g) => g,
            Err(e) => {
                return Err(e);
            },
        };
        let end: u64 = match offset.checked_add(g.1 as u64) {
            Some(v) => v,
            None => {
                let mut m: String = path.to_owned();
                m.append(": bank end overflows u64");
                return Err(m);
            },
        };
        if end > len {
            let mut m: String = path.to_owned();
            m.append(": expert bank needs bytes up to ");
            push_decimal(&mut m, end);
            m.append(", file is ");
            push_decimal(&mut m, len);
            return Err(m);
        }
        let b: ExpertBank = ExpertBank {
            dtype,
            in_dim: ne[0],
            out_dim: ne[1],
            n_experts: ne[2],
            row_bytes: g.0,
            payload: Payload::File { path: path.to_owned(), offset },
        };
        assert(b.shape() =~= ne);
        Ok(b)
    }

    /// The storage type.
    pub fn dtype(&self) -> (r: GgmlType)
        ensures
            r == self.dtype,
    {
        self.dtype
    }

    /// `[in_dim, out_dim, n_experts]`.
    pub fn ne(&self) -> (r: [usize; 3])
        ensures
            r == self.shape(),
    {
        [self.in_dim, self.out_dim, self.n_experts]
    }

    /// Columns of each expert matrix (the input width).
    pub fn in_dim(&self) -> (r: usize)
        ensures
            r == self.in_dim,
    {
        self.in_dim
    }

    /// Rows of each expert matrix (the output width).
    pub fn out_dim(&self) -> (r: usize)
        ensures
            r == self.out_dim,
    {
        self.out_dim
    }

    /// Experts in the bank.
    pub fn n_experts(&self) -> (r: usize)
        ensures
            r == self.n_experts,
    {
        self.n_experts
    }

    /// Bytes of one stored row.
    pub fn row_bytes(&self) -> (r: usize)
        ensures
            r == self.row_bytes,
    {
        self.row_bytes
    }

    /// One expert's bytes fit where the whole bank's do.
    proof fn lemma_expert_len(self)
        requires
            self.wf(),
        ensures
            0 <= self.expert_len() <= usize::MAX,
            self.n_experts * self.expert_len() == self.n_experts * self.out_dim * self.row_bytes,
    {
        let n = self.n_experts as int;
        let o = self.out_dim as int;
        let r = self.row_bytes as int;
        assert(n * (o * r) == n * o * r) by (nonlinear_arith);
        assert(0 <= o * r) by (nonlinear_arith)
            requires
                0 <= o,
                0 <= r,
        ;
        assert(o * r <= n * (o * r)) by (nonlinear_arith)
            requires
                1 <= n,
                0 <= o * r,
        ;
    }

    /// Bytes of one expert: `out_dim * row_bytes`.
    pub fn expert_bytes_len(&self) -> (r: usize)
        requires
            self.wf(),
        ensures
            r == self.expert_len(),
    {
        proof {
            self.lemma_expert_len();
        }
        self.out_dim * self.row_bytes
    }

    /// The file and absolute payload offset, for a file-backed bank.
    pub fn location(&self) -> (r: Option<(&str, u64)>)
        ensures
            match self.payload {
                Payload::File { path, offset } => r matches Some(at) && at.0@ == path@ && at.1
                    == offset,
                Payload::Memory(_) => r is None,
            },
    {
        match &self.payload {
            Payload::File { path, offset } => Some((path.as_str(), *offset)),
            Payload::Memory(_) => None,
        }
    }

    /// The bytes of expert `e`: the run `e·len .. (e+1)·len` of the bank,
    /// copied from memory, or as the read to make.
    pub fn expert_bytes(&self, e: usize) -> (r: Result<ExpertBytes, String>)
        requires
            self.wf(),
        ensures
            match r {
                Ok(got) => e < self.n_experts && match (self.payload, got) {
                    (Payload::Memory(b), ExpertBytes::Bytes(v)) => v@ == b@.subrange(
                        e * self.expert_len(),
                        e * self.expert_len() + self.expert_len(),
                    ),
                    (Payload::File { path, offset }, ExpertBytes::Read { offset: at, len }) => at
                        == offset + e * self.expert_len() && len == self.expert_len(),
                    _ => false,
                },
                Err(m) => e >= self.n_experts && m@ == "expert "@ + decimal(e as nat)
                    + " out of range (bank has "@ + decimal(self.n_experts as nat) + ")"@,
            },
    {
        if e >= self.n_experts {
            let mut m: String = String::new();
            m.append("expert ");
            push_decimal(&mut m, e as u64);
            m.append(" out of range (bank has ");
            push_decimal(&mut m, self.n_experts as u64);
            m.append(")");
            return Err(m);
        }
        let len: usize = self.expert_bytes_len();
        proof {
            self.lemma_expert_len();
            lemma_mul_inequality(e + 1, self.n_experts as int, len as int);
            assert((e + 1) * len == e * len + len) by (nonlinear_arith);
            assert(0 <= e * len) by (nonlinear_arith);
        }
        match &self.payload {
            Payload::Memory(b) => {
                let at: usize = e * len;
                let end: usize = at + len;
                let mut out: Vec<u8> = Vec::new();
                let mut i: usize = at;
                while i < end
                    invariant
                        at <= i <= end <= b@.len(),
                        out@ == b@.subrange(at as int, i as int),
                    decreases end - i,
                {
                    out.push(b[i]);
                    assert(b@.subrange(at as int, i + 1) =~= b@.subrange(
                        at as int,
                        i as int,
                    ).push(b@[i as int]));
                    i += 1;
                }
                Ok(ExpertBytes::Bytes(out))
            },
            Payload::File { path, offset } => Ok(
                ExpertBytes::Read { offset: *offset + (e * len) as u64, len },
            ),
        }
    }

    /// Two experts share no byte of the bank, and every byte of the bank
    /// belongs to an expert.
    pub proof fn experts_partition_the_bank(self, at: int)
        requires
            self.wf(),
            0 <= at < self.n_experts * self.out_dim * self.row_bytes,
        ensures
            ({
                let e = at / self.expert_len();
                &&& 0 <= e < self.n_experts
                &&& e * self.expert_len() <= at < e * self.expert_len() + self.expert_len()
                &&& forall|d: int|
                    0 <= d && #[trigger] (d * self.expert_len()) <= at < d * self.expert_len()
                        + self.expert_len() ==> d == e
            }),
    {
        self.lemma_expert_len();
        let len = self.expert_len();
        let n = self.n_experts as int;
        assert(len > 0) by (nonlinear_arith)
            requires
                0 <= at < n * len,
                0 <= len,
        ;
        lemma_fundamental_div_mod(at, len);
        let e = at / len;
        let m = at % len;
        assert(e * len == len * e) by (nonlinear_arith);
        assert(0 <= e < n) by (nonlinear_arith)
            requires
                0 <= at < n * len,
                at == len * e + m,
                0 <= m < len,
        ;
        assert forall|d: int|
            0 <= d && #[trigger] (d * len) <= at < d * len + len implies d == e by {
            assert(d == e) by (nonlinear_arith)
                requires
                    d * len <= at < d * len + len,
                    e * len <= at < e * len + len,
                    len > 0,
            ;
        }
    }
}

/// Does `got` equal `n` rows of `width`?
pub open spec fn len_refusal(what: Seq<char>, got: nat, n: nat, width: nat) -> Option<Seq<char>> {
    if n * width == got && n * width <= usize::MAX {
        None
    } else {
        Some(
            what + ": "@ + decimal(got) + " values is not "@ + decimal(n) + " rows x "@ + decimal(
                width,
            ),
        )
    }
}

/// Check that `got` values are `n` rows of `width`.
pub fn check_len(what: &str, got: usize, n: usize, width: usize) -> (r: Result<(), String>)
    ensures
        match r {
            Ok(_) => len_refusal(what@, got as nat, n as nat, width as nat) is None,
            Err(e) => len_refusal(what@, got as nat, n as nat, width as nat) == Some(e@),
        },
{
    let ok: bool = match n.checked_mul(width) {
        Some(want) => want == got,
        None => false,
    };
    if ok {
        Ok(())
    } else {
        let mut m: String = what.to_owned();
        m.append(": ");
        push_decimal(&mut m, got as u64);
        m.append(" values is not ");
        push_decimal(&mut m, n as u64);
        m.append(" rows x ");
        push_decimal(&mut m, width as u64);
        Err(m)
    }
}

/// Rows dequantized at a time: a chunk's worth of elements, at least one row.
pub fn chunk_rows(in_dim: usize) -> (r: usize)
    requires
        in_dim > 0,
    ensures
        r == (if in_dim > CHUNK_ELEMS {
            1
        } else {
            CHUNK_ELEMS / in_dim
        }),
        r >= 1,
{
    if in_dim > CHUNK_ELEMS {
        1
    } else {
        let r: usize = CHUNK_ELEMS / in_dim;
        assert(r >= 1) by (nonlinear_arith)
            requires
                0 < in_dim <= CHUNK_ELEMS,
                r == CHUNK_ELEMS / in_dim,
        ;
        r
    }
}

/// Is the single with this bit pattern infinite or not a number?
pub open spec fn non_finite(bits: u32) -> bool {
    (bits as int / 0x80_0000) % 0x100 == 0xff
}

/// The text of an infinite or not-a-number single.
pub open spec fn non_finite_text(bits: u32) -> Seq<char> {
    if bits as int % 0x80_0000 != 0 {
        "NaN"@
    } else if bits >= 0x8000_0000 {
        "-inf"@
    } else {
        "inf"@
    }
}

/// The first non-finite logit from `from` on.
pub open spec fn first_non_finite(logits: Seq<u32>, from: int) -> Option<int>
    decreases logits.len() - from,
{
    if from < 0 || from >= logits.len() {
        None
    } else if non_finite(logits[from]) {
        Some(from)
    } else {
        first_non_finite(logits, from + 1)
    }
}

/// Why `n` rows of logits cannot be routed to the top `k` of `n_experts`.
pub open spec fn route_refusal(logits: Seq<u32>, n: nat, n_experts: nat, k: nat) -> Option<
    Seq<char>,
> {
    if n_experts == 0 || k == 0 || k > n_experts {
        Some(
            "top-"@ + decimal(k) + " of "@ + decimal(n_experts) + " experts is not a routing"@,
        )
    } else if len_refusal("router logits"@, logits.len(), n, n_experts) is Some {
        len_refusal("router logits"@, logits.len(), n, n_experts)
    } else {
        match first_non_finite(logits, 0) {
            None => None,
            Some(i) => Some(
                "router logit for token "@ + decimal((i / n_experts as int) as nat)
                    + " expert "@ + decimal((i % n_experts as int) as nat) + " is "@
                    + non_finite_text(logits[i]),
            ),
        }
    }
}

/// Check that router logits (by bit pattern) can be routed: a non-finite
/// logit would otherwise route silently to arbitrary experts.
pub fn check_route(logits: &Vec<u32>, n: usize, n_experts: usize, k: usize) -> (r: Result<
    (),
    String,
>)
    ensures
        match r {
            Ok(_) => route_refusal(logits@, n as nat, n_experts as nat, k as nat) is None,
            Err(e) => route_refusal(logits@, n as nat, n_experts as nat, k as nat) == Some(e@),
        },
{
    if n_experts == 0 || k == 0 || k > n_experts {
        let mut m: String = String::new();
        m.append("top-");
        push_decimal(&mut m, k as u64);
        m.append(" of ");
        push_decimal(&mut m, n_experts as u64);
        m.append(" experts is not a routing");
        return Err(m);
    }
    match check_len("router logits", logits.len(), n, n_experts) {
        Ok(_) => {},
        Err(e) => {
            return Err(e);
        },
    }
    let mut i: usize = 0;
    while i < logits.len()
        invariant
            i <= logits@.len(),
            !(n_experts == 0 || k == 0 || k > n_experts),
            len_refusal("router logits"@, logits@.len(), n as nat, n_experts as nat) is None,
            first_non_finite(logits@, 0) == first_non_finite(logits@, i as int),
        decreases logits@.len() - i,
    {
        let b: u32 = logits[i];
        if (b / 0x80_0000) % 0x100 == 0xff {
            let mut m: String = String::new();
            m.append("router logit for token ");
            push_decimal(&mut m, (i / n_experts) as u64);
            m.append(" expert ");
            push_decimal(&mut m, (i % n_experts) as u64);
            m.append(" is ");
            if b % 0x80_0000 != 0 {
                m.append("NaN");
            } else if b >= 0x8000_0000 {
                m.append("-inf");
            } else {
                m.append("inf");
            }
            return Err(m);
        }
        i += 1;
    }
    Ok(())
}

/// Per-token routing decisions: `k` expert ids and weights per token,
/// `ids[t*k + s]` / `weights[t*k + s]`, slots in descending probability.
/// Weights are bit patterns.
#[derive(Debug)]
pub struct Routing {
    pub n: usize,
    pub k: usize,
    pub ids: Vec<u32>,
    pub weights: Vec<u32>,
}

/// Row `t` of a matrix `width` wide.
pub open spec fn row_of(v: Seq<u32>, width: int, t: int) -> Seq<u32> {
    v.subrange(t * width, t * width + width)
}

/// Copy row `t` of a matrix `width` wide.
fn copy_row(v: &Vec<u32>, width: usize, t: usize) -> (r: Vec<u32>)
    requires
        (t + 1) * width <= v@.len(),
    ensures
        r@ == row_of(v@, width as int, t as int),
{
    proof {
        assert((t + 1) * width == t * width + width) by (nonlinear_arith);
        assert(0 <= t * width) by (nonlinear_arith);
        assert(v.len() == v@.len());
    }
    let at: usize = t * width;
    let end: usize = at + width;
    let mut out: Vec<u32> = Vec::new();
    let mut i: usize = at;
    while i < end
        invariant
            at <= i <= end <= v@.len(),
            out@ == v@.subrange(at as int, i as int),
        decreases end - i,
    {
        out.push(v[i]);
        assert(v@.subrange(at as int, i + 1) =~= v@.subrange(at as int, i as int).push(
            v@[i as int],
        ));
        i += 1;
    }
    out
}

/// Is `r` the selection from `n` rows of `n_experts` probabilities: for each
/// token the `k` most probable experts, best first, with their probabilities?
pub open spec fn is_selection(
    r: Routing,
    probs: Seq<u32>,
    n: nat,
    n_experts: nat,
    k: nat,
) -> bool {
    &&& r.n == n
    &&& r.k == k
    &&& r.ids@.len() == n * k
    &&& r.weights@.len() == n * k
    &&& forall|t: int|
        0 <= t < n ==> is_top(
            #[trigger] row_of(probs, n_experts as int, t),
            row_of(r.ids@, k as int, t),
            k,
        )
    &&& forall|t: int, s: int|
        0 <= t < n && 0 <= s < k ==> #[trigger] row_of(r.weights@, k as int, t)[s] == row_of(
            probs,
            n_experts as int,
            t,
        )[row_of(r.ids@, k as int, t)[s] as int]
}

/// The experts of each token: the `k` most probable of its `n_experts`
/// probabilities, in descending order, with their probabilities. Ties: the
/// lower expert id wins and comes first.
///
/// Probabilities are non-negative singles by bit pattern, so their patterns
/// order as their values do.
pub fn select(probs: &Vec<u32>, n: usize, n_experts: usize, k: usize) -> (r: Routing)
    requires
        1 <= k <= n_experts <= u32::MAX,
        probs@.len() == n * n_experts,
        n * k <= usize::MAX,
    ensures
        is_selection(r, probs@, n as nat, n_experts as nat, k as nat),
{
    let mut ids: Vec<u32> = Vec::new();
    let mut weights: Vec<u32> = Vec::new();
    let mut t: usize = 0;
    assert(0 * k == 0) by (nonlinear_arith);
    while t < n
        invariant
            t <= n,
            1 <= k <= n_experts <= u32::MAX,
            probs@.len() == n * n_experts,
            n * k <= usize::MAX,
            ids@.len() == t * k,
            weights@.len() == t * k,
            forall|u: int|
                0 <= u < t ==> is_top(
                    #[trigger] row_of(probs@, n_experts as int, u),
                    row_of(ids@, k as int, u),
                    k as nat,
                ),
            forall|u: int, s: int|
                0 <= u < t && 0 <= s < k ==> #[trigger] row_of(weights@, k as int, u)[s]
                    == row_of(probs@, n_experts as int, u)[row_of(ids@, k as int, u)[s] as int],
        decreases n - t,
    {
        proof {
            lemma_mul_inequality(t + 1, n as int, n_experts as int);
            assert((t + 1) * k == t * k + k) by (nonlinear_arith);
        }
        let row: Vec<u32> = copy_row(probs, n_experts, t);
        proof {
            assert((t + 1) * n_experts == t * n_experts + n_experts) by (nonlinear_arith);
            assert(0 <= t * n_experts) by (nonlinear_arith);
            assert(row@.len() == n_experts);
        }
        let best: Vec<u32> = top_k(&row, k);
        let ghost ids0 = ids@;
        let ghost weights0 = weights@;
        let mut s: usize = 0;
        while s < k
            invariant
                s <= k,
                best@.len() == k,
                is_top(row@, best@, k as nat),
                row@.len() == n_experts,
                ids@ == ids0 + best@.take(s as int),
                weights@.len() == weights0.len() + s,
                forall|i: int| 0 <= i < weights0.len() ==> weights@[i] == weights0[i],
                forall|i: int|
                    0 <= i < s ==> #[trigger] weights@[weights0.len() + i] == row@[best@[i] as int],
            decreases k - s,
        {
            assert(best@[s as int] < row@.len());
            let id: u32 = best[s];
            ids.push(id);
            weights.push(row[id as usize]);
            assert(best@.take(s + 1) =~= best@.take(s as int).push(id));
            s += 1;
        }
        proof {
            assert(best@.take(k as int) =~= best@);
            assert(row_of(ids@, k as int, t as int) =~= best@);
            assert forall|u: int| 0 <= u < t implies row_of(ids@, k as int, u) == row_of(
                ids0,
                k as int,
                u,
            ) && row_of(weights@, k as int, u) == row_of(weights0, k as int, u) by {
                lemma_mul_inequality(u + 1, t as int, k as int);
                assert((u + 1) * k == u * k + k) by (nonlinear_arith);
                assert(0 <= u * k) by (nonlinear_arith)
                    requires
                        0 <= u,
                ;
                assert(row_of(ids@, k as int, u) =~= row_of(ids0, k as int, u));
                assert(row_of(weights@, k as int, u) =~= row_of(weights0, k as int, u));
            }
            assert forall|u: int, s2: int|
                0 <= u < t + 1 && 0 <= s2 < k implies #[trigger] row_of(
                weights@,
                k as int,
                u,
            )[s2] == row_of(probs@, n_experts as int, u)[row_of(ids@, k as int, u)[s2] as int] by {
                if u == t {
                    assert(weights@[weights0.len() + s2] == row@[best@[s2] as int]);
                } else {
                    assert(row_of(weights0, k as int, u)[s2] == row_of(
                        probs@,
                        n_experts as int,
                        u,
                    )[row_of(ids0, k as int, u)[s2] as int]);
                }
            }
        }
        t += 1;
    }
    Routing { n, k, ids, weights }
}

/// The first routed id from `from` on that is no expert.
pub open spec fn first_stray_id(ids: Seq<u32>, n_experts: nat, from: int) -> Option<int>
    decreases ids.len() - from,
{
    if from < 0 || from >= ids.len() {
        None
    } else if ids[from] >= n_experts {
        Some(from)
    } else {
        first_stray_id(ids, n_experts, from + 1)
    }
}

/// Why a routing cannot be applied to `values` input values in `layer`.
pub open spec fn apply_refusal(
    store: RoutedExperts,
    layer: nat,
    routing: Routing,
    values: nat,
) -> Option<Seq<char>> {
    let n = routing.n as nat;
    let k = routing.k as nat;
    if layer >= store.layers@.len() {
        Some(
            "layer "@ + decimal(layer) + " out of range ("@ + decimal(store.layers@.len())
                + ")"@,
        )
    } else if len_refusal("routing ids"@, routing.ids@.len(), n, k) is Some {
        len_refusal("routing ids"@, routing.ids@.len(), n, k)
    } else if len_refusal("routing weights"@, routing.weights@.len(), n, k) is Some {
        len_refusal("routing weights"@, routing.weights@.len(), n, k)
    } else if len_refusal("moe input"@, values, n, store.hidden as nat) is Some {
        len_refusal("moe input"@, values, n, store.hidden as nat)
    } else {
        match first_stray_id(routing.ids@, store.n_experts as nat, 0) {
            None => None,
            Some(i) => Some(
                "routed expert "@ + decimal(routing.ids@[i] as nat) + " out of range ("@
                    + decimal(store.n_experts as nat) + ")"@,
            ),
        }
    }
}

/// The three banks of one block.
#[derive(Debug)]
pub struct LayerExperts {
    pub gate: ExpertBank,
    pub up: ExpertBank,
    pub down: ExpertBank,
}

impl LayerExperts {
    /// The bank of a kind.
    pub open spec fn bank_of(self, kind: BankKind) -> ExpertBank {
        match kind {
            BankKind::Gate => self.gate,
            BankKind::Up => self.up,
            BankKind::Down => self.down,
        }
    }

    /// The bank of a kind.
    pub fn bank(&self, kind: BankKind) -> (r: &ExpertBank)
        ensures
            *r == self.bank_of(kind),
    {
        match kind {
            BankKind::Gate => &self.gate,
            BankKind::Up => &self.up,
            BankKind::Down => &self.down,
        }
    }
}

/// Every block's routed experts, read on demand, with an optional bounded
/// cache of dequantized experts.
#[derive(Debug)]
pub struct RoutedExperts {
    pub layers: Vec<LayerExperts>,
    pub hidden: usize,
    pub ffn: usize,
    pub n_experts: usize,
    pub open_files: usize,
    pub cache: Option<ExpertCache>,
}


/// The kind of bank `j` of a list that goes gate, up, down, layer by layer.
pub open spec fn kind_at(j: int) -> BankKind {
    if j % 3 == 0 {
        BankKind::Gate
    } else if j % 3 == 1 {
        BankKind::Up
    } else {
        BankKind::Down
    }
}

/// The dimensions bank `j` must have beside a first gate bank of `first`.
pub open spec fn shape_wanted(first: [usize; 3], j: int) -> [usize; 3] {
    if j % 3 == 2 {
        [first[1], first[0], first[2]]
    } else {
        first
    }
}

/// The first bank from `from` on whose dimensions are not the wanted ones.
pub open spec fn first_misshapen(shapes: Seq<[usize; 3]>, from: int) -> Option<int>
    decreases shapes.len() - from,
{
    if from < 0 || from >= shapes.len() {
        None
    } else if shapes[from] != shape_wanted(shapes[0], from) {
        Some(from)
    } else {
        first_misshapen(shapes, from + 1)
    }
}

/// Why banks of these dimensions do not make a store.
pub open spec fn shapes_refusal(shapes: Seq<[usize; 3]>) -> Option<Seq<char>> {
    if shapes.len() == 0 {
        Some("no expert layers"@)
    } else {
        match first_misshapen(shapes, 0) {
            Some(j) => Some(
                kind_at(j).name_of((j / 3) as nat) + ": ne "@ + list_text(dims3(shapes[j]))
                    + ", expected "@ + list_text(dims3(shape_wanted(shapes[0], j))),
            ),
            None => if shapes[0][2] > u32::MAX {
                Some(decimal(shapes[0][2] as nat) + " experts do not fit a u32 id"@)
            } else {
                None
            },
        }
    }
}

/// The dimensions of every bank, gate, up, down, layer by layer.
pub open spec fn shapes_of(layers: Seq<LayerExperts>) -> Seq<[usize; 3]> {
    Seq::new(3 * layers.len(), |j: int| layers[j / 3].bank_of(kind_at(j)).shape())
}

/// A dimension as a size, clipped where it does not fit.
pub open spec fn clipped(d: u64) -> usize {
    if d <= usize::MAX {
        d as usize
    } else {
        usize::MAX
    }
}

/// A dimension as a size, clipped where it does not fit.
fn clip(d: u64) -> (r: usize)
    ensures
        r == clipped(d),
{
    if d <= usize::MAX as u64 {
        d as usize
    } else {
        usize::MAX
    }
}

/// Where a bank was found.
#[derive(Debug, Clone, Copy)]
pub struct BankPlace {
    pub dtype: GgmlType,
    pub ne: [usize; 3],
    /// The payload file that holds it.
    pub slot: usize,
    /// Its absolute start in that file.
    pub offset: u64,
}

/// Where the bank of `kind` in block `layer` lies, or why it cannot be read.
pub open spec fn bank_place(
    shards: Seq<PayloadShard>,
    f: GgufFile,
    layer: nat,
    kind: BankKind,
) -> Result<BankPlace, Seq<char>> {
    let name = kind.name_of(layer);
    match f.index_of(name) {
        None => Err("GGUF has no "@ + name),
        Some(index) => {
            let info = f.tensors@[index];
            if info.dims@.len() != 3 {
                Err(name + " has dims "@ + list_text(info.dims@) + ", want 3"@)
            } else {
                let ne = [clipped(info.dims@[0]), clipped(info.dims@[1]), clipped(info.dims@[2])];
                match owner_from(shards, index, 0) {
                    None => Err("tensor "@ + name + " belongs to no open shard"@),
                    Some(slot) => {
                        let shard = shards[slot];
                        let start = shard.data_offset + info.offset;
                        let bytes = ne[2] * ne[1] * bank_row_bytes(info.dtype, ne[0] as nat);
                        if start > u64::MAX {
                            Err(name + ": payload offset overflows u64"@)
                        } else if let Some(m) = geometry_refusal(info.dtype, ne) {
                            Err(name + ": "@ + m)
                        } else if start + bytes > u64::MAX {
                            Err(name + ": "@ + shard.path@ + ": bank end overflows u64"@)
                        } else if start + bytes > shard.len {
                            Err(
                                name + ": "@ + shard.path@ + ": expert bank needs bytes up to "@
                                    + decimal((start + bytes) as nat) + ", file is "@ + decimal(
                                    shard.len as nat,
                                ),
                            )
                        } else if !info.sized() || info.payload_bytes() != bytes {
                            Err(
                                name
                                    + ": bank geometry disagrees with the header's byte length"@,
                            )
                        } else {
                            Ok(
                                BankPlace {
                                    dtype: info.dtype,
                                    ne,
                                    slot: slot as usize,
                                    offset: start as u64,
                                },
                            )
                        }
                    },
                }
            }
        },
    }
}

/// A bank that was opened where it lies.
pub open spec fn opened_at(
    shards: Seq<PayloadShard>,
    f: GgufFile,
    layer: nat,
    kind: BankKind,
    b: ExpertBank,
) -> bool {
    match bank_place(shards, f, layer, kind) {
        Err(_) => false,
        Ok(at) => {
            &&& b.wf()
            &&& b.dtype == at.dtype
            &&& b.shape() == at.ne
            &&& b.payload matches Payload::File { path, offset } && path@
                == shards[at.slot as int].path@ && offset == at.offset
        },
    }
}

/// Open the bank of `kind` in block `layer`; also the payload file it lies in.
fn open_bank(
    gguf: &GgufFile,
    files: &GgufPayloadFiles,
    layer: usize,
    kind: BankKind,
) -> (r: Result<(ExpertBank, usize), String>)
    ensures
        match r {
            Ok(p) => {
                &&& opened_at(files.shards@, *gguf, layer as nat, kind, p.0)
                &&& bank_place(files.shards@, *gguf, layer as nat, kind)->Ok_0.slot == p.1
                &&& p.1 < files.shards@.len()
            },
            Err(e) => bank_place(files.shards@, *gguf, layer as nat, kind) == Err::<BankPlace, _>(
                e@,
            ),
        },
{
    let name: String = kind.tensor_name(layer);
    let index: usize = match gguf.tensor_index(name.as_str()) {
        Some(i) => i,
        None => {
            let mut m: String = String::new();
            m.append("GGUF has no ");
            m.append(name.as_str());
            return Err(m);
        },
    };
    let info: &GgufTensorInfo = &gguf.tensors[index];
    if info.dims.len() != 3 {
        let mut m: String = name;
        m.append(" has dims ");
        push_list(&mut m, &info.dims);
        m.append(", want 3");
        return Err(m);
    }
    let ne: [usize; 3] = [clip(info.dims[0]), clip(info.dims[1]), clip(info.dims[2])];
    let slot: usize = match files.owner(index) {
        Some(s) => s,
        None => {
            let mut m: String = String::new();
            m.append("tensor ");
            m.append(name.as_str());
            m.append(" belongs to no open shard");
            return Err(m);
        },
    };
    let shard: &PayloadShard = &files.shards[slot];
    let start: u64 = match shard.data_offset.checked_add(info.offset) {
        Some(s) => s,
        None => {
            let mut m: String = name;
            m.append(": payload offset overflows u64");
            return Err(m);
        },
    };
    let bank: ExpertBank = match ExpertBank::from_file(
        shard.path.as_str(),
        shard.len,
        start,
        info.dtype,
        ne,
    ) {
        Ok(b) => b,
        Err(e) => {
            let mut m: String = name;
            m.append(": ");
            m.append(e.as_str());
            proof {
                let c = ": "@;
                let p = shard.path@;
                assert(m@ =~= kind.name_of(layer as nat) + c + e@);
                if geometry_refusal(info.dtype, ne) is None {
                    let bytes = ne[2] * ne[1] * bank_row_bytes(info.dtype, ne[0] as nat);
                    if start + bytes > u64::MAX {
                        assert(m@ =~= kind.name_of(layer as nat) + c + p
                            + ": bank end overflows u64"@);
                    } else {
                        assert(m@ =~= kind.name_of(layer as nat) + c + p
                            + ": expert bank needs bytes up to "@ + decimal((start + bytes) as nat)
                            + ", file is "@ + decimal(shard.len as nat));
                    }
                }
            }
            return Err(m);
        },
    };
    let each: usize = bank.expert_bytes_len();
    proof {
        bank.lemma_expert_len();
    }
    let total: usize = bank.n_experts * each;
    let agrees: bool = match info.byte_len() {
        Some(b) => b == total as u64,
        None => false,
    };
    if !agrees {
        let mut m: String = name;
        m.append(": bank geometry disagrees with the header's byte length");
        return Err(m);
    }
    Ok((bank, slot))
}

/// What the first bank from `j` on that cannot be opened is refused with,
/// among the banks of blocks below `n_layers`.
pub open spec fn first_unopened(
    shards: Seq<PayloadShard>,
    f: GgufFile,
    n_layers: nat,
    j: int,
) -> Option<Seq<char>>
    decreases 3 * n_layers - j,
{
    if j < 0 || j >= 3 * n_layers {
        None
    } else {
        match bank_place(shards, f, (j / 3) as nat, kind_at(j)) {
            Err(m) => Some(m),
            Ok(_) => first_unopened(shards, f, n_layers, j + 1),
        }
    }
}

/// The dimensions of the banks of blocks below `n_layers`.
pub open spec fn placed_shapes(shards: Seq<PayloadShard>, f: GgufFile, n_layers: nat) -> Seq<
    [usize; 3],
> {
    Seq::new(
        3 * n_layers,
        |j: int| bank_place(shards, f, (j / 3) as nat, kind_at(j))->Ok_0.ne,
    )
}

/// One expert's share of a routed step: the token rows routed to it, the
/// weight of each, and the input rows gathered for it.
#[derive(Debug)]
pub struct ExpertJob {
    pub expert: u32,
    pub tokens: Vec<usize>,
    pub weights: Vec<u32>,
    pub input: Vec<u32>,
}

/// A job serves the given expert on exactly the given places.
pub open spec fn serves(
    job: ExpertJob,
    group: (u32, Seq<int>),
    routing: Routing,
    xs: Seq<u32>,
    hidden: nat,
) -> bool {
    &&& job.expert == group.0
    &&& job.tokens@.len() == group.1.len()
    &&& job.weights@.len() == group.1.len()
    &&& forall|i: int|
        0 <= i < group.1.len() ==> (#[trigger] job.tokens@[i]) == group.1[i] / (routing.k as int)
    &&& forall|i: int|
        0 <= i < group.1.len() ==> (#[trigger] job.weights@[i]) == routing.weights@[group.1[i]]
    &&& job.input@ == gathered(xs, hidden, job.tokens@)
}

/// Where an expert's weights come from for one step.
#[derive(Debug, Clone, Copy, PartialEq, Eq, Structural)]
pub enum WeightSource {
    /// There are no rows: nothing is read.
    Nothing,
    /// The stored banks.
    Quantized,
    /// The cache holds the dequantized expert.
    Cached,
    /// Dequantize the expert, then offer it to the cache.
    Dequantize,
}

impl RoutedExperts {
    /// The banks have the store's dimensions, and ids fit a u32.
    pub open spec fn wf(self) -> bool {
        &&& self.layers@.len() > 0
        &&& self.n_experts <= u32::MAX
        &&& self.hidden > 0
        &&& self.ffn > 0
        &&& forall|l: int|
            0 <= l < self.layers@.len() ==> {
                let layer = #[trigger] self.layers@[l];
                &&& layer.gate.wf()
                &&& layer.up.wf()
                &&& layer.down.wf()
                &&& layer.gate.shape() == [self.hidden, self.ffn, self.n_experts]
                &&& layer.up.shape() == [self.hidden, self.ffn, self.n_experts]
                &&& layer.down.shape() == [self.ffn, self.hidden, self.n_experts]
            }
        &&& match self.cache {
            Some(c) => c.wf(),
            None => true,
        }
    }

    /// Assemble from built banks: gate and up must be
    /// `[hidden, ffn, n_experts]`, down `[ffn, hidden, n_experts]`, the same
    /// in every layer. `cache_bytes` 0 disables the cache.
    pub fn from_layers(layers: Vec<LayerExperts>, cache_bytes: usize) -> (r: Result<Self, String>)
        requires
            3 * layers@.len() <= usize::MAX,
            forall|l: int|
                0 <= l < layers@.len() ==> (#[trigger] layers@[l]).gate.wf()
                    && layers@[l].up.wf() && layers@[l].down.wf(),
        ensures
            match r {
                Ok(s) => {
                    &&& shapes_refusal(shapes_of(layers@)) is None
                    &&& s.wf()
                    &&& s.layers@ == layers@
                    &&& s.hidden == layers@[0].gate.in_dim
                    &&& s.ffn == layers@[0].gate.out_dim
                    &&& s.n_experts == layers@[0].gate.n_experts
                    &&& s.open_files == 0
                    &&& (s.cache is Some) == (cache_bytes > 0)
                    &&& s.cache matches Some(c) ==> c.capacity_bytes == cache_bytes
                        && c.entries@.len() == 0 && c.clock == 0 && c.hits == 0 && c.misses == 0
                        && c.evictions == 0
                },
                Err(e) => shapes_refusal(shapes_of(layers@)) == Some(e@),
            },
    {
        let ghost shapes = shapes_of(layers@);
        if layers.len() == 0 {
            let mut m: String = String::new();
            m.append("no expert layers");
            return Err(m);
        }
        let first: [usize; 3] = layers[0].gate.ne();
        assert(shapes[0] == first);
        let mut j: usize = 0;
        let count: usize = 3 * layers.len();
        while j < count
            invariant
                layers@.len() > 0,
                count == 3 * layers@.len(),
                j <= count,
                shapes == shapes_of(layers@),
                shapes[0] == first,
                first_misshapen(shapes, 0) == first_misshapen(shapes, j as int),
                forall|i: int|
                    0 <= i < j ==> #[trigger] shapes[i] == shape_wanted(first, i),
            decreases count - j,
        {
            let kind: BankKind = if j % 3 == 0 {
                BankKind::Gate
            } else if j % 3 == 1 {
                BankKind::Up
            } else {
                BankKind::Down
            };
            let want: [usize; 3] = if j % 3 == 2 {
                [first[1], first[0], first[2]]
            } else {
                first
            };
            let got: [usize; 3] = layers[j / 3].bank(kind).ne();
            assert(shapes[j as int] == got);
            assert(want =~= shape_wanted(first, j as int));
            if got[0] != want[0] || got[1] != want[1] || got[2] != want[2] {
                let mut m: String = kind.tensor_name(j / 3);
                m.append(": ne ");
                push_list(&mut m, &dims_list(got));
                m.append(", expected ");
                push_list(&mut m, &dims_list(want));
                return Err(m);
            }
            assert(got =~= want);
            j += 1;
        }
        if first[2] > u32::MAX as usize {
            let mut m: String = String::new();
            push_decimal(&mut m, first[2] as u64);
            m.append(" experts do not fit a u32 id");
            return Err(m);
        }
        proof {
            assert forall|l: int| 0 <= l < layers@.len() implies {
                let layer = #[trigger] layers@[l];
                &&& layer.gate.shape() == [first[0], first[1], first[2]]
                &&& layer.up.shape() == [first[0], first[1], first[2]]
                &&& layer.down.shape() == [first[1], first[0], first[2]]
            } by {
                let f3 = [first[0], first[1], first[2]];
                assert(f3 =~= first);
                assert(shapes[3 * l] == shape_wanted(first, 3 * l));
                assert(shapes[3 * l + 1] == shape_wanted(first, 3 * l + 1));
                assert(shapes[3 * l + 2] == shape_wanted(first, 3 * l + 2));
            }
        }
        let cache: Option<ExpertCache> = if cache_bytes > 0 {
            Some(ExpertCache::new(cache_bytes))
        } else {
            None
        };
        Ok(
            RoutedExperts {
                layers,
                hidden: first[0],
                ffn: first[1],
                n_experts: first[2],
                open_files: 0,
                cache,
            },
        )
    }

    /// Locate every block's banks in a (possibly split) GGUF. `cache_bytes`
    /// 0 disables the cache.
    pub fn open(
        gguf: &GgufFile,
        files: &GgufPayloadFiles,
        n_layers: usize,
        cache_bytes: usize,
    ) -> (r: Result<Self, String>)
        requires
            3 * n_layers <= usize::MAX,
        ensures
            match r {
                Ok(s) => {
                    &&& first_unopened(files.shards@, *gguf, n_layers as nat, 0) is None
                    &&& shapes_refusal(
                        placed_shapes(files.shards@, *gguf, n_layers as nat),
                    ) is None
                    &&& s.wf()
                    &&& s.layers@.len() == n_layers
                    &&& forall|j: int|
                        0 <= j < 3 * n_layers ==> #[trigger] opened_at(
                            files.shards@,
                            *gguf,
                            (j / 3) as nat,
                            kind_at(j),
                            s.layers@[j / 3].bank_of(kind_at(j)),
                        )
                    &&& s.open_files == slots_upto(
                        files.shards@,
                        *gguf,
                        3 * n_layers as int,
                    ).len()
                    &&& (s.cache is Some) == (cache_bytes > 0)
                    &&& s.cache matches Some(c) ==> c.capacity_bytes == cache_bytes
                        && c.entries@.len() == 0 && c.clock == 0 && c.hits == 0 && c.misses == 0
                        && c.evictions == 0
                },
                Err(e) => match first_unopened(files.shards@, *gguf, n_layers as nat, 0) {
                    Some(m) => e@ == m,
                    None => shapes_refusal(placed_shapes(files.shards@, *gguf, n_layers as nat))
                        == Some(e@),
                },
            },
    {
        let ghost shards = files.shards@;
        let mut layers: Vec<LayerExperts> = Vec::new();
        let mut used: Vec<usize> = Vec::new();
        let mut layer: usize = 0;
        assert(used@ =~= slots_upto(shards, *gguf, 0));
        while layer < n_layers
            invariant
                layer <= n_layers,
                3 * n_layers <= usize::MAX,
                shards == files.shards@,
                layers@.len() == layer,
                first_unopened(shards, *gguf, n_layers as nat, 0) == first_unopened(
                    shards,
                    *gguf,
                    n_layers as nat,
                    3 * layer,
                ),
                forall|j: int|
                    0 <= j < 3 * layer ==> #[trigger] opened_at(
                        shards,
                        *gguf,
                        (j / 3) as nat,
                        kind_at(j),
                        layers@[j / 3].bank_of(kind_at(j)),
                    ),
                used@ == slots_upto(shards, *gguf, 3 * layer),
            decreases n_layers - layer,
        {
            let ghost l = layer as int;
            proof {
                assert((3 * l) / 3 == l && (3 * l + 1) / 3 == l && (3 * l + 2) / 3 == l);
                assert(kind_at(3 * l) == BankKind::Gate);
                assert(kind_at(3 * l + 1) == BankKind::Up);
                assert(kind_at(3 * l + 2) == BankKind::Down);
            }
            let gate: (ExpertBank, usize) = match open_bank(gguf, files, layer, BankKind::Gate) {
                Ok(b) => b,
                Err(e) => {
                    return Err(e);
                },
            };
            note_slot(&mut used, gate.1);
            assert(first_unopened(shards, *gguf, n_layers as nat, 0) == first_unopened(
                shards,
                *gguf,
                n_layers as nat,
                3 * l + 1,
            ));
            assert(used@ == slots_upto(shards, *gguf, 3 * l + 1));
            let up: (ExpertBank, usize) = match open_bank(gguf, files, layer, BankKind::Up) {
                Ok(b) => b,
                Err(e) => {
                    return Err(e);
                },
            };
            note_slot(&mut used, up.1);
            assert(first_unopened(shards, *gguf, n_layers as nat, 0) == first_unopened(
                shards,
                *gguf,
                n_layers as nat,
                3 * l + 2,
            ));
            assert(used@ == slots_upto(shards, *gguf, 3 * l + 2));
            let down: (ExpertBank, usize) = match open_bank(gguf, files, layer, BankKind::Down) {
                Ok(b) => b,
                Err(e) => {
                    return Err(e);
                },
            };
            note_slot(&mut used, down.1);
            assert(first_unopened(shards, *gguf, n_layers as nat, 0) == first_unopened(
                shards,
                *gguf,
                n_layers as nat,
                3 * l + 3,
            ));
            assert(used@ == slots_upto(shards, *gguf, 3 * l + 3));
            let ghost before = layers@;
            layers.push(LayerExperts { gate: gate.0, up: up.0, down: down.0 });
            proof {
                assert forall|j: int| 0 <= j < 3 * (l + 1) implies #[trigger] opened_at(
                    shards,
                    *gguf,
                    (j / 3) as nat,
                    kind_at(j),
                    layers@[j / 3].bank_of(kind_at(j)),
                ) by {
                    if j < 3 * l {
                        assert(layers@[j / 3] == before[j / 3]);
                        assert(opened_at(
                            shards,
                            *gguf,
                            (j / 3) as nat,
                            kind_at(j),
                            before[j / 3].bank_of(kind_at(j)),
                        ));
                    } else {
                        assert(j == 3 * l || j == 3 * l + 1 || j == 3 * l + 2);
                    }
                }
            }
            layer += 1;
        }
        proof {
            assert forall|k: int| 0 <= k < layers@.len() implies (
            #[trigger] layers@[k]).gate.wf() && layers@[k].up.wf() && layers@[k].down.wf() by {
                assert((3 * k) / 3 == k && (3 * k + 1) / 3 == k && (3 * k + 2) / 3 == k);
                assert(opened_at(
                    shards,
                    *gguf,
                    ((3 * k) / 3) as nat,
                    kind_at(3 * k),
                    layers@[(3 * k) / 3].bank_of(kind_at(3 * k)),
                ));
                assert(opened_at(
                    shards,
                    *gguf,
                    ((3 * k + 1) / 3) as nat,
                    kind_at(3 * k + 1),
                    layers@[(3 * k + 1) / 3].bank_of(kind_at(3 * k + 1)),
                ));
                assert(opened_at(
                    shards,
                    *gguf,
                    ((3 * k + 2) / 3) as nat,
                    kind_at(3 * k + 2),
                    layers@[(3 * k + 2) / 3].bank_of(kind_at(3 * k + 2)),
                ));
            }
            let a = shapes_of(layers@);
            let b = placed_shapes(shards, *gguf, n_layers as nat);
            assert forall|j: int| 0 <= j < a.len() implies a[j] == b[j] by {
                assert(opened_at(
                    shards,
                    *gguf,
                    (j / 3) as nat,
                    kind_at(j),
                    layers@[j / 3].bank_of(kind_at(j)),
                ));
            }
            assert(a =~= b);
        }
        let mut store: RoutedExperts = match RoutedExperts::from_layers(layers, cache_bytes) {
            Ok(s) => s,
            Err(e) => {
                return Err(e);
            },
        };
        store.open_files = used.len();
        Ok(store)
    }

    /// Blocks with experts.
    pub fn n_layers(&self) -> (r: usize)
        ensures
            r == self.layers@.len(),
    {
        self.layers.len()
    }

    /// Experts per block.
    pub fn n_experts(&self) -> (r: usize)
        ensures
            r == self.n_experts,
    {
        self.n_experts
    }

    /// Model width (expert input and output).
    pub fn hidden_size(&self) -> (r: usize)
        ensures
            r == self.hidden,
    {
        self.hidden
    }

    /// Expert intermediate width.
    pub fn ffn_size(&self) -> (r: usize)
        ensures
            r == self.ffn,
    {
        self.ffn
    }

    /// The banks of one block.
    pub fn layer(&self, layer: usize) -> (r: &LayerExperts)
        requires
            layer < self.layers@.len(),
        ensures
            *r == self.layers@[layer as int],
    {
        &self.layers[layer]
    }

    /// Distinct payload files that hold a bank (0 for in-memory banks).
    pub fn open_files(&self) -> (r: usize)
        ensures
            r == self.open_files,
    {
        self.open_files
    }

    /// Cache counters, when the cache is enabled.
    pub fn cache_stats(&self) -> (r: Option<CacheStats>)
        ensures
            match (self.cache, r) {
                (None, None) => true,
                (Some(c), Some(s)) => s.capacity_bytes == c.capacity_bytes && s.used_bytes
                    == c.used_bytes && s.entries == c.entries@.len() && s.hits == c.hits
                    && s.misses == c.misses && s.evictions == c.evictions,
                _ => false,
            },
    {
        match &self.cache {
            Some(c) => {
                assert(c.entries.len() == c.entries@.len());
                Some(c.stats())
            },
            None => None,
        }
    }

    /// Bytes of one dequantized expert in single precision.
    pub open spec fn dense_bytes(self) -> int {
        3 * (self.hidden * self.ffn) * 4
    }

    /// Bytes of one dequantized expert (the cache's unit).
    pub fn dense_expert_bytes(&self) -> (r: usize)
        requires
            self.dense_bytes() <= usize::MAX,
        ensures
            r == self.dense_bytes(),
    {
        assert(0 <= self.hidden * self.ffn) by (nonlinear_arith);
        3 * (self.hidden * self.ffn) * 4
    }

    /// Why there is no such expert.
    pub open spec fn expert_refusal(self, layer: nat, expert: nat) -> Option<Seq<char>> {
        if layer >= self.layers@.len() {
            Some(
                "layer "@ + decimal(layer) + " out of range ("@ + decimal(self.layers@.len())
                    + ")"@,
            )
        } else if expert >= self.n_experts {
            Some(
                "expert "@ + decimal(expert) + " out of range ("@ + decimal(
                    self.n_experts as nat,
                ) + ")"@,
            )
        } else {
            None
        }
    }

    /// Is there such an expert?
    pub fn check_expert(&self, layer: usize, expert: usize) -> (r: Result<(), String>)
        ensures
            match r {
                Ok(_) => self.expert_refusal(layer as nat, expert as nat) is None,
                Err(e) => self.expert_refusal(layer as nat, expert as nat) == Some(e@),
            },
    {
        if layer >= self.layers.len() {
            return Err(no_such_layer(layer, self.layers.len()));
        }
        if expert >= self.n_experts {
            let mut m: String = String::new();
            m.append("expert ");
            push_decimal(&mut m, expert as u64);
            m.append(" out of range (");
            push_decimal(&mut m, self.n_experts as u64);
            m.append(")");
            return Err(m);
        }
        Ok(())
    }

    /// Why an expert cannot run on `values` input values as `n` rows.
    pub open spec fn ffn_refusal(self, layer: nat, expert: nat, values: nat, n: nat) -> Option<
        Seq<char>,
    > {
        match self.expert_refusal(layer, expert) {
            Some(m) => Some(m),
            None => len_refusal("expert input"@, values, n, self.hidden as nat),
        }
    }

    /// Where the weights of one expert come from for `n` rows, given as
    /// `values` input values. While the stored-type emulation is on the
    /// banks' own types are needed, so the cache is left alone.
    pub fn expert_ffn(
        &mut self,
        layer: usize,
        expert: usize,
        values: usize,
        n: usize,
        emulating: bool,
    ) -> (r: Result<WeightSource, String>)
        requires
            old(self).wf(),
            old(self).dense_bytes() <= usize::MAX,
            old(self).cache matches Some(c) ==> c.clock < u64::MAX && c.hits < u64::MAX
                && c.misses < u64::MAX,
        ensures
            final(self).wf(),
            final(self).layers@ == old(self).layers@,
            final(self).hidden == old(self).hidden,
            final(self).ffn == old(self).ffn,
            final(self).n_experts == old(self).n_experts,
            final(self).open_files == old(self).open_files,
            ({
                let refusal = old(self).ffn_refusal(
                    layer as nat,
                    expert as nat,
                    values as nat,
                    n as nat,
                );
                let asks = refusal is None && n > 0 && !emulating && old(self).cache is Some;
                let kept = asks && old(self).dense_bytes() <= old(
                    self,
                ).cache->0.capacity_bytes;
                let hit = kept && cached(old(self).cache->0.entries@, layer, expert);
                &&& match r {
                    Err(e) => refusal == Some(e@),
                    Ok(w) => refusal is None && w == (if n == 0 {
                        WeightSource::Nothing
                    } else if !kept {
                        WeightSource::Quantized
                    } else if hit {
                        WeightSource::Cached
                    } else {
                        WeightSource::Dequantize
                    }),
                }
                &&& !kept ==> final(self).cache == old(self).cache
                &&& kept ==> {
                    let a = old(self).cache->0;
                    let b = final(self).cache->0;
                    &&& final(self).cache is Some
                    &&& b.capacity_bytes == a.capacity_bytes
                    &&& b.clock == a.clock + 1
                    &&& b.hits == a.hits + (if hit { 1int } else { 0int })
                    &&& b.misses == a.misses + (if hit { 0int } else { 1int })
                    &&& b.evictions == a.evictions
                    &&& b.entries@ == if hit {
                        touched(
                            a.entries@,
                            entry_from(a.entries@, layer, expert, 0)->0,
                            (a.clock + 1) as u64,
                        )
                    } else {
                        a.entries@
                    }
                }
            }),
    {
        match self.check_expert(layer, expert) {
            Ok(_) => {},
            Err(e) => {
                return Err(e);
            },
        }
        match check_len("expert input", values, n, self.hidden) {
            Ok(_) => {},
            Err(e) => {
                return Err(e);
            },
        }
        if n == 0 {
            return Ok(WeightSource::Nothing);
        }
        if emulating {
            return Ok(WeightSource::Quantized);
        }
        let bytes: usize = self.dense_expert_bytes();
        let mut held: Option<ExpertCache> = None;
        std::mem::swap(&mut held, &mut self.cache);
        match held {
            None => Ok(WeightSource::Quantized),
            Some(mut c) => {
                let found: Lookup = c.lookup(layer, expert, bytes);
                self.cache = Some(c);
                match found {
                    Lookup::TooLarge => Ok(WeightSource::Quantized),
                    Lookup::Hit => Ok(WeightSource::Cached),
                    Lookup::Miss => Ok(WeightSource::Dequantize),
                }
            },
        }
    }

    /// One job per routed expert, in ascending expert id, each on exactly the
    /// token rows routed to it; `xs` is `[n x hidden]` by bit pattern. The
    /// layer's output is the weighted scatter-add of the jobs' outputs in
    /// this fixed order.
    pub fn apply_routing(&self, layer: usize, routing: &Routing, xs: &Vec<u32>) -> (r: Result<
        Vec<ExpertJob>,
        String,
    >)
        requires
            self.wf(),
        ensures
            match r {
                Err(e) => apply_refusal(*self, layer as nat, *routing, xs@.len()) == Some(e@),
                Ok(jobs) => {
                    let groups = groups_from(routing.ids@, 0, self.n_experts as nat);
                    &&& apply_refusal(*self, layer as nat, *routing, xs@.len()) is None
                    &&& jobs@.len() == groups.len()
                    &&& forall|i: int|
                        0 <= i < groups.len() ==> serves(
                            #[trigger] jobs@[i],
                            groups[i],
                            *routing,
                            xs@,
                            self.hidden as nat,
                        )
                },
            },
    {
        if layer >= self.layers.len() {
            return Err(no_such_layer(layer, self.layers.len()));
        }
        match check_len("routing ids", routing.ids.len(), routing.n, routing.k) {
            Ok(_) => {},
            Err(e) => {
                return Err(e);
            },
        }
        match check_len("routing weights", routing.weights.len(), routing.n, routing.k) {
            Ok(_) => {},
            Err(e) => {
                return Err(e);
            },
        }
        match check_len("moe input", xs.len(), routing.n, self.hidden) {
            Ok(_) => {},
            Err(e) => {
                return Err(e);
            },
        }
        let mut p: usize = 0;
        while p < routing.ids.len()
            invariant
                p <= routing.ids@.len(),
                layer < self.layers@.len(),
                len_refusal("routing ids"@, routing.ids@.len(), routing.n as nat, routing.k as nat)
                    is None,
                len_refusal(
                    "routing weights"@,
                    routing.weights@.len(),
                    routing.n as nat,
                    routing.k as nat,
                ) is None,
                len_refusal("moe input"@, xs@.len(), routing.n as nat, self.hidden as nat) is None,
                first_stray_id(routing.ids@, self.n_experts as nat, 0) == first_stray_id(
                    routing.ids@,
                    self.n_experts as nat,
                    p as int,
                ),
            decreases routing.ids@.len() - p,
        {
            if routing.ids[p] as usize >= self.n_experts {
                let mut m: String = String::new();
                m.append("routed expert ");
                push_decimal(&mut m, routing.ids[p] as u64);
                m.append(" out of range (");
                push_decimal(&mut m, self.n_experts as u64);
                m.append(")");
                return Err(m);
            }
            p += 1;
        }
        let groups: Vec<Group> = group_by_expert(&routing.ids, self.n_experts);
        let ghost views = group_views(groups@);
        let mut jobs: Vec<ExpertJob> = Vec::new();
        let mut g: usize = 0;
        while g < groups.len()
            invariant
                g <= groups@.len(),
                views == group_views(groups@),
                views == groups_from(routing.ids@, 0, self.n_experts as nat),
                routing.ids@.len() == routing.n * routing.k,
                routing.weights@.len() == routing.n * routing.k,
                xs@.len() == routing.n * self.hidden,
                jobs@.len() == g,
                forall|i: int|
                    0 <= i < g ==> serves(
                        #[trigger] jobs@[i],
                        views[i],
                        *routing,
                        xs@,
                        self.hidden as nat,
                    ),
            decreases groups@.len() - g,
        {
            let group: &Group = &groups[g];
            let ghost listed = views[g as int].1;
            proof {
                lemma_group_places(routing.ids@, 0, self.n_experts as nat, g as int);
                assert(listed =~= group.places@.map(|q: int, v: usize| v as int));
            }
            let mut tokens: Vec<usize> = Vec::new();
            let mut weights: Vec<u32> = Vec::new();
            let mut i: usize = 0;
            while i < group.places.len()
                invariant
                    i <= group.places@.len(),
                    listed == group.places@.map(|q: int, v: usize| v as int),
                    forall|q: int|
                        0 <= q < listed.len() ==> 0 <= #[trigger] listed[q] < routing.ids@.len(),
                    routing.ids@.len() == routing.n * routing.k,
                    routing.weights@.len() == routing.n * routing.k,
                    xs@.len() == routing.n * self.hidden,
                    tokens@.len() == i,
                    weights@.len() == i,
                    forall|q: int|
                        0 <= q < i ==> (#[trigger] tokens@[q]) == listed[q] / (routing.k as int),
                    forall|q: int|
                        0 <= q < i ==> (#[trigger] tokens@[q] + 1) * self.hidden <= xs@.len(),
                    forall|q: int|
                        0 <= q < i ==> (#[trigger] weights@[q]) == routing.weights@[listed[q]],
                decreases group.places@.len() - i,
            {
                let place: usize = group.places[i];
                proof {
                    assert(listed[i as int] == place);
                    let n = routing.n as int;
                    let k = routing.k as int;
                    assert(k > 0) by (nonlinear_arith)
                        requires
                            0 <= place < n * k,
                            n >= 0,
                            k >= 0,
                    ;
                    lemma_fundamental_div_mod(place as int, k);
                    let t = place as int / k;
                    assert(t < n) by (nonlinear_arith)
                        requires
                            place < n * k,
                            k > 0,
                            place as int == k * t + place as int % k,
                            place as int % k >= 0,
                    ;
                    lemma_mul_inequality(t + 1, n, self.hidden as int);
                }
                tokens.push(place / routing.k);
                weights.push(routing.weights[place]);
                i += 1;
            }
            let input: Vec<u32> = gather_rows(xs, self.hidden, &tokens);
            jobs.push(ExpertJob { expert: group.expert, tokens, weights, input });
            g += 1;
        }
        Ok(jobs)
    }
}

/// "layer .. out of range (..)".
fn no_such_layer(layer: usize, n_layers: usize) -> (r: String)
    ensures
        r@ == "layer "@ + decimal(layer as nat) + " out of range ("@ + decimal(n_layers as nat)
            + ")"@,
{
    let mut m: String = String::new();
    m.append("layer ");
    push_decimal(&mut m, layer as u64);
    m.append(" out of range (");
    push_decimal(&mut m, n_layers as u64);
    m.append(")");
    m
}

/// The payload files of the first `j` banks, each once, in first-use order.
pub open spec fn slots_upto(shards: Seq<PayloadShard>, f: GgufFile, j: int) -> Seq<usize>
    decreases j,
{
    if j <= 0 {
        Seq::empty()
    } else {
        let before = slots_upto(shards, f, j - 1);
        let slot = bank_place(shards, f, ((j - 1) / 3) as nat, kind_at(j - 1))->Ok_0.slot;
        if before.contains(slot) {
            before
        } else {
            before.push(slot)
        }
    }
}

/// Add a payload file to the list unless it is there.
fn note_slot(used: &mut Vec<usize>, slot: usize)
    ensures
        final(used)@ == (if old(used)@.contains(slot) {
            old(used)@
        } else {
            old(used)@.push(slot)
        }),
{
    let mut i: usize = 0;
    while i < used.len()
        invariant
            used@ == old(used)@,
            i <= used@.len(),
            forall|k: int| 0 <= k < i ==> used@[k] != slot,
        decreases used@.len() - i,
    {
        if used[i] == slot {
            return;
        }
        i += 1;
    }
    used.push(slot);
}

/// The places of a group are places of the routing.
proof fn lemma_group_places(ids: Seq<u32>, from: nat, n_experts: nat, g: int)
    requires
        0 <= g < groups_from(ids, from, n_experts).len(),
    ensures
        forall|q: int|
            0 <= q < groups_from(ids, from, n_experts)[g].1.len() ==> 0
                <= #[trigger] groups_from(ids, from, n_experts)[g].1[q] < ids.len(),
    decreases n_experts - from,
{
    if from < n_experts {
        let rest = groups_from(ids, from + 1, n_experts);
        let mine = places_of(ids, from as u32, ids.len());
        let all = groups_from(ids, from, n_experts);
        crate::routing::places_are_the_routed_ones(ids, from as u32, ids.len());
        if mine.len() == 0 {
            lemma_group_places(ids, from + 1, n_experts, g);
        } else if g == 0 {
            assert(all[0].1 == mine);
            assert forall|q: int| 0 <= q < mine.len() implies 0 <= #[trigger] mine[q]
                < ids.len() by {
                assert(mine.contains(mine[q]));
            }
        } else {
            assert(all[g] == rest[g - 1]);
            lemma_group_places(ids, from + 1, n_experts, g - 1);
        }
    }
}

/// Every routed place is served by exactly one job: the group of its expert.
pub proof fn every_place_is_served_once(ids: Seq<u32>, n_experts: nat, p: int)
    requires
        0 <= p < ids.len(),
        ids[p] < n_experts <= u32::MAX,
    ensures
        exists|g: int|
            0 <= g < groups_from(ids, 0, n_experts).len() && #[trigger] groups_from(
                ids,
                0,
                n_experts,
            )[g].1.contains(p),
        forall|g: int, h: int|
            0 <= g < groups_from(ids, 0, n_experts).len() && 0 <= h < groups_from(
                ids,
                0,
                n_experts,
            ).len() && (#[trigger] groups_from(ids, 0, n_experts)[g]).1.contains(p) && (
            #[trigger] groups_from(ids, 0, n_experts)[h]).1.contains(p) ==> g == h,
{
    lemma_served_from(ids, 0, n_experts, p);
}

/// The same, among the experts from `from` on.
proof fn lemma_served_from(ids: Seq<u32>, from: nat, n_experts: nat, p: int)
    requires
        0 <= p < ids.len(),
        n_experts <= u32::MAX,
    ensures
        from <= ids[p] < n_experts ==> exists|g: int|
            0 <= g < groups_from(ids, from, n_experts).len() && #[trigger] groups_from(
                ids,
                from,
                n_experts,
            )[g].1.contains(p),
        ids[p] < from ==> forall|g: int|
            0 <= g < groups_from(ids, from, n_experts).len() ==> !(#[trigger] groups_from(
                ids,
                from,
                n_experts,
            )[g]).1.contains(p),
        forall|g: int, h: int|
            0 <= g < groups_from(ids, from, n_experts).len() && 0 <= h < groups_from(
                ids,
                from,
                n_experts,
            ).len() && (#[trigger] groups_from(ids, from, n_experts)[g]).1.contains(p) && (
            #[trigger] groups_from(ids, from, n_experts)[h]).1.contains(p) ==> g == h,
    decreases n_experts - from,
{
    if from < n_experts {
        let all = groups_from(ids, from, n_experts);
        let rest = groups_from(ids, from + 1, n_experts);
        let mine = places_of(ids, from as u32, ids.len());
        crate::routing::places_are_the_routed_ones(ids, from as u32, ids.len());
        lemma_served_from(ids, from + 1, n_experts, p);
        assert(mine.contains(p) == (ids[p] == from));
        if mine.len() == 0 {
            assert(all == rest);
        } else {
            assert(all[0].1 == mine);
            assert forall|g: int| 1 <= g < all.len() implies #[trigger] all[g] == rest[g - 1] by {}
            if from < ids[p] < n_experts {
                let g = choose|g: int|
                    0 <= g < rest.len() && (#[trigger] rest[g]).1.contains(p);
                assert(all[g + 1].1.contains(p));
            }
            assert forall|g: int, h: int|
                0 <= g < all.len() && 0 <= h < all.len() && (#[trigger] all[g]).1.contains(p) && (
                #[trigger] all[h]).1.contains(p) implies g == h by {
                if g > 0 {
                    assert(rest[g - 1].1.contains(p));
                }
                if h > 0 {
                    assert(rest[h - 1].1.contains(p));
                }
            }
        }
    }
}

} // verus!
