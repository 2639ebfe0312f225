//! Cache-aware grouped-query attention: which shapes are accepted, which
//! positions a query may attend to, how key/value heads are repeated, and how
//! the cache keeps its storage type.

use crate::nn::MAX_CONTEXT_TOKENS;
use crate::text::{chars_of, decimal, lowercase, lowered, push_decimal, spells};
use vstd::arithmetic::div_mod::{lemma_fundamental_div_mod, lemma_mod_bound};
use vstd::arithmetic::mul::lemma_mul_inequality;
use vstd::prelude::*;

verus! {

/// The bit pattern of -10000: what a mask adds where a query may not attend.
/// Large enough that the softmax gives exactly zero, small enough for half
/// precision.
pub const MASKED: u32 = 0xC61C_4000;

/// What is wrong with `t` query rows after `past` positions.
pub open spec fn span_flaw(what: Seq<char>, t: nat, past: nat) -> Option<Seq<char>> {
    if past + t > MAX_CONTEXT_TOKENS {
        Some(
            what + ": position "@ + decimal(past) + "+"@ + decimal(t)
                + " exceeds MAX_CONTEXT_TOKENS ("@ + decimal(MAX_CONTEXT_TOKENS as nat) + ")"@,
        )
    } else {
        None
    }
}

/// What is wrong with `t` query rows after `past` positions.
pub(crate) fn span_complaint(what: &str, t: usize, past: usize) -> (r: Option<String>)
    ensures
        match r {
            Some(m) => span_flaw(what@, t as nat, past as nat) == Some(m@),
            None => span_flaw(what@, t as nat, past as nat) is None,
        },
{
    let over: bool = past > MAX_CONTEXT_TOKENS || t > MAX_CONTEXT_TOKENS - past;
    if over {
        let mut m: String = what.to_owned();
        m.append(": position ");
        push_decimal(&mut m, past as u64);
        m.append("+");
        push_decimal(&mut m, t as u64);
        m.append(" exceeds MAX_CONTEXT_TOKENS (");
        push_decimal(&mut m, MAX_CONTEXT_TOKENS as u64);
        m.append(")");
        return Some(m);
    }
    None
}

/// What is wrong with a mask of `t` rows after `past` positions.
pub open spec fn mask_flaw(t: nat, past: nat) -> Option<Seq<char>> {
    if t < 1 {
        Some("causal_mask: need at least one query row, got t=0"@)
    } else {
        span_flaw("causal_mask"@, t, past)
    }
}

/// What is wrong with a mask of `t` rows after `past` positions.
pub fn mask_complaint(t: usize, past: usize) -> (r: Option<String>)
    ensures
        match r {
            Some(m) => mask_flaw(t as nat, past as nat) == Some(m@),
            None => mask_flaw(t as nat, past as nat) is None,
        },
{
    if t < 1 {
        return Some("causal_mask: need at least one query row, got t=0".to_owned());
    }
    span_complaint("causal_mask", t, past)
}

/// What the mask adds for query row `i` at key column `j`.
pub open spec fn mask_at(past: int, i: int, j: int) -> u32 {
    if j > past + i {
        MASKED
    } else {
        0
    }
}

/// Cell `(i, j)` of a row-major matrix `width` wide.
pub open spec fn at<T>(v: Seq<T>, width: int, i: int, j: int) -> T {
    v[i * width + j]
}

/// Additive causal mask, `t` rows of `past + t` columns: query row `i`, at
/// absolute position `past + i`, may attend to columns up to its own.
pub fn causal_mask(t: usize, past: usize) -> (r: Vec<u32>)
    requires
        mask_flaw(t as nat, past as nat) is None,
        t * (past + t) <= usize::MAX,
    ensures
        r@.len() == t * (past + t),
        forall|i: int, j: int|
            0 <= i < t && 0 <= j < past + t ==> #[trigger] at(r@, past + t, i, j) == mask_at(
                past as int,
                i,
                j,
            ),
{
    let cols: usize = past + t;
    let mut m: Vec<u32> = Vec::new();
    let mut i: usize = 0;
    assert(0 * cols == 0) by (nonlinear_arith);
    while i < t
        invariant
            i <= t,
            cols == past + t,
            t * cols <= usize::MAX,
            m@.len() == i * cols,
            forall|a: int, j: int|
                0 <= a < i && 0 <= j < cols ==> #[trigger] at(m@, cols as int, a, j) == mask_at(
                    past as int,
                    a,
                    j,
                ),
        decreases t - i,
    {
        let ghost before = m@;
        let mut j: usize = 0;
        while j < cols
            invariant
                i < t,
                j <= cols,
                cols == past + t,
                before.len() == i * cols,
                m@.len() == i * cols + j,
                forall|q: int| 0 <= q < before.len() ==> m@[q] == before[q],
                forall|q: int| 0 <= q < j ==> #[trigger] m@[i * cols + q] == mask_at(
                    past as int,
                    i as int,
                    q,
                ),
            decreases cols - j,
        {
            if j > past + i {
                m.push(MASKED);
            } else {
                m.push(0);
            }
            j += 1;
        }
        proof {
            assert((i + 1) * cols == i * cols + cols) by (nonlinear_arith);
            assert forall|a: int, q: int| 0 <= a < i + 1 && 0 <= q < cols implies #[trigger] at(
                m@,
                cols as int,
                a,
                q,
            ) == mask_at(past as int, a, q) by {
                if a < i {
                    lemma_mul_inequality(a + 1, i as int, cols as int);
                    assert((a + 1) * cols == a * cols + cols) by (nonlinear_arith);
                    assert(0 <= a * cols) by (nonlinear_arith)
                        requires
                            0 <= a,
                    ;
                    assert(at(before, cols as int, a, q) == mask_at(past as int, a, q));
                }
            }
        }
        i += 1;
    }
    m
}

/// Decoding through a cache masks as one full forward does: row `i` after
/// `past` positions is row `past + i` from the start, and a single decode
/// step attends to everything cached.
pub proof fn a_cached_row_is_masked_as_in_the_full_forward(past: int, i: int, j: int)
    requires
        0 <= past,
        0 <= i,
    ensures
        mask_at(past, i, j) == mask_at(0, past + i, j),
        j <= past ==> mask_at(past, 0, j) == 0,
        j > past + i ==> mask_at(past, i, j) == MASKED,
{
}

/// The heads of `x` with each of its blocks of `block` values repeated
/// `group` times contiguously.
pub open spec fn repeated(x: Seq<u32>, block: int, group: int) -> Seq<u32> {
    Seq::new(
        (x.len() * group) as nat,
        |i: int| x[(i / block / group) * block + i % block],
    )
}

/// Repeated place `i` reads a place of the heads.
proof fn lemma_repeated_place(i: int, heads: int, block: int, group: int)
    requires
        heads >= 0,
        block > 0,
        group > 0,
        0 <= i < heads * block * group,
    ensures
        0 <= i / block / group < heads,
        0 <= i % block < block,
        0 <= (i / block / group) * block,
        0 <= (i / block / group) * block + i % block < heads * block,
{
    lemma_fundamental_div_mod(i, block);
    lemma_mod_bound(i, block);
    let q = i / block;
    assert(0 <= q < heads * group) by (nonlinear_arith)
        requires
            i == block * q + i % block,
            0 <= i % block < block,
            0 <= i < heads * block * group,
            block > 0,
    ;
    lemma_fundamental_div_mod(q, group);
    lemma_mod_bound(q, group);
    let h = q / group;
    assert(0 <= h < heads) by (nonlinear_arith)
        requires
            q == group * h + q % group,
            0 <= q % group < group,
            0 <= q < heads * group,
            group > 0,
    ;
    assert(0 <= h * block && h * block + i % block < heads * block) by (nonlinear_arith)
        requires
            0 <= h < heads,
            0 <= i % block < block,
    ;
}

/// Expand key/value heads: `x` holds `[b, n_kv, s, hd]`, the result
/// `[b, n_kv * group, s, hd]`, each head repeated `group` times contiguously.
/// `block` is `s * hd`.
pub fn repeat_kv(x: &Vec<u32>, heads: usize, block: usize, group: usize) -> (r: Vec<u32>)
    requires
        group >= 1,
        x@.len() == heads * block,
        heads * block * group <= usize::MAX,
    ensures
        r@ == repeated(x@, block as int, group as int),
{
    let total: usize = x.len() * group;
    let mut out: Vec<u32> = Vec::new();
    let mut i: usize = 0;
    while i < total
        invariant
            group >= 1,
            x@.len() == heads * block,
            total == x@.len() * group,
            i <= total,
            out@.len() == i,
            forall|k: int|
                0 <= k < i ==> (#[trigger] out@[k]) == repeated(
                    x@,
                    block as int,
                    group as int,
                )[k],
        decreases total - i,
    {
        proof {
            assert(block > 0) by (nonlinear_arith)
                requires
                    0 <= i < (heads * block) * group,
                    block >= 0,
                    heads >= 0,
                    group >= 1,
            ;
            lemma_repeated_place(i as int, heads as int, block as int, group as int);
            assert(x.len() == x@.len());
        }
        let source: usize = (i / block / group) * block + i % block;
        out.push(x[source]);
        i += 1;
    }
    assert(out@ =~= repeated(x@, block as int, group as int));
    out
}

/// Shape and behaviour of grouped-query attention.
#[derive(Debug, Clone, Copy, PartialEq, Eq, Structural)]
pub struct GqaAttentionConfig {
    pub hidden_size: usize,
    pub num_heads: usize,
    pub num_kv_heads: usize,
    pub head_dim: usize,
    /// Projection bias on q, k and v; the output projection never has one.
    pub bias: bool,
    /// Epsilon of the q/k norm, by bit pattern.
    pub qk_norm_eps: Option<u64>,
    /// Does the q/k norm span the whole projection, before the head split?
    pub qk_norm_projection: bool,
}

/// `(inputs, outputs, bias)` of a projection.
#[derive(Debug, Clone, Copy, PartialEq, Eq, Structural)]
pub struct Projection {
    pub inputs: usize,
    pub outputs: usize,
    pub bias: bool,
}

/// The shapes of an attention module.
#[derive(Debug, Clone, Copy, PartialEq, Eq)]
pub struct AttentionShape {
    pub q: Projection,
    pub k: Projection,
    pub v: Projection,
    pub o: Projection,
    /// Widths of the q and k norms.
    pub norms: Option<(usize, usize)>,
}

/// What is wrong with a head grouping.
pub open spec fn grouping_flaw(what: Seq<char>, heads: nat, kv_heads: nat) -> Option<Seq<char>> {
    if kv_heads < 1 || heads % kv_heads != 0 {
        Some(
            what + ": num_heads ("@ + decimal(heads)
                + ") must be a positive multiple of num_kv_heads ("@ + decimal(kv_heads) + ")"@,
        )
    } else {
        None
    }
}

/// What is wrong with a head grouping.
fn grouping_complaint(what: &str, heads: usize, kv_heads: usize) -> (r: Option<String>)
    ensures
        match r {
            Some(m) => grouping_flaw(what@, heads as nat, kv_heads as nat) == Some(m@),
            None => grouping_flaw(what@, heads as nat, kv_heads as nat) is None,
        },
{
    if kv_heads < 1 || heads % kv_heads != 0 {
        let mut m: String = what.to_owned();
        m.append(": num_heads (");
        push_decimal(&mut m, heads as u64);
        m.append(") must be a positive multiple of num_kv_heads (");
        push_decimal(&mut m, kv_heads as u64);
        m.append(")");
        return Some(m);
    }
    None
}

/// What is wrong with a forward over these heads.
pub fn forward_complaint(num_heads: usize, num_kv_heads: usize) -> (r: Option<String>)
    ensures
        match r {
            Some(m) => grouping_flaw("GQA forward"@, num_heads as nat, num_kv_heads as nat) == Some(
                m@,
            ),
            None => grouping_flaw("GQA forward"@, num_heads as nat, num_kv_heads as nat) is None,
        },
{
    grouping_complaint("GQA forward", num_heads, num_kv_heads)
}

impl GqaAttentionConfig {
    /// What is wrong with the shape.
    pub open spec fn flaw(self) -> Option<Seq<char>> {
        if grouping_flaw("GQA"@, self.num_heads as nat, self.num_kv_heads as nat) is Some {
            grouping_flaw("GQA"@, self.num_heads as nat, self.num_kv_heads as nat)
        } else if self.head_dim < 2 || self.head_dim % 2 != 0 {
            Some(
                "GQA: head_dim must be even and >= 2 for RoPE, got "@ + decimal(
                    self.head_dim as nat,
                ),
            )
        } else {
            None
        }
    }

    /// What is wrong with the shape.
    pub fn complaint(&self) -> (r: Option<String>)
        ensures
            match r {
                Some(m) => self.flaw() == Some(m@),
                None => self.flaw() is None,
            },
    {
        match grouping_complaint("GQA", self.num_heads, self.num_kv_heads) {
            Some(m) => {
                return Some(m);
            },
            None => {},
        }
        if self.head_dim < 2 || self.head_dim % 2 != 0 {
            let mut m: String = String::new();
            m.append("GQA: head_dim must be even and >= 2 for RoPE, got ");
            push_decimal(&mut m, self.head_dim as u64);
            return Some(m);
        }
        None
    }

    /// The shapes of the module.
    pub fn init(&self) -> (r: AttentionShape)
        requires
            self.flaw() is None,
            self.num_heads * self.head_dim <= usize::MAX,
            self.num_kv_heads * self.head_dim <= usize::MAX,
        ensures
            ({
                let q = (self.num_heads * self.head_dim) as usize;
                let kv = (self.num_kv_heads * self.head_dim) as usize;
                &&& r.q == (Projection { inputs: self.hidden_size, outputs: q, bias: self.bias })
                &&& r.k == (Projection { inputs: self.hidden_size, outputs: kv, bias: self.bias })
                &&& r.v == (Projection { inputs: self.hidden_size, outputs: kv, bias: self.bias })
                &&& r.o == (Projection { inputs: q, outputs: self.hidden_size, bias: false })
                &&& r.norms == (if self.qk_norm_eps is None {
                    None
                } else if self.qk_norm_projection {
                    Some((q, kv))
                } else {
                    Some((self.head_dim, self.head_dim))
                })
            }),
    {
        let q: usize = self.num_heads * self.head_dim;
        let kv: usize = self.num_kv_heads * self.head_dim;
        let norms: Option<(usize, usize)> = if self.qk_norm_eps.is_none() {
            None
        } else if self.qk_norm_projection {
            Some((q, kv))
        } else {
            Some((self.head_dim, self.head_dim))
        };
        AttentionShape {
            q: Projection { inputs: self.hidden_size, outputs: q, bias: self.bias },
            k: Projection { inputs: self.hidden_size, outputs: kv, bias: self.bias },
            v: Projection { inputs: self.hidden_size, outputs: kv, bias: self.bias },
            o: Projection { inputs: q, outputs: self.hidden_size, bias: false },
            norms,
        }
    }
}

/// Where a q/k norm applies.
#[derive(Debug, Clone, Copy, PartialEq, Eq, Structural)]
pub enum NormPlacement {
    /// On each head.
    PerHead,
    /// On the whole projection, before the head split.
    Projection,
}

/// Where a q/k norm of width `gamma` applies to `n` heads of `hd` values: a
/// checkpoint's own norm width picks its semantics. The two coincide for one
/// head.
pub fn qk_norm_placement(gamma: usize, n: usize, hd: usize) -> (r: Result<NormPlacement, String>)
    requires
        n * hd <= usize::MAX,
    ensures
        match r {
            Ok(p) => {
                &&& gamma == hd || gamma == n * hd
                &&& p == (if gamma == n * hd && n > 1 {
                    NormPlacement::Projection
                } else {
                    NormPlacement::PerHead
                })
            },
            Err(e) => {
                &&& gamma != hd && gamma != n * hd
                &&& e@ == "q/k norm width "@ + decimal(gamma as nat)
                    + " matches neither head_dim ("@ + decimal(hd as nat)
                    + ") nor the projection width ("@ + decimal((n * hd) as nat) + ")"@
            },
        },
{
    let width: usize = n * hd;
    if gamma != hd && gamma != width {
        let mut m: String = String::new();
        m.append("q/k norm width ");
        push_decimal(&mut m, gamma as u64);
        m.append(" matches neither head_dim (");
        push_decimal(&mut m, hd as u64);
        m.append(") nor the projection width (");
        push_decimal(&mut m, width as u64);
        m.append(")");
        return Err(m);
    }
    if gamma == width && n > 1 {
        Ok(NormPlacement::Projection)
    } else {
        Ok(NormPlacement::PerHead)
    }
}

/// Does the setting of the half-precision cache turn it on? Unset, `0`, `off`
/// and `false` leave it off.
pub open spec fn half_cache_set(value: Option<Seq<char>>) -> bool {
    match value {
        None => false,
        Some(v) => !(v == "0"@ || lowered(v) == "off"@ || lowered(v) == "false"@),
    }
}

/// Is the half-precision cache on, given its setting?
pub fn kv_f16_enabled(value: Option<&str>) -> (r: bool)
    ensures
        r == (match value {
            None => false,
            Some(v) => half_cache_set(Some(v@)),
        }),
{
    match value {
        None => false,
        Some(v) => {
            let chars: Vec<char> = chars_of(v);
            let lower: Vec<char> = lowercase(&chars);
            !(spells(&chars, "0") || spells(&lower, "off") || spells(&lower, "false"))
        },
    }
}

/// A storage type of the cache.
#[derive(Debug, Clone, Copy, PartialEq, Eq, Structural)]
pub enum KvType {
    Single,
    Half,
    Other,
}

/// A layer's cache: its storage type and how many positions it holds. `None`
/// until the layer's first forward.
#[derive(Debug, Clone, Copy, PartialEq, Eq, Structural)]
pub struct CachedKv {
    pub dtype: KvType,
    pub positions: usize,
}

/// What new entries are stored as: single-precision entries go into a
/// half-precision cache as halves; a fresh cache follows the setting.
pub open spec fn stored_as(cache: Option<CachedKv>, incoming: KvType, half: bool) -> KvType {
    let to_half = incoming == KvType::Single && (match cache {
        Some(c) => c.dtype == KvType::Half,
        None => half,
    });
    if to_half {
        KvType::Half
    } else {
        incoming
    }
}

/// Append `t` positions of type `incoming` to a layer's cache: what they are
/// stored as. An existing cache dictates its own type.
pub fn kv_append_as(cache: &mut Option<CachedKv>, incoming: KvType, t: usize, half: bool) -> (r:
    KvType)
    requires
        *old(cache) matches Some(c) ==> c.positions + t <= usize::MAX,
    ensures
        r == stored_as(*old(cache), incoming, half),
        *final(cache) == Some(
            (CachedKv {
                dtype: match *old(cache) {
                    Some(c) => c.dtype,
                    None => r,
                },
                positions: match *old(cache) {
                    Some(c) => (c.positions + t) as usize,
                    None => t,
                },
            }),
        ),
{
    let to_half: bool = incoming == KvType::Single && (match *cache {
        Some(c) => c.dtype == KvType::Half,
        None => half,
    });
    let stored: KvType = if to_half {
        KvType::Half
    } else {
        incoming
    };
    let next: CachedKv = match *cache {
        Some(c) => CachedKv { dtype: c.dtype, positions: c.positions + t },
        None => CachedKv { dtype: stored, positions: t },
    };
    *cache = Some(next);
    stored
}

/// Append `t` positions to a layer's cache in the configured storage type.
pub fn kv_append(
    cache: &mut Option<CachedKv>,
    incoming: KvType,
    t: usize,
    setting: Option<&str>,
) -> (r: KvType)
    requires
        *old(cache) matches Some(c) ==> c.positions + t <= usize::MAX,
    ensures
        r == stored_as(
            *old(cache),
            incoming,
            match setting {
                None => false,
                Some(v) => half_cache_set(Some(v@)),
            },
        ),
        *final(cache) == Some(
            (CachedKv {
                dtype: match *old(cache) {
                    Some(c) => c.dtype,
                    None => r,
                },
                positions: match *old(cache) {
                    Some(c) => (c.positions + t) as usize,
                    None => t,
                },
            }),
        ),
{
    let half: bool = kv_f16_enabled(setting);
    kv_append_as(cache, incoming, t, half)
}

/// The cached values of `heads` heads with the new ones behind them, head by
/// head: `a` cached and `b` new values each.
pub open spec fn appended(cached: Seq<u32>, new: Seq<u32>, heads: int, a: int, b: int) -> Seq<
    u32,
> {
    Seq::new(
        (heads * (a + b)) as nat,
        |i: int|
            if i % (a + b) < a {
                cached[(i / (a + b)) * a + i % (a + b)]
            } else {
                new[(i / (a + b)) * b + (i % (a + b) - a)]
            },
    )
}

/// The cached values of `heads` heads with the new ones behind them: `cached`
/// holds `[heads, a]`, `new` holds `[heads, b]`, with the positions of a head
/// in order.
pub fn append_positions(
    cached: &Vec<u32>,
    new: &Vec<u32>,
    heads: usize,
    a: usize,
    b: usize,
) -> (r: Vec<u32>)
    requires
        cached@.len() == heads * a,
        new@.len() == heads * b,
        heads * (a + b) <= usize::MAX,
        a + b <= usize::MAX,
    ensures
        r@ == appended(cached@, new@, heads as int, a as int, b as int),
{
    let width: usize = a + b;
    let total: usize = heads * width;
    let mut out: Vec<u32> = Vec::new();
    let mut i: usize = 0;
    while i < total
        invariant
            cached@.len() == heads * a,
            new@.len() == heads * b,
            width == a + b,
            total == heads * width,
            i <= total,
            out@.len() == i,
            forall|k: int|
                0 <= k < i ==> (#[trigger] out@[k]) == appended(
                    cached@,
                    new@,
                    heads as int,
                    a as int,
                    b as int,
                )[k],
        decreases total - i,
    {
        proof {
            assert(width > 0) by (nonlinear_arith)
                requires
                    0 <= i < heads * width,
                    width >= 0,
            ;
            lemma_fundamental_div_mod(i as int, width as int);
            lemma_mod_bound(i as int, width as int);
            let h = i as int / width as int;
            let x = i as int % width as int;
            assert(0 <= h < heads) by (nonlinear_arith)
                requires
                    i == width * h + x,
                    0 <= x < width,
                    0 <= i < heads * width,
                    width > 0,
            ;
            assert(0 <= h * a && h * a + a <= heads * a) by (nonlinear_arith)
                requires
                    0 <= h < heads,
                    a >= 0,
            ;
            assert(0 <= h * b && h * b + b <= heads * b) by (nonlinear_arith)
                requires
                    0 <= h < heads,
                    b >= 0,
            ;
            assert(cached.len() == cached@.len());
            assert(new.len() == new@.len());
        }
        let h: usize = i / width;
        let x: usize = i % width;
        if x < a {
            out.push(cached[h * a + x]);
        } else {
            out.push(new[h * b + (x - a)]);
        }
        i += 1;
    }
    assert(out@ =~= appended(cached@, new@, heads as int, a as int, b as int));
    out
}

/// A cache that started in one type stays in it: appending single-precision
/// entries to a single- or half-precision cache stores them in the cache's
/// own type, whatever the setting says by then.
pub proof fn a_cache_keeps_its_type(c: CachedKv, half: bool)
    requires
        c.dtype == KvType::Single || c.dtype == KvType::Half,
    ensures
        stored_as(Some(c), KvType::Single, half) == c.dtype,
{
}

} // verus!
