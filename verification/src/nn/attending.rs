//! What the attention, rotation, convolution and dense blocks do, place by
//! place, and which shapes they accept.

use crate::nn::attention::{
    appended, at, grouping_flaw, half_cache_set, mask_at, mask_flaw, qk_norm_placement, repeated,
    span_flaw, stored_as, AttentionShape, CachedKv, GqaAttentionConfig, KvType, NormPlacement,
};
use crate::nn::conv::{read_from, ConvState, ShortConvConfig, ShortConvShape};
use crate::nn::mlp::{MlpShape, SwiGluMlpConfig};
use crate::nn::rope::{apply_flaw, half_rotated, rotate_flaw, tables_flaw};
use crate::text::lowered;
use vstd::arithmetic::div_mod::lemma_fundamental_div_mod_converse;
use vstd::prelude::*;

verus! {

/// A query sees the cached positions, those before it and itself, and no later
/// one: there the mask adds nothing, elsewhere minus ten thousand.
pub proof fn a_query_sees_no_later_position(past: int, i: int, j: int)
    ensures
        j <= past + i ==> mask_at(past, i, j) == 0,
        j > past + i ==> mask_at(past, i, j) == 0xC61C_4000,
{
}

/// Each key/value head stands once for each query head of its group, in the
/// group's places, whole.
pub proof fn a_group_reads_one_head(
    x: Seq<u32>,
    heads: int,
    block: int,
    group: int,
    h: int,
    g: int,
    j: int,
)
    requires
        x.len() == heads * block,
        0 <= h < heads,
        0 <= g < group,
        0 <= j < block,
    ensures
        repeated(x, block, group).len() == heads * group * block,
        repeated(x, block, group)[(h * group + g) * block + j] == x[h * block + j],
{
    let q = h * group + g;
    let p = q * block + j;
    lemma_fundamental_div_mod_converse(p, block, q, j);
    lemma_fundamental_div_mod_converse(q, group, h, g);
    assert(0 <= q < heads * group) by (nonlinear_arith)
        requires
            q == h * group + g,
            0 <= h < heads,
            0 <= g < group,
    ;
    assert(heads * block * group == heads * group * block) by (nonlinear_arith);
    assert(0 <= p < heads * group * block) by (nonlinear_arith)
        requires
            p == q * block + j,
            0 <= q < heads * group,
            0 <= j < block,
    ;
}

/// Appended positions of a head stand behind the cached ones of that head.
pub proof fn new_positions_follow_the_cached(
    cached: Seq<u32>,
    new: Seq<u32>,
    heads: int,
    a: int,
    b: int,
    h: int,
    p: int,
)
    requires
        0 <= h < heads,
        0 <= a,
        0 <= b,
        0 <= p < a + b,
    ensures
        appended(cached, new, heads, a, b).len() == heads * (a + b),
        p < a ==> appended(cached, new, heads, a, b)[h * (a + b) + p] == cached[h * a + p],
        p >= a ==> appended(cached, new, heads, a, b)[h * (a + b) + p] == new[h * b + (p - a)],
{
    lemma_fundamental_div_mod_converse(h * (a + b) + p, a + b, h, p);
    assert(0 <= h * (a + b) + p < heads * (a + b)) by (nonlinear_arith)
        requires
            0 <= h < heads,
            0 <= p < a + b,
    ;
}

/// What is appended takes the type of the cache that it joins, or, where there
/// is none, the one that is set; only single precision is ever narrowed.
pub proof fn only_single_precision_is_narrowed(
    cache: Option<CachedKv>,
    incoming: KvType,
    half: bool,
)
    ensures
        incoming != KvType::Single ==> stored_as(cache, incoming, half) == incoming,
        incoming == KvType::Single && cache is None && half ==> stored_as(cache, incoming, half)
            == KvType::Half,
        incoming == KvType::Single && cache is None && !half ==> stored_as(cache, incoming, half)
            == KvType::Single,
        incoming == KvType::Single && cache is Some && cache->0.dtype == KvType::Half ==> stored_as(
            cache,
            incoming,
            half,
        ) == KvType::Half,
        incoming == KvType::Single && cache is Some && cache->0.dtype != KvType::Half ==> stored_as(
            cache,
            incoming,
            half,
        ) == KvType::Single,
{
}

/// A half-precision cache is asked for by any setting but a refusal.
pub proof fn the_half_cache_is_asked_for(value: Seq<char>)
    ensures
        !half_cache_set(None),
        half_cache_set(Some(value)) <==> value != "0"@ && lowered(value) != "off"@ && lowered(value)
            != "false"@,
{
}

/// A rotation swaps the halves of a row and flips the sign of what comes to
/// the first.
pub proof fn a_rotation_swaps_the_halves(x: Seq<u32>, rows: int, dim: int, row: int, k: int)
    requires
        dim >= 2,
        dim % 2 == 0,
        x.len() == rows * dim,
        0 <= row < rows,
        0 <= k < dim / 2,
    ensures
        half_rotated(x, dim)[row * dim + k] == x[row * dim + k + dim / 2] ^ 0x8000_0000u32,
        half_rotated(x, dim)[row * dim + k + dim / 2] == x[row * dim + k],
{
    let p = row * dim + k;
    lemma_fundamental_div_mod_converse(p, dim, row, k);
    lemma_fundamental_div_mod_converse(p + dim / 2, dim, row, k + dim / 2);
    assert(0 <= p && p + dim / 2 < rows * dim) by (nonlinear_arith)
        requires
            p == row * dim + k,
            0 <= row < rows,
            0 <= k,
            k + dim / 2 < dim,
    ;
    let b = x[p + dim / 2];
    assert(b >= 0x8000_0000u32 ==> b ^ 0x8000_0000u32 == b - 0x8000_0000u32) by (bit_vector);
    assert(b < 0x8000_0000u32 ==> b ^ 0x8000_0000u32 == b + 0x8000_0000u32) by (bit_vector);
}

/// What is accepted: positions within the longest context, an even width of at
/// least two to rotate, tables of the positions and width that they are
/// applied to, and heads that divide into groups.
pub proof fn shapes_that_attend(
    what: Seq<char>,
    t: nat,
    past: nat,
    dim: nat,
    heads: nat,
    kv_heads: nat,
    x: Seq<u64>,
    tables: Seq<u64>,
    cfg: GqaAttentionConfig,
)
    requires
        x.len() == 4,
        tables.len() == 4,
    ensures
        span_flaw(what, t, past) is None <==> past + t <= 131_072,
        mask_flaw(t, past) is None <==> t >= 1 && past + t <= 131_072,
        tables_flaw(t, past, dim) is None <==> t >= 1 && dim >= 2 && dim % 2 == 0 && past + t
            <= 131_072,
        rotate_flaw(dim) is None <==> dim >= 2 && dim % 2 == 0,
        apply_flaw(x, tables) is None <==> x[2] == tables[2] && x[3] == tables[3],
        grouping_flaw(what, heads, kv_heads) is None <==> kv_heads >= 1 && heads % kv_heads == 0,
        cfg.flaw() is None <==> {
            &&& cfg.num_kv_heads >= 1
            &&& cfg.num_heads as int % cfg.num_kv_heads as int == 0
            &&& cfg.head_dim >= 2
            &&& cfg.head_dim % 2 == 0
        },
{
}

/// Attention maps the hidden state to itself: queries as many heads wide as
/// the output projection reads, keys and values as wide as each other, a bias
/// on these three alone, and norms, where there are any, over one head or over
/// the projection.
pub proof fn attention_maps_the_hidden_state_to_itself(cfg: GqaAttentionConfig, r: AttentionShape)
    requires
        cfg.flaw() is None,
        cfg.num_heads * cfg.head_dim <= usize::MAX,
        cfg.num_kv_heads * cfg.head_dim <= usize::MAX,
        call_ensures(GqaAttentionConfig::init, (&cfg,), r),
    ensures
        r.q.inputs == cfg.hidden_size && r.k.inputs == cfg.hidden_size && r.v.inputs
            == cfg.hidden_size,
        r.o.outputs == cfg.hidden_size,
        r.q.outputs == cfg.num_heads * cfg.head_dim,
        r.o.inputs == r.q.outputs,
        r.k.outputs == cfg.num_kv_heads * cfg.head_dim,
        r.v.outputs == r.k.outputs,
        r.q.bias == cfg.bias && r.k.bias == cfg.bias && r.v.bias == cfg.bias,
        !r.o.bias,
        r.norms is Some <==> cfg.qk_norm_eps is Some,
        r.norms matches Some(n) ==> if cfg.qk_norm_projection {
            n.0 == r.q.outputs && n.1 == r.k.outputs
        } else {
            n.0 == cfg.head_dim && n.1 == cfg.head_dim
        },
{
}

/// A norm as wide as a head is applied to each head; one as wide as all heads,
/// where there are several, to the projection; any other is refused.
pub proof fn a_norm_stands_where_its_width_fits(
    gamma: usize,
    n: usize,
    hd: usize,
    r: Result<NormPlacement, String>,
)
    requires
        n * hd <= usize::MAX,
        call_ensures(qk_norm_placement, (gamma, n, hd), r),
    ensures
        r is Ok <==> gamma == hd || gamma == n * hd,
        n > 1 && gamma == n * hd ==> r == Ok::<NormPlacement, String>(NormPlacement::Projection),
        r is Ok && (n <= 1 || gamma != n * hd) ==> r == Ok::<NormPlacement, String>(
            NormPlacement::PerHead,
        ),
{
}

/// A dense block widens the hidden state twice alike and narrows it back, with
/// no bias; a configuration is accepted when neither width is nothing.
pub proof fn a_dense_block_widens_and_narrows(cfg: SwiGluMlpConfig, r: MlpShape)
    requires
        call_ensures(SwiGluMlpConfig::init, (&cfg,), r),
    ensures
        cfg.flaw() is None <==> cfg.hidden_size >= 1 && cfg.intermediate_size >= 1,
        r.gate.inputs == cfg.hidden_size && r.up.inputs == cfg.hidden_size,
        r.gate.outputs == cfg.intermediate_size && r.up.outputs == cfg.intermediate_size,
        r.down.inputs == r.gate.outputs,
        r.down.outputs == cfg.hidden_size,
        !r.gate.bias && !r.up.bias && !r.down.bias,
{
}

/// A short convolution projects to two gates and a value of every channel,
/// reads one kernel a channel with the zeros that make it causal, and projects
/// back, with no bias; a configuration needs a channel and two taps.
pub proof fn a_short_convolution_keeps_its_width(cfg: ShortConvConfig, r: ShortConvShape)
    requires
        cfg.flaw() is None,
        3 * cfg.hidden_size <= usize::MAX,
        call_ensures(ShortConvConfig::init, (&cfg,), r),
    ensures
        r.in_proj.inputs == cfg.hidden_size,
        r.in_proj.outputs == r.channels + r.channels + r.channels,
        r.channels == cfg.hidden_size,
        r.kernel == cfg.kernel_len,
        r.padding + 1 == r.kernel,
        r.out_proj.inputs == r.channels,
        r.out_proj.outputs == cfg.hidden_size,
        !r.in_proj.bias && !r.out_proj.bias,
{
}

/// A configuration of a short convolution is accepted exactly when it has a
/// channel and at least two taps.
pub proof fn a_short_convolution_must_have_taps(cfg: ShortConvConfig)
    ensures
        cfg.flaw() is None <==> cfg.hidden_size >= 1 && cfg.kernel_len >= 2,
{
}

/// A single token is read behind what is held; longer input is read from its
/// own start.
pub proof fn only_a_step_reads_what_is_held(s: ConvState, tokens: nat)
    requires
        tokens >= 1,
    ensures
        tokens == 1 ==> read_from(s, tokens) == s,
        tokens > 1 ==> read_from(s, tokens).held is None,
{
}

} // verus!
