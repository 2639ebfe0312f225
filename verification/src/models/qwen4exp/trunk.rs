//! The trunk tensor map: every tensor the architecture requires, with its
//! shape and how it is ingested, and what is done with every other tensor of
//! a file.

use crate::models::qwen4exp::config::{attention_at, attention_count, Qwen4expConfig};
use crate::models::qwen4exp::table::PLE_TABLE_TENSOR;
use crate::text::{
    chars_of, decimal, decimal_is_digits, decimal_parses_back, find_char, first_char,
    first_dot_after_digits, occurs_at, parse_size, parsed_size, push_decimal, run_matches, run_of,
    same_text, spells,
};
use vstd::prelude::*;

verus! {

/// How a trunk tensor's values become a device parameter.
#[derive(Debug, Clone, Copy, PartialEq, Eq, Structural)]
pub enum Kind {
    /// The token embedding: row-major `[vocab, E]`.
    Embedding,
    /// A projection: stored row-major `[out, in]`, used as `[in, out]`.
    Linear,
    /// A 1-D vector (norm gammas, `ssm_a`, `ssm_dt`, the shared gate).
    Vector,
    /// `ssm_conv1d`: stored `[k, channels]`, used as `[channels, 1, k]`.
    DeltaConv,
    /// `ple_conv1d`: the stored order kept as is (tap `k` of channel `c` at
    /// `k + kernel·c`).
    FlatKernel,
}

/// One trunk tensor the architecture requires: its name, its stored
/// dimensions, and how it is ingested.
#[derive(Debug)]
pub struct TrunkSpec {
    pub name: String,
    pub ne: Vec<u64>,
    pub kind: Kind,
}

/// A trunk tensor as plain text and numbers.
pub struct TrunkModel {
    pub name: Seq<char>,
    pub ne: Seq<u64>,
    pub kind: Kind,
}

impl View for TrunkSpec {
    type V = TrunkModel;

    open spec fn view(&self) -> TrunkModel {
        TrunkModel { name: self.name@, ne: self.ne@, kind: self.kind }
    }
}

/// The views of a list of trunk tensors.
pub open spec fn models(v: Seq<TrunkSpec>) -> Seq<TrunkModel> {
    Seq::new(v.len(), |i: int| v[i]@)
}

/// A one-dimensional trunk tensor.
pub open spec fn vec1(name: Seq<char>, n: int) -> TrunkModel {
    TrunkModel { name, ne: seq![n as u64], kind: Kind::Vector }
}

/// A two-dimensional trunk tensor.
pub open spec fn mat(name: Seq<char>, a: int, b: int, kind: Kind) -> TrunkModel {
    TrunkModel { name, ne: seq![a as u64, b as u64], kind }
}

/// The name of a field of block `l`.
pub open spec fn block_name(l: nat, field: Seq<char>) -> Seq<char> {
    "blk."@ + decimal(l) + "."@ + field
}

/// The tensors that belong to no block.
pub open spec fn head_specs(cfg: Qwen4expConfig) -> Seq<TrunkModel> {
    let e = cfg.hidden_size as int;
    let r = cfg.hyper_connection_low_rank as int;
    let he = cfg.hyper_connection_count * cfg.hidden_size;
    seq![
        mat("token_embd.weight"@, e, cfg.vocab_size as int, Kind::Embedding),
        mat("output.weight"@, e, cfg.vocab_size as int, Kind::Linear),
        vec1("output_hc_norm.weight"@, he),
        mat("output_hc_down.weight"@, he, r, Kind::Linear),
        mat("output_hc_up.weight"@, r, he, Kind::Linear),
    ]
}

/// The two hyper-connection mixers of block `l`.
pub open spec fn mixer_specs(cfg: Qwen4expConfig, l: nat) -> Seq<TrunkModel> {
    let r = cfg.hyper_connection_low_rank as int;
    let h = cfg.hyper_connection_count as int;
    let he = cfg.hyper_connection_count * cfg.hidden_size;
    seq![
        vec1(block_name(l, "hc_attn_norm.weight"@), he),
        mat(block_name(l, "hc_attn_down.weight"@), he, r, Kind::Linear),
        mat(block_name(l, "hc_attn_up.weight"@), r, he, Kind::Linear),
        mat(block_name(l, "hc_attn_inject.weight"@), he, h, Kind::Linear),
        vec1(block_name(l, "hc_ffn_norm.weight"@), he),
        mat(block_name(l, "hc_ffn_down.weight"@), he, r, Kind::Linear),
        mat(block_name(l, "hc_ffn_up.weight"@), r, he, Kind::Linear),
        mat(block_name(l, "hc_ffn_inject.weight"@), he, h, Kind::Linear),
    ]
}

/// The router and the shared expert of block `l`.
pub open spec fn moe_specs(cfg: Qwen4expConfig, l: nat) -> Seq<TrunkModel> {
    let e = cfg.hidden_size as int;
    let s = cfg.expert_shared_ffn_size as int;
    seq![
        mat(block_name(l, "ffn_gate_inp.weight"@), e, cfg.expert_count as int, Kind::Linear),
        vec1(block_name(l, "ffn_gate_inp_shexp.weight"@), e),
        mat(block_name(l, "ffn_gate_shexp.weight"@), e, s, Kind::Linear),
        mat(block_name(l, "ffn_up_shexp.weight"@), e, s, Kind::Linear),
        mat(block_name(l, "ffn_down_shexp.weight"@), s, e, Kind::Linear),
    ]
}

/// The gated attention of block `l`.
pub open spec fn attention_specs(cfg: Qwen4expConfig, l: nat) -> Seq<TrunkModel> {
    let e = cfg.hidden_size as int;
    let hd = cfg.head_dim as int;
    let q = cfg.num_attention_heads * cfg.head_dim;
    let kv = cfg.num_key_value_heads * cfg.head_dim;
    seq![
        mat(block_name(l, "attn_q.weight"@), e, 2 * q, Kind::Linear),
        mat(block_name(l, "attn_k.weight"@), e, kv, Kind::Linear),
        mat(block_name(l, "attn_v.weight"@), e, kv, Kind::Linear),
        mat(block_name(l, "attn_output.weight"@), q, e, Kind::Linear),
        vec1(block_name(l, "attn_q_norm.weight"@), hd),
        vec1(block_name(l, "attn_k_norm.weight"@), hd),
    ]
}

/// The gated DeltaNet of block `l`.
pub open spec fn delta_specs(cfg: Qwen4expConfig, l: nat) -> Seq<TrunkModel> {
    let e = cfg.hidden_size as int;
    let nv = cfg.n_v_heads as int;
    let di = cfg.d_inner as int;
    let conv = 2 * (cfg.n_k_heads * cfg.d_state) + cfg.d_inner;
    seq![
        mat(block_name(l, "attn_qkv.weight"@), e, conv, Kind::Linear),
        mat(block_name(l, "attn_gate.weight"@), e, di, Kind::Linear),
        mat(
            block_name(l, "ssm_conv1d.weight"@),
            cfg.conv_kernel as int,
            conv,
            Kind::DeltaConv,
        ),
        vec1(block_name(l, "ssm_dt.bias"@), nv),
        vec1(block_name(l, "ssm_a"@), nv),
        mat(block_name(l, "ssm_beta.weight"@), e, nv, Kind::Linear),
        mat(block_name(l, "ssm_alpha.weight"@), e, nv, Kind::Linear),
        vec1(block_name(l, "ssm_norm.weight"@), cfg.d_state as int),
        mat(block_name(l, "ssm_out.weight"@), di, e, Kind::Linear),
    ]
}

/// The PLE block of block `l`.
pub open spec fn ple_specs(cfg: Qwen4expConfig, l: nat) -> Seq<TrunkModel> {
    let e = cfg.hidden_size as int;
    let he = cfg.hyper_connection_count * cfg.hidden_size;
    let ep = cfg.embed_width() as int;
    seq![
        mat(block_name(l, "ple_key.weight"@), ep, he, Kind::Linear),
        mat(block_name(l, "ple_value.weight"@), ep, e, Kind::Linear),
        mat(
            block_name(l, "ple_conv1d.weight"@),
            cfg.ple_conv_kernel as int,
            he,
            Kind::FlatKernel,
        ),
        vec1(block_name(l, "ple_norm_key.weight"@), he),
        vec1(block_name(l, "ple_norm_query.weight"@), he),
        vec1(block_name(l, "ple_norm_conv.weight"@), he),
    ]
}

/// The token mixer of block `l`: attention or DeltaNet.
pub open spec fn token_mixer_specs(cfg: Qwen4expConfig, l: nat) -> Seq<TrunkModel> {
    if attention_at(cfg.full_attention_interval as nat, l) {
        attention_specs(cfg, l)
    } else {
        delta_specs(cfg, l)
    }
}

/// Does block `l` carry the PLE block?
pub open spec fn has_ple(cfg: Qwen4expConfig, l: int) -> bool {
    exists|i: int| 0 <= i < cfg.ple_layers@.len() && #[trigger] cfg.ple_layers@[i] == l
}

/// The PLE block of block `l`, where there is one.
pub open spec fn optional_ple_specs(cfg: Qwen4expConfig, l: nat) -> Seq<TrunkModel> {
    if has_ple(cfg, l as int) {
        ple_specs(cfg, l)
    } else {
        Seq::empty()
    }
}

/// Every tensor of block `l`.
pub open spec fn block_specs(cfg: Qwen4expConfig, l: nat) -> Seq<TrunkModel> {
    mixer_specs(cfg, l) + moe_specs(cfg, l) + token_mixer_specs(cfg, l) + optional_ple_specs(
        cfg,
        l,
    )
}

/// The tensors outside the blocks and those of the first `n` blocks.
pub open spec fn specs_upto(cfg: Qwen4expConfig, n: nat) -> Seq<TrunkModel>
    decreases n,
{
    if n == 0 {
        head_specs(cfg)
    } else {
        specs_upto(cfg, (n - 1) as nat) + block_specs(cfg, (n - 1) as nat)
    }
}

/// Can every trunk dimension be computed?
pub open spec fn shapes_fit(cfg: Qwen4expConfig) -> bool {
    &&& cfg.hyper_connection_count * cfg.hidden_size <= usize::MAX
    &&& 2 * (cfg.num_attention_heads * cfg.head_dim) <= usize::MAX
    &&& cfg.num_key_value_heads * cfg.head_dim <= usize::MAX
    &&& 2 * (cfg.n_k_heads * cfg.d_state) + cfg.d_inner <= usize::MAX
    &&& cfg.ple_ngram_size * cfg.ple_heads_per_ngram <= usize::MAX
    &&& cfg.embed_width() <= usize::MAX
}

/// The name of a field of block `l`.
pub fn block_field(l: usize, field: &str) -> (r: String)
    ensures
        r@ == block_name(l as nat, field@),
{
    let mut s: String = String::new();
    s.append("blk.");
    push_decimal(&mut s, l as u64);
    s.append(".");
    s.append(field);
    s
}

/// A one-dimensional trunk tensor.
fn vector_spec(name: String, n: usize) -> (r: TrunkSpec)
    ensures
        r@ == vec1(name@, n as int),
{
    let mut ne: Vec<u64> = Vec::new();
    ne.push(n as u64);
    let r: TrunkSpec = TrunkSpec { name, ne, kind: Kind::Vector };
    assert(r.ne@ =~= seq![n as u64]);
    r
}

/// A two-dimensional trunk tensor.
fn matrix_spec(name: String, a: usize, b: usize, kind: Kind) -> (r: TrunkSpec)
    ensures
        r@ == mat(name@, a as int, b as int, kind),
{
    let mut ne: Vec<u64> = Vec::new();
    ne.push(a as u64);
    ne.push(b as u64);
    let r: TrunkSpec = TrunkSpec { name, ne, kind };
    assert(r.ne@ =~= seq![a as u64, b as u64]);
    r
}

/// Append a vector of block `l`.
fn add_vector(out: &mut Vec<TrunkSpec>, l: usize, field: &str, n: usize)
    ensures
        models(final(out)@) == models(old(out)@).push(
            vec1(block_name(l as nat, field@), n as int),
        ),
{
    out.push(vector_spec(block_field(l, field), n));
    assert(models(out@) =~= models(old(out)@).push(vec1(block_name(l as nat, field@), n as int)));
}

/// Append a matrix of block `l`.
fn add_matrix(out: &mut Vec<TrunkSpec>, l: usize, field: &str, a: usize, b: usize, kind: Kind)
    ensures
        models(final(out)@) == models(old(out)@).push(
            mat(block_name(l as nat, field@), a as int, b as int, kind),
        ),
{
    out.push(matrix_spec(block_field(l, field), a, b, kind));
    assert(models(out@) =~= models(old(out)@).push(
        mat(block_name(l as nat, field@), a as int, b as int, kind),
    ));
}

/// Append the hyper-connection mixers of block `l`.
fn add_mixers(out: &mut Vec<TrunkSpec>, cfg: &Qwen4expConfig, l: usize)
    requires
        shapes_fit(*cfg),
    ensures
        models(final(out)@) == models(old(out)@) + mixer_specs(*cfg, l as nat),
{
    let r: usize = cfg.hyper_connection_low_rank;
    let h: usize = cfg.hyper_connection_count;
    let he: usize = cfg.hyper_connection_count * cfg.hidden_size;
    add_vector(out, l, "hc_attn_norm.weight", he);
    add_matrix(out, l, "hc_attn_down.weight", he, r, Kind::Linear);
    add_matrix(out, l, "hc_attn_up.weight", r, he, Kind::Linear);
    add_matrix(out, l, "hc_attn_inject.weight", he, h, Kind::Linear);
    add_vector(out, l, "hc_ffn_norm.weight", he);
    add_matrix(out, l, "hc_ffn_down.weight", he, r, Kind::Linear);
    add_matrix(out, l, "hc_ffn_up.weight", r, he, Kind::Linear);
    add_matrix(out, l, "hc_ffn_inject.weight", he, h, Kind::Linear);
    assert(models(out@) =~= models(old(out)@) + mixer_specs(*cfg, l as nat));
}

/// Append the router and the shared expert of block `l`.
fn add_moe(out: &mut Vec<TrunkSpec>, cfg: &Qwen4expConfig, l: usize)
    ensures
        models(final(out)@) == models(old(out)@) + moe_specs(*cfg, l as nat),
{
    let e: usize = cfg.hidden_size;
    let s: usize = cfg.expert_shared_ffn_size;
    add_matrix(out, l, "ffn_gate_inp.weight", e, cfg.expert_count, Kind::Linear);
    add_vector(out, l, "ffn_gate_inp_shexp.weight", e);
    add_matrix(out, l, "ffn_gate_shexp.weight", e, s, Kind::Linear);
    add_matrix(out, l, "ffn_up_shexp.weight", e, s, Kind::Linear);
    add_matrix(out, l, "ffn_down_shexp.weight", s, e, Kind::Linear);
    assert(models(out@) =~= models(old(out)@) + moe_specs(*cfg, l as nat));
}

/// Append the gated attention of block `l`.
fn add_attention(out: &mut Vec<TrunkSpec>, cfg: &Qwen4expConfig, l: usize)
    requires
        shapes_fit(*cfg),
    ensures
        models(final(out)@) == models(old(out)@) + attention_specs(*cfg, l as nat),
{
    let e: usize = cfg.hidden_size;
    let hd: usize = cfg.head_dim;
    let q: usize = cfg.num_attention_heads * cfg.head_dim;
    let kv: usize = cfg.num_key_value_heads * cfg.head_dim;
    add_matrix(out, l, "attn_q.weight", e, 2 * q, Kind::Linear);
    add_matrix(out, l, "attn_k.weight", e, kv, Kind::Linear);
    add_matrix(out, l, "attn_v.weight", e, kv, Kind::Linear);
    add_matrix(out, l, "attn_output.weight", q, e, Kind::Linear);
    add_vector(out, l, "attn_q_norm.weight", hd);
    add_vector(out, l, "attn_k_norm.weight", hd);
    assert(models(out@) =~= models(old(out)@) + attention_specs(*cfg, l as nat));
}

/// Append the gated DeltaNet of block `l`.
fn add_delta(out: &mut Vec<TrunkSpec>, cfg: &Qwen4expConfig, l: usize)
    requires
        shapes_fit(*cfg),
    ensures
        models(final(out)@) == models(old(out)@) + delta_specs(*cfg, l as nat),
{
    let e: usize = cfg.hidden_size;
    let nv: usize = cfg.n_v_heads;
    let di: usize = cfg.d_inner;
    let conv: usize = cfg.conv_dim();
    add_matrix(out, l, "attn_qkv.weight", e, conv, Kind::Linear);
    add_matrix(out, l, "attn_gate.weight", e, di, Kind::Linear);
    add_matrix(out, l, "ssm_conv1d.weight", cfg.conv_kernel, conv, Kind::DeltaConv);
    add_vector(out, l, "ssm_dt.bias", nv);
    add_vector(out, l, "ssm_a", nv);
    add_matrix(out, l, "ssm_beta.weight", e, nv, Kind::Linear);
    add_matrix(out, l, "ssm_alpha.weight", e, nv, Kind::Linear);
    add_vector(out, l, "ssm_norm.weight", cfg.d_state);
    add_matrix(out, l, "ssm_out.weight", di, e, Kind::Linear);
    assert(models(out@) =~= models(old(out)@) + delta_specs(*cfg, l as nat));
}

/// Append the PLE block of block `l`.
fn add_ple(out: &mut Vec<TrunkSpec>, cfg: &Qwen4expConfig, l: usize)
    requires
        shapes_fit(*cfg),
    ensures
        models(final(out)@) == models(old(out)@) + ple_specs(*cfg, l as nat),
{
    let he: usize = cfg.hyper_connection_count * cfg.hidden_size;
    let ep: usize = cfg.ple_embed_width();
    add_matrix(out, l, "ple_key.weight", ep, he, Kind::Linear);
    add_matrix(out, l, "ple_value.weight", ep, cfg.hidden_size, Kind::Linear);
    add_matrix(out, l, "ple_conv1d.weight", cfg.ple_conv_kernel, he, Kind::FlatKernel);
    add_vector(out, l, "ple_norm_key.weight", he);
    add_vector(out, l, "ple_norm_query.weight", he);
    add_vector(out, l, "ple_norm_conv.weight", he);
    assert(models(out@) =~= models(old(out)@) + ple_specs(*cfg, l as nat));
}

/// Does block `l` carry the PLE block?
pub fn is_ple_layer(cfg: &Qwen4expConfig, l: usize) -> (r: bool)
    ensures
        r == has_ple(*cfg, l as int),
{
    let mut i: usize = 0;
    while i < cfg.ple_layers.len()
        invariant
            i <= cfg.ple_layers@.len(),
            forall|k: int| 0 <= k < i ==> #[trigger] cfg.ple_layers@[k] != l,
        decreases cfg.ple_layers@.len() - i,
    {
        if cfg.ple_layers[i] == l {
            assert(cfg.ple_layers@[i as int] == l);
            return true;
        }
        i += 1;
    }
    false
}

/// Every trunk tensor `cfg` requires, in a stable order: the tensors outside
/// the blocks, then block by block.
pub fn trunk_specs(cfg: &Qwen4expConfig) -> (r: Vec<TrunkSpec>)
    requires
        shapes_fit(*cfg),
    ensures
        models(r@) == specs_upto(*cfg, cfg.num_layers as nat),
{
    let e: usize = cfg.hidden_size;
    let low: usize = cfg.hyper_connection_low_rank;
    let he: usize = cfg.hyper_connection_count * cfg.hidden_size;
    let mut out: Vec<TrunkSpec> = Vec::new();
    out.push(matrix_spec("token_embd.weight".to_owned(), e, cfg.vocab_size, Kind::Embedding));
    out.push(matrix_spec("output.weight".to_owned(), e, cfg.vocab_size, Kind::Linear));
    out.push(vector_spec("output_hc_norm.weight".to_owned(), he));
    out.push(matrix_spec("output_hc_down.weight".to_owned(), he, low, Kind::Linear));
    out.push(matrix_spec("output_hc_up.weight".to_owned(), low, he, Kind::Linear));
    assert(models(out@) =~= head_specs(*cfg));
    let mut l: usize = 0;
    while l < cfg.num_layers
        invariant
            l <= cfg.num_layers,
            shapes_fit(*cfg),
            models(out@) == specs_upto(*cfg, l as nat),
        decreases cfg.num_layers - l,
    {
        let ghost before = models(out@);
        add_mixers(&mut out, cfg, l);
        add_moe(&mut out, cfg, l);
        if cfg.is_attention(l) {
            add_attention(&mut out, cfg, l);
        } else {
            add_delta(&mut out, cfg, l);
        }
        if is_ple_layer(cfg, l) {
            add_ple(&mut out, cfg, l);
        }
        assert(models(out@) =~= before + block_specs(*cfg, l as nat));
        l += 1;
    }
    out
}

/// How many trunk tensors the architecture requires: 5 outside the blocks;
/// in each block 13 of the mixers and the feed-forward, 6 of an attention or
/// 9 of a DeltaNet, and 6 of a PLE block.
pub proof fn trunk_size(cfg: Qwen4expConfig, n: nat)
    ensures
        specs_upto(cfg, n).len() == 5 + 13 * n + 6 * attention_count(
            cfg.full_attention_interval as nat,
            n,
        ) + 9 * (n - attention_count(cfg.full_attention_interval as nat, n)) + 6 * ple_blocks(
            cfg,
            n,
        ),
        attention_count(cfg.full_attention_interval as nat, n) <= n,
    decreases n,
{
    if n > 0 {
        trunk_size(cfg, (n - 1) as nat);
    }
}

/// How many of the first `n` blocks carry the PLE block.
pub open spec fn ple_blocks(cfg: Qwen4expConfig, n: nat) -> nat
    decreases n,
{
    if n == 0 {
        0
    } else {
        ple_blocks(cfg, (n - 1) as nat) + if has_ple(cfg, n - 1) {
            1nat
        } else {
            0nat
        }
    }
}

/// What the loader does with a tensor that is not a trunk tensor.
#[derive(Debug, Clone, Copy, PartialEq, Eq, Structural)]
pub enum NonTrunk {
    /// Served on demand from the payload files: the routed expert banks and
    /// the PLE table. Never loaded.
    Served,
    /// The sparse-attention indexer of an attention layer. Skipped on
    /// purpose: dense attention is exact inside
    /// [`Qwen4expConfig::dense_attention_limit`], and the forward refuses
    /// past it, so these weights are unused.
    SkippedIndexer,
}

/// Is `field` one of a block's routed expert banks?
pub open spec fn is_bank_field(field: Seq<char>) -> bool {
    field == "ffn_gate_exps.weight"@ || field == "ffn_up_exps.weight"@ || field
        == "ffn_down_exps.weight"@
}

/// Is `field` one of the indexer's tensors?
pub open spec fn is_indexer_field(field: Seq<char>) -> bool {
    field == "indexer.q_proj.weight"@ || field == "indexer.k_proj.weight"@ || field
        == "indexer.q_norm.weight"@ || field == "indexer.k_norm.weight"@
}

/// What a field of block `layer` is, when it is no trunk tensor.
pub open spec fn field_class(cfg: Qwen4expConfig, layer: nat, field: Seq<char>) -> Option<
    NonTrunk,
> {
    if layer >= cfg.num_layers {
        None
    } else if is_bank_field(field) {
        Some(NonTrunk::Served)
    } else if is_indexer_field(field) && attention_at(
        cfg.full_attention_interval as nat,
        layer,
    ) {
        Some(NonTrunk::SkippedIndexer)
    } else {
        None
    }
}

/// The layer number and the field of a `blk.<layer>.<field>` name.
pub open spec fn split_block_name(name: Seq<char>) -> Option<(nat, Seq<char>)> {
    if !occurs_at(name, "blk."@, 0) {
        None
    } else {
        let rest = name.skip(4);
        match first_char(rest, '.', 0) {
            None => None,
            Some(dot) => match parsed_size(rest.take(dot)) {
                None => None,
                Some(layer) => Some((layer, rest.skip(dot + 1))),
            },
        }
    }
}

/// What a tensor that is no trunk tensor is, or `None` when the
/// architecture has no place for it.
pub open spec fn non_trunk_class(name: Seq<char>, cfg: Qwen4expConfig) -> Option<NonTrunk> {
    if name == PLE_TABLE_TENSOR@ {
        if cfg.ple_layers@.len() > 0 {
            Some(NonTrunk::Served)
        } else {
            None
        }
    } else {
        match split_block_name(name) {
            None => None,
            Some(parts) => field_class(cfg, parts.0, parts.1),
        }
    }
}

/// Classify a tensor that is no trunk tensor, or `None` when the
/// architecture has no place for it (a loud load error).
pub fn non_trunk(name: &str, cfg: &Qwen4expConfig) -> (r: Option<NonTrunk>)
    ensures
        r == non_trunk_class(name@, *cfg),
{
    if same_text(name, PLE_TABLE_TENSOR) {
        if cfg.ple_layers.len() > 0 {
            return Some(NonTrunk::Served);
        }
        return None;
    }
    let all: Vec<char> = chars_of(name);
    let prefix: Vec<char> = chars_of("blk.");
    proof {
        reveal_strlit("blk.");
    }
    if all.len() < prefix.len() || !run_matches(&all, &prefix, 0) {
        return None;
    }
    let rest: Vec<char> = run_of(&all, 4, all.len());
    assert(rest@ =~= name@.skip(4));
    let dot: usize = match find_char(&rest, '.') {
        Some(d) => d,
        None => {
            return None;
        },
    };
    let number: Vec<char> = run_of(&rest, 0, dot);
    assert(number@ =~= rest@.take(dot as int));
    let layer: usize = match parse_size(&number) {
        Some(n) => n,
        None => {
            return None;
        },
    };
    let field: Vec<char> = run_of(&rest, dot + 1, rest.len());
    assert(field@ =~= rest@.skip(dot + 1));
    if layer >= cfg.num_layers {
        return None;
    }
    if spells(&field, "ffn_gate_exps.weight") || spells(&field, "ffn_up_exps.weight")
        || spells(&field, "ffn_down_exps.weight") {
        return Some(NonTrunk::Served);
    }
    let indexer: bool = spells(&field, "indexer.q_proj.weight") || spells(
        &field,
        "indexer.k_proj.weight",
    ) || spells(&field, "indexer.q_norm.weight") || spells(&field, "indexer.k_norm.weight");
    if indexer && cfg.is_attention(layer) {
        return Some(NonTrunk::SkippedIndexer);
    }
    None
}

/// The name of a block's field takes apart into the layer and the field.
pub proof fn block_names_split(l: nat, field: Seq<char>)
    requires
        l <= usize::MAX,
    ensures
        split_block_name(block_name(l, field)) == Some((l, field)),
{
    reveal_strlit("blk.");
    reveal_strlit(".");
    let name = block_name(l, field);
    let d = decimal(l);
    decimal_is_digits(l);
    decimal_parses_back(l);
    assert(name.subrange(0, 4) =~= "blk."@);
    let rest = name.skip(4);
    assert(rest =~= d + "."@ + field);
    assert(rest.take(d.len() as int) =~= d);
    first_dot_after_digits(rest, d.len() as int, 0);
    assert(rest.skip(d.len() as int + 1) =~= field);
}

/// Every field name a block can hold: mixers, feed-forward, attention,
/// DeltaNet, PLE.
pub open spec fn all_fields() -> Seq<Seq<char>> {
    seq![
        "hc_attn_norm.weight"@,
        "hc_attn_down.weight"@,
        "hc_attn_up.weight"@,
        "hc_attn_inject.weight"@,
        "hc_ffn_norm.weight"@,
        "hc_ffn_down.weight"@,
        "hc_ffn_up.weight"@,
        "hc_ffn_inject.weight"@,
        "ffn_gate_inp.weight"@,
        "ffn_gate_inp_shexp.weight"@,
        "ffn_gate_shexp.weight"@,
        "ffn_up_shexp.weight"@,
        "ffn_down_shexp.weight"@,
        "attn_q.weight"@,
        "attn_k.weight"@,
        "attn_v.weight"@,
        "attn_output.weight"@,
        "attn_q_norm.weight"@,
        "attn_k_norm.weight"@,
        "attn_qkv.weight"@,
        "attn_gate.weight"@,
        "ssm_conv1d.weight"@,
        "ssm_dt.bias"@,
        "ssm_a"@,
        "ssm_beta.weight"@,
        "ssm_alpha.weight"@,
        "ssm_norm.weight"@,
        "ssm_out.weight"@,
        "ple_key.weight"@,
        "ple_value.weight"@,
        "ple_conv1d.weight"@,
        "ple_norm_key.weight"@,
        "ple_norm_query.weight"@,
        "ple_norm_conv.weight"@,
    ]
}

/// The place of a field name in [`all_fields`].
pub open spec fn field_place(s: Seq<char>) -> int {
    if s == "hc_attn_norm.weight"@ {
        0
    } else if s == "hc_attn_down.weight"@ {
        1
    } else if s == "hc_attn_up.weight"@ {
        2
    } else if s == "hc_attn_inject.weight"@ {
        3
    } else if s == "hc_ffn_norm.weight"@ {
        4
    } else if s == "hc_ffn_down.weight"@ {
        5
    } else if s == "hc_ffn_up.weight"@ {
        6
    } else if s == "hc_ffn_inject.weight"@ {
        7
    } else if s == "ffn_gate_inp.weight"@ {
        8
    } else if s == "ffn_gate_inp_shexp.weight"@ {
        9
    } else if s == "ffn_gate_shexp.weight"@ {
        10
    } else if s == "ffn_up_shexp.weight"@ {
        11
    } else if s == "ffn_down_shexp.weight"@ {
        12
    } else if s == "attn_q.weight"@ {
        13
    } else if s == "attn_k.weight"@ {
        14
    } else if s == "attn_v.weight"@ {
        15
    } else if s == "attn_output.weight"@ {
        16
    } else if s == "attn_q_norm.weight"@ {
        17
    } else if s == "attn_k_norm.weight"@ {
        18
    } else if s == "attn_qkv.weight"@ {
        19
    } else if s == "attn_gate.weight"@ {
        20
    } else if s == "ssm_conv1d.weight"@ {
        21
    } else if s == "ssm_dt.bias"@ {
        22
    } else if s == "ssm_a"@ {
        23
    } else if s == "ssm_beta.weight"@ {
        24
    } else if s == "ssm_alpha.weight"@ {
        25
    } else if s == "ssm_norm.weight"@ {
        26
    } else if s == "ssm_out.weight"@ {
        27
    } else if s == "ple_key.weight"@ {
        28
    } else if s == "ple_value.weight"@ {
        29
    } else if s == "ple_conv1d.weight"@ {
        30
    } else if s == "ple_norm_key.weight"@ {
        31
    } else if s == "ple_norm_query.weight"@ {
        32
    } else if s == "ple_norm_conv.weight"@ {
        33
    } else {
        -1
    }
}

/// Every field name has its own place.
proof fn lemma_field_places()
    ensures
        forall|i: int|
            0 <= i < all_fields().len() ==> field_place(#[trigger] all_fields()[i]) == i,
{
    reveal_strlit("hc_attn_norm.weight");
    assert("hc_attn_norm.weight"@.len() == 19);
    reveal_strlit("hc_attn_down.weight");
    assert("hc_attn_down.weight"@.len() == 19);
    reveal_strlit("hc_attn_up.weight");
    assert("hc_attn_up.weight"@.len() == 17);
    reveal_strlit("hc_attn_inject.weight");
    assert("hc_attn_inject.weight"@.len() == 21);
    reveal_strlit("hc_ffn_norm.weight");
    assert("hc_ffn_norm.weight"@.len() == 18);
    reveal_strlit("hc_ffn_down.weight");
    assert("hc_ffn_down.weight"@.len() == 18);
    reveal_strlit("hc_ffn_up.weight");
    assert("hc_ffn_up.weight"@.len() == 16);
    reveal_strlit("hc_ffn_inject.weight");
    assert("hc_ffn_inject.weight"@.len() == 20);
    reveal_strlit("ffn_gate_inp.weight");
    assert("ffn_gate_inp.weight"@.len() == 19);
    reveal_strlit("ffn_gate_inp_shexp.weight");
    assert("ffn_gate_inp_shexp.weight"@.len() == 25);
    reveal_strlit("ffn_gate_shexp.weight");
    assert("ffn_gate_shexp.weight"@.len() == 21);
    reveal_strlit("ffn_up_shexp.weight");
    assert("ffn_up_shexp.weight"@.len() == 19);
    reveal_strlit("ffn_down_shexp.weight");
    assert("ffn_down_shexp.weight"@.len() == 21);
    reveal_strlit("attn_q.weight");
    assert("attn_q.weight"@.len() == 13);
    reveal_strlit("attn_k.weight");
    assert("attn_k.weight"@.len() == 13);
    reveal_strlit("attn_v.weight");
    assert("attn_v.weight"@.len() == 13);
    reveal_strlit("attn_output.weight");
    assert("attn_output.weight"@.len() == 18);
    reveal_strlit("attn_q_norm.weight");
    assert("attn_q_norm.weight"@.len() == 18);
    reveal_strlit("attn_k_norm.weight");
    assert("attn_k_norm.weight"@.len() == 18);
    reveal_strlit("attn_qkv.weight");
    assert("attn_qkv.weight"@.len() == 15);
    reveal_strlit("attn_gate.weight");
    assert("attn_gate.weight"@.len() == 16);
    reveal_strlit("ssm_conv1d.weight");
    assert("ssm_conv1d.weight"@.len() == 17);
    reveal_strlit("ssm_dt.bias");
    assert("ssm_dt.bias"@.len() == 11);
    reveal_strlit("ssm_a");
    assert("ssm_a"@.len() == 5);
    reveal_strlit("ssm_beta.weight");
    assert("ssm_beta.weight"@.len() == 15);
    reveal_strlit("ssm_alpha.weight");
    assert("ssm_alpha.weight"@.len() == 16);
    reveal_strlit("ssm_norm.weight");
    assert("ssm_norm.weight"@.len() == 15);
    reveal_strlit("ssm_out.weight");
    assert("ssm_out.weight"@.len() == 14);
    reveal_strlit("ple_key.weight");
    assert("ple_key.weight"@.len() == 14);
    reveal_strlit("ple_value.weight");
    assert("ple_value.weight"@.len() == 16);
    reveal_strlit("ple_conv1d.weight");
    assert("ple_conv1d.weight"@.len() == 17);
    reveal_strlit("ple_norm_key.weight");
    assert("ple_norm_key.weight"@.len() == 19);
    reveal_strlit("ple_norm_query.weight");
    assert("ple_norm_query.weight"@.len() == 21);
    reveal_strlit("ple_norm_conv.weight");
    assert("ple_norm_conv.weight"@.len() == 20);
    assert("hc_attn_norm.weight"@[8] != "hc_attn_down.weight"@[8]);
    assert("hc_attn_norm.weight"@[0] != "ffn_gate_inp.weight"@[0]);
    assert("hc_attn_norm.weight"@[0] != "ffn_up_shexp.weight"@[0]);
    assert("hc_attn_norm.weight"@[0] != "ple_norm_key.weight"@[0]);
    assert("hc_attn_down.weight"@[0] != "ffn_gate_inp.weight"@[0]);
    assert("hc_attn_down.weight"@[0] != "ffn_up_shexp.weight"@[0]);
    assert("hc_attn_down.weight"@[0] != "ple_norm_key.weight"@[0]);
    assert("hc_attn_up.weight"@[0] != "ssm_conv1d.weight"@[0]);
    assert("hc_attn_up.weight"@[0] != "ple_conv1d.weight"@[0]);
    assert("hc_attn_inject.weight"@[0] != "ffn_gate_shexp.weight"@[0]);
    assert("hc_attn_inject.weight"@[0] != "ffn_down_shexp.weight"@[0]);
    assert("hc_attn_inject.weight"@[0] != "ple_norm_query.weight"@[0]);
    assert("hc_ffn_norm.weight"@[7] != "hc_ffn_down.weight"@[7]);
    assert("hc_ffn_norm.weight"@[0] != "attn_output.weight"@[0]);
    assert("hc_ffn_norm.weight"@[0] != "attn_q_norm.weight"@[0]);
    assert("hc_ffn_norm.weight"@[0] != "attn_k_norm.weight"@[0]);
    assert("hc_ffn_down.weight"@[0] != "attn_output.weight"@[0]);
    assert("hc_ffn_down.weight"@[0] != "attn_q_norm.weight"@[0]);
    assert("hc_ffn_down.weight"@[0] != "attn_k_norm.weight"@[0]);
    assert("hc_ffn_up.weight"@[0] != "attn_gate.weight"@[0]);
    assert("hc_ffn_up.weight"@[0] != "ssm_alpha.weight"@[0]);
    assert("hc_ffn_up.weight"@[0] != "ple_value.weight"@[0]);
    assert("hc_ffn_inject.weight"@[0] != "ple_norm_conv.weight"@[0]);
    assert("ffn_gate_inp.weight"@[4] != "ffn_up_shexp.weight"@[4]);
    assert("ffn_gate_inp.weight"@[0] != "ple_norm_key.weight"@[0]);
    assert("ffn_gate_shexp.weight"@[4] != "ffn_down_shexp.weight"@[4]);
    assert("ffn_gate_shexp.weight"@[0] != "ple_norm_query.weight"@[0]);
    assert("ffn_up_shexp.weight"@[0] != "ple_norm_key.weight"@[0]);
    assert("ffn_down_shexp.weight"@[0] != "ple_norm_query.weight"@[0]);
    assert("attn_q.weight"@[5] != "attn_k.weight"@[5]);
    assert("attn_q.weight"@[5] != "attn_v.weight"@[5]);
    assert("attn_k.weight"@[5] != "attn_v.weight"@[5]);
    assert("attn_output.weight"@[5] != "attn_q_norm.weight"@[5]);
    assert("attn_output.weight"@[5] != "attn_k_norm.weight"@[5]);
    assert("attn_q_norm.weight"@[5] != "attn_k_norm.weight"@[5]);
    assert("attn_qkv.weight"@[0] != "ssm_beta.weight"@[0]);
    assert("attn_qkv.weight"@[0] != "ssm_norm.weight"@[0]);
    assert("attn_gate.weight"@[0] != "ssm_alpha.weight"@[0]);
    assert("attn_gate.weight"@[0] != "ple_value.weight"@[0]);
    assert("ssm_conv1d.weight"@[0] != "ple_conv1d.weight"@[0]);
    assert("ssm_beta.weight"@[4] != "ssm_norm.weight"@[4]);
    assert("ssm_alpha.weight"@[0] != "ple_value.weight"@[0]);
    assert("ssm_out.weight"@[0] != "ple_key.weight"@[0]);
    assert(field_place("hc_attn_norm.weight"@) == 0);
    assert(field_place("hc_attn_down.weight"@) == 1);
    assert(field_place("hc_attn_up.weight"@) == 2);
    assert(field_place("hc_attn_inject.weight"@) == 3);
    assert(field_place("hc_ffn_norm.weight"@) == 4);
    assert(field_place("hc_ffn_down.weight"@) == 5);
    assert(field_place("hc_ffn_up.weight"@) == 6);
    assert(field_place("hc_ffn_inject.weight"@) == 7);
    assert(field_place("ffn_gate_inp.weight"@) == 8);
    assert(field_place("ffn_gate_inp_shexp.weight"@) == 9);
    assert(field_place("ffn_gate_shexp.weight"@) == 10);
    assert(field_place("ffn_up_shexp.weight"@) == 11);
    assert(field_place("ffn_down_shexp.weight"@) == 12);
    assert(field_place("attn_q.weight"@) == 13);
    assert(field_place("attn_k.weight"@) == 14);
    assert(field_place("attn_v.weight"@) == 15);
    assert(field_place("attn_output.weight"@) == 16);
    assert(field_place("attn_q_norm.weight"@) == 17);
    assert(field_place("attn_k_norm.weight"@) == 18);
    assert(field_place("attn_qkv.weight"@) == 19);
    assert(field_place("attn_gate.weight"@) == 20);
    assert(field_place("ssm_conv1d.weight"@) == 21);
    assert(field_place("ssm_dt.bias"@) == 22);
    assert(field_place("ssm_a"@) == 23);
    assert(field_place("ssm_beta.weight"@) == 24);
    assert(field_place("ssm_alpha.weight"@) == 25);
    assert(field_place("ssm_norm.weight"@) == 26);
    assert(field_place("ssm_out.weight"@) == 27);
    assert(field_place("ple_key.weight"@) == 28);
    assert(field_place("ple_value.weight"@) == 29);
    assert(field_place("ple_conv1d.weight"@) == 30);
    assert(field_place("ple_norm_key.weight"@) == 31);
    assert(field_place("ple_norm_query.weight"@) == 32);
    assert(field_place("ple_norm_conv.weight"@) == 33);
}

/// No two fields share a name.
pub proof fn field_names_are_distinct(i: int, j: int)
    requires
        0 <= i < j < all_fields().len(),
    ensures
        all_fields()[i] != all_fields()[j],
{
    lemma_field_places();
}

/// Which of [`all_fields`] the `i`-th tensor of a block is.
pub open spec fn field_slot(attention: bool, i: int) -> int {
    if i < 13 {
        i
    } else if attention {
        if i < 19 {
            i
        } else {
            i + 9
        }
    } else {
        i + 6
    }
}

/// The `i`-th tensor of a block is named after its field.
proof fn lemma_block_spec_name(cfg: Qwen4expConfig, l: nat, i: int)
    requires
        0 <= i < block_specs(cfg, l).len(),
    ensures
        0 <= field_slot(attention_at(cfg.full_attention_interval as nat, l), i)
            < all_fields().len(),
        block_specs(cfg, l)[i].name == block_name(
            l,
            all_fields()[field_slot(attention_at(cfg.full_attention_interval as nat, l), i)],
        ),
{
}

/// A tensor outside the blocks has no block name.
proof fn lemma_head_spec_names(cfg: Qwen4expConfig, i: int)
    requires
        0 <= i < 5,
    ensures
        split_block_name(head_specs(cfg)[i].name) is None,
{
    reveal_strlit("blk.");
    reveal_strlit("token_embd.weight");
    reveal_strlit("output.weight");
    reveal_strlit("output_hc_norm.weight");
    reveal_strlit("output_hc_down.weight");
    reveal_strlit("output_hc_up.weight");
    let name = head_specs(cfg)[i].name;
    assert(name[0] != 'b');
    if occurs_at(name, "blk."@, 0) {
        assert(name.subrange(0, 4)[0] == "blk."@[0]);
    }
}

/// The tensors outside the blocks have different names.
proof fn lemma_head_names_distinct(cfg: Qwen4expConfig, i: int, j: int)
    requires
        0 <= i < j < 5,
    ensures
        head_specs(cfg)[i].name != head_specs(cfg)[j].name,
{
    reveal_strlit("token_embd.weight");
    reveal_strlit("output.weight");
    reveal_strlit("output_hc_norm.weight");
    reveal_strlit("output_hc_down.weight");
    reveal_strlit("output_hc_up.weight");
    assert("output_hc_norm.weight"@[10] != "output_hc_down.weight"@[10]);
    if i == 0 {
        assert(head_specs(cfg)[j].name.len() != 17);
    } else if i == 1 {
        assert(head_specs(cfg)[j].name.len() != 13);
    } else if i == 2 {
        assert(j == 3 || j == 4);
    }
}

/// Every tensor of the first `n` blocks has the name of one of them.
proof fn lemma_spec_owner(cfg: Qwen4expConfig, n: nat, i: int)
    requires
        n <= usize::MAX,
        0 <= i < specs_upto(cfg, n).len(),
    ensures
        match split_block_name(specs_upto(cfg, n)[i].name) {
            None => i < 5 && specs_upto(cfg, n)[i] == head_specs(cfg)[i],
            Some(parts) => i >= 5 && parts.0 < n,
        },
    decreases n,
{
    if n == 0 {
        lemma_head_spec_names(cfg, i);
    } else {
        let before = specs_upto(cfg, (n - 1) as nat);
        trunk_size(cfg, (n - 1) as nat);
        if i < before.len() {
            lemma_spec_owner(cfg, (n - 1) as nat, i);
        } else {
            let l = (n - 1) as nat;
            lemma_block_spec_name(cfg, l, i - before.len());
            block_names_split(
                l,
                all_fields()[field_slot(
                    attention_at(cfg.full_attention_interval as nat, l),
                    i - before.len(),
                )],
            );
        }
    }
}

/// No trunk tensor is named twice, so counting the loaded names counts the
/// required tensors.
pub proof fn trunk_names_are_distinct(cfg: Qwen4expConfig, n: nat, i: int, j: int)
    requires
        n <= usize::MAX,
        0 <= i < j < specs_upto(cfg, n).len(),
    ensures
        specs_upto(cfg, n)[i].name != specs_upto(cfg, n)[j].name,
    decreases n,
{
    if n == 0 {
        lemma_head_names_distinct(cfg, i, j);
    } else {
        let l = (n - 1) as nat;
        let before = specs_upto(cfg, l);
        if j < before.len() {
            trunk_names_are_distinct(cfg, l, i, j);
        } else {
            let att = attention_at(cfg.full_attention_interval as nat, l);
            let b = j - before.len();
            lemma_block_spec_name(cfg, l, b);
            block_names_split(l, all_fields()[field_slot(att, b)]);
            if i < before.len() {
                lemma_spec_owner(cfg, l, i);
            } else {
                let a = i - before.len();
                lemma_block_spec_name(cfg, l, a);
                block_names_split(l, all_fields()[field_slot(att, a)]);
                field_names_are_distinct(field_slot(att, a), field_slot(att, b));
            }
        }
    }
}

/// Where the tensors of block `l` start among those of the trunk.
pub open spec fn block_start(cfg: Qwen4expConfig, l: nat) -> int {
    specs_upto(cfg, l).len() as int
}

/// The tensors of block `l` stand together, in the block's order.
pub proof fn a_blocks_tensors_stand_together(cfg: Qwen4expConfig, n: nat, l: nat, k: int)
    requires
        l < n,
        0 <= k < block_specs(cfg, l).len(),
    ensures
        0 <= block_start(cfg, l) + k < specs_upto(cfg, n).len(),
        specs_upto(cfg, n)[block_start(cfg, l) + k] == block_specs(cfg, l)[k],
    decreases n,
{
    if l < n - 1 {
        a_blocks_tensors_stand_together(cfg, (n - 1) as nat, l, k);
    }
}

/// A tensor named as a field of block `l` is the tensor of that field of that
/// block.
pub proof fn a_block_name_is_a_blocks_tensor(
    cfg: Qwen4expConfig,
    n: nat,
    i: int,
    l: nat,
    field: Seq<char>,
) -> (k: int)
    requires
        n <= usize::MAX,
        l <= usize::MAX,
        0 <= i < specs_upto(cfg, n).len(),
        specs_upto(cfg, n)[i].name == block_name(l, field),
    ensures
        l < n,
        0 <= k < block_specs(cfg, l).len(),
        i == block_start(cfg, l) + k,
        specs_upto(cfg, n)[i] == block_specs(cfg, l)[k],
        field == all_fields()[field_slot(attention_at(cfg.full_attention_interval as nat, l), k)],
        0 <= field_slot(attention_at(cfg.full_attention_interval as nat, l), k)
            < all_fields().len(),
    decreases n,
{
    block_names_split(l, field);
    if n == 0 {
        lemma_head_spec_names(cfg, i);
        0
    } else {
        let m = (n - 1) as nat;
        let before = specs_upto(cfg, m);
        if i < before.len() {
            a_block_name_is_a_blocks_tensor(cfg, m, i, l, field)
        } else {
            let k = i - before.len();
            let at = attention_at(cfg.full_attention_interval as nat, m);
            lemma_block_spec_name(cfg, m, k);
            block_names_split(m, all_fields()[field_slot(at, k)]);
            k
        }
    }
}

} // verus!
