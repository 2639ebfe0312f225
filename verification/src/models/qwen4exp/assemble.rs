//! Assembling a model from its ingested trunk tensors: which tensor goes
//! where, in which rank, with nothing missing and nothing left over.

use crate::models::qwen4exp::config::{attention_at, Qwen4expConfig};
use crate::models::qwen4exp::trunk::{
    block_field, block_name, block_specs, has_ple, head_specs, is_ple_layer, specs_upto, Kind,
    TrunkModel,
};
use crate::order::{in_order, push_quoted_list, quoted_list, sort_texts, texts};
use crate::text::{decimal, push_decimal, same_text};
use vstd::prelude::*;

verus! {

/// The number of dimensions of an ingested tensor.
#[derive(Debug, Clone, Copy, PartialEq, Eq, Structural)]
pub enum Rank {
    One,
    Two,
    Three,
}

/// The rank a kind of trunk tensor is ingested in.
pub open spec fn rank_of(kind: Kind) -> Rank {
    match kind {
        Kind::Embedding => Rank::Two,
        Kind::Linear => Rank::Two,
        Kind::Vector => Rank::One,
        Kind::DeltaConv => Rank::Three,
        Kind::FlatKernel => Rank::One,
    }
}

/// A trunk tensor the assembly takes, by name and rank.
#[derive(Debug)]
pub struct Wanted {
    pub name: String,
    pub rank: Rank,
}

/// The names and ranks of a list of tensors.
pub open spec fn wants(v: Seq<Wanted>) -> Seq<(Seq<char>, Rank)> {
    Seq::new(v.len(), |i: int| (v[i].name@, v[i].rank))
}

/// The tensors of the two hyper-connection mixers of block `l`.
pub open spec fn mixer_takes(l: nat) -> Seq<(Seq<char>, Rank)> {
    seq![
        (block_name(l, "hc_attn_norm.weight"@), Rank::One),
        (block_name(l, "hc_attn_down.weight"@), Rank::Two),
        (block_name(l, "hc_attn_up.weight"@), Rank::Two),
        (block_name(l, "hc_attn_inject.weight"@), Rank::Two),
        (block_name(l, "hc_ffn_norm.weight"@), Rank::One),
        (block_name(l, "hc_ffn_down.weight"@), Rank::Two),
        (block_name(l, "hc_ffn_up.weight"@), Rank::Two),
        (block_name(l, "hc_ffn_inject.weight"@), Rank::Two),
    ]
}

/// The tensors of the gated attention of block `l`.
pub open spec fn attention_takes(l: nat) -> Seq<(Seq<char>, Rank)> {
    seq![
        (block_name(l, "attn_q.weight"@), Rank::Two),
        (block_name(l, "attn_k.weight"@), Rank::Two),
        (block_name(l, "attn_v.weight"@), Rank::Two),
        (block_name(l, "attn_output.weight"@), Rank::Two),
        (block_name(l, "attn_q_norm.weight"@), Rank::One),
        (block_name(l, "attn_k_norm.weight"@), Rank::One),
    ]
}

/// The tensors of the gated DeltaNet of block `l`.
pub open spec fn delta_takes(l: nat) -> Seq<(Seq<char>, Rank)> {
    seq![
        (block_name(l, "attn_qkv.weight"@), Rank::Two),
        (block_name(l, "attn_gate.weight"@), Rank::Two),
        (block_name(l, "ssm_beta.weight"@), Rank::Two),
        (block_name(l, "ssm_alpha.weight"@), Rank::Two),
        (block_name(l, "ssm_dt.bias"@), Rank::One),
        (block_name(l, "ssm_a"@), Rank::One),
        (block_name(l, "ssm_conv1d.weight"@), Rank::Three),
        (block_name(l, "ssm_norm.weight"@), Rank::One),
        (block_name(l, "ssm_out.weight"@), Rank::Two),
    ]
}

/// The tensors of the PLE block of block `l`.
pub open spec fn ple_takes(l: nat) -> Seq<(Seq<char>, Rank)> {
    seq![
        (block_name(l, "ple_key.weight"@), Rank::Two),
        (block_name(l, "ple_value.weight"@), Rank::Two),
        (block_name(l, "ple_norm_key.weight"@), Rank::One),
        (block_name(l, "ple_norm_query.weight"@), Rank::One),
        (block_name(l, "ple_norm_conv.weight"@), Rank::One),
        (block_name(l, "ple_conv1d.weight"@), Rank::One),
    ]
}

/// The tensors of the router and the shared expert of block `l`.
pub open spec fn moe_takes(l: nat) -> Seq<(Seq<char>, Rank)> {
    seq![
        (block_name(l, "ffn_gate_inp.weight"@), Rank::Two),
        (block_name(l, "ffn_gate_shexp.weight"@), Rank::Two),
        (block_name(l, "ffn_up_shexp.weight"@), Rank::Two),
        (block_name(l, "ffn_down_shexp.weight"@), Rank::Two),
        (block_name(l, "ffn_gate_inp_shexp.weight"@), Rank::One),
    ]
}

/// The tensors outside the blocks.
pub open spec fn tail_takes() -> Seq<(Seq<char>, Rank)> {
    seq![
        ("token_embd.weight"@, Rank::Two),
        ("output_hc_norm.weight"@, Rank::One),
        ("output_hc_down.weight"@, Rank::Two),
        ("output_hc_up.weight"@, Rank::Two),
        ("output.weight"@, Rank::Two),
    ]
}

/// The tensors block `l` takes, in order: the mixers, the token mixer, the
/// PLE block where there is one, the router and the shared expert.
pub open spec fn block_takes(cfg: Qwen4expConfig, l: nat) -> Seq<(Seq<char>, Rank)> {
    mixer_takes(l) + (if attention_at(cfg.full_attention_interval as nat, l) {
        attention_takes(l)
    } else {
        delta_takes(l)
    }) + (if has_ple(cfg, l as int) {
        ple_takes(l)
    } else {
        Seq::empty()
    }) + moe_takes(l)
}

/// The tensors the first `n` blocks take.
pub open spec fn takes_upto(cfg: Qwen4expConfig, n: nat) -> Seq<(Seq<char>, Rank)>
    decreases n,
{
    if n == 0 {
        Seq::empty()
    } else {
        takes_upto(cfg, (n - 1) as nat) + block_takes(cfg, (n - 1) as nat)
    }
}

/// Every tensor the assembly takes, in order.
pub open spec fn takes(cfg: Qwen4expConfig) -> Seq<(Seq<char>, Rank)> {
    takes_upto(cfg, cfg.num_layers as nat) + tail_takes()
}

/// Append a tensor of block `l`.
fn want_block(out: &mut Vec<Wanted>, l: usize, field: &str, rank: Rank)
    ensures
        wants(final(out)@) == wants(old(out)@).push((block_name(l as nat, field@), rank)),
{
    out.push(Wanted { name: block_field(l, field), rank });
    assert(wants(out@) =~= wants(old(out)@).push((block_name(l as nat, field@), rank)));
}

/// Append a tensor outside the blocks.
fn want_named(out: &mut Vec<Wanted>, name: &str, rank: Rank)
    ensures
        wants(final(out)@) == wants(old(out)@).push((name@, rank)),
{
    out.push(Wanted { name: name.to_owned(), rank });
    assert(wants(out@) =~= wants(old(out)@).push((name@, rank)));
}

/// Append the mixers of block `l`.
fn want_mixers(out: &mut Vec<Wanted>, l: usize)
    ensures
        wants(final(out)@) == wants(old(out)@) + mixer_takes(l as nat),
{
    want_block(out, l, "hc_attn_norm.weight", Rank::One);
    want_block(out, l, "hc_attn_down.weight", Rank::Two);
    want_block(out, l, "hc_attn_up.weight", Rank::Two);
    want_block(out, l, "hc_attn_inject.weight", Rank::Two);
    want_block(out, l, "hc_ffn_norm.weight", Rank::One);
    want_block(out, l, "hc_ffn_down.weight", Rank::Two);
    want_block(out, l, "hc_ffn_up.weight", Rank::Two);
    want_block(out, l, "hc_ffn_inject.weight", Rank::Two);
    assert(wants(out@) =~= wants(old(out)@) + mixer_takes(l as nat));
}

/// Append the attention of block `l`.
fn want_attention(out: &mut Vec<Wanted>, l: usize)
    ensures
        wants(final(out)@) == wants(old(out)@) + attention_takes(l as nat),
{
    want_block(out, l, "attn_q.weight", Rank::Two);
    want_block(out, l, "attn_k.weight", Rank::Two);
    want_block(out, l, "attn_v.weight", Rank::Two);
    want_block(out, l, "attn_output.weight", Rank::Two);
    want_block(out, l, "attn_q_norm.weight", Rank::One);
    want_block(out, l, "attn_k_norm.weight", Rank::One);
    assert(wants(out@) =~= wants(old(out)@) + attention_takes(l as nat));
}

/// Append the DeltaNet of block `l`.
fn want_delta(out: &mut Vec<Wanted>, l: usize)
    ensures
        wants(final(out)@) == wants(old(out)@) + delta_takes(l as nat),
{
    want_block(out, l, "attn_qkv.weight", Rank::Two);
    want_block(out, l, "attn_gate.weight", Rank::Two);
    want_block(out, l, "ssm_beta.weight", Rank::Two);
    want_block(out, l, "ssm_alpha.weight", Rank::Two);
    want_block(out, l, "ssm_dt.bias", Rank::One);
    want_block(out, l, "ssm_a", Rank::One);
    want_block(out, l, "ssm_conv1d.weight", Rank::Three);
    want_block(out, l, "ssm_norm.weight", Rank::One);
    want_block(out, l, "ssm_out.weight", Rank::Two);
    assert(wants(out@) =~= wants(old(out)@) + delta_takes(l as nat));
}

/// Append the PLE block of block `l`.
fn want_ple(out: &mut Vec<Wanted>, l: usize)
    ensures
        wants(final(out)@) == wants(old(out)@) + ple_takes(l as nat),
{
    want_block(out, l, "ple_key.weight", Rank::Two);
    want_block(out, l, "ple_value.weight", Rank::Two);
    want_block(out, l, "ple_norm_key.weight", Rank::One);
    want_block(out, l, "ple_norm_query.weight", Rank::One);
    want_block(out, l, "ple_norm_conv.weight", Rank::One);
    want_block(out, l, "ple_conv1d.weight", Rank::One);
    assert(wants(out@) =~= wants(old(out)@) + ple_takes(l as nat));
}

/// Append the router and the shared expert of block `l`.
fn want_moe(out: &mut Vec<Wanted>, l: usize)
    ensures
        wants(final(out)@) == wants(old(out)@) + moe_takes(l as nat),
{
    want_block(out, l, "ffn_gate_inp.weight", Rank::Two);
    want_block(out, l, "ffn_gate_shexp.weight", Rank::Two);
    want_block(out, l, "ffn_up_shexp.weight", Rank::Two);
    want_block(out, l, "ffn_down_shexp.weight", Rank::Two);
    want_block(out, l, "ffn_gate_inp_shexp.weight", Rank::One);
    assert(wants(out@) =~= wants(old(out)@) + moe_takes(l as nat));
}

/// Every tensor the assembly takes, in order.
pub fn wanted(cfg: &Qwen4expConfig) -> (r: Vec<Wanted>)
    ensures
        wants(r@) == takes(*cfg),
{
    let mut out: Vec<Wanted> = Vec::new();
    let mut l: usize = 0;
    assert(wants(out@) =~= takes_upto(*cfg, 0));
    while l < cfg.num_layers
        invariant
            l <= cfg.num_layers,
            wants(out@) == takes_upto(*cfg, l as nat),
        decreases cfg.num_layers - l,
    {
        let ghost before = wants(out@);
        want_mixers(&mut out, l);
        if cfg.is_attention(l) {
            want_attention(&mut out, l);
        } else {
            want_delta(&mut out, l);
        }
        if is_ple_layer(cfg, l) {
            want_ple(&mut out, l);
        }
        want_moe(&mut out, l);
        assert(wants(out@) =~= before + block_takes(*cfg, l as nat));
        l += 1;
    }
    let ghost before = wants(out@);
    want_named(&mut out, "token_embd.weight", Rank::Two);
    want_named(&mut out, "output_hc_norm.weight", Rank::One);
    want_named(&mut out, "output_hc_down.weight", Rank::Two);
    want_named(&mut out, "output_hc_up.weight", Rank::Two);
    want_named(&mut out, "output.weight", Rank::Two);
    assert(wants(out@) =~= before + tail_takes());
    out
}

/// The shape of an expert store.
#[derive(Debug, Clone, Copy, PartialEq, Eq, Structural)]
pub struct ExpertShape {
    pub n_layers: usize,
    pub n_experts: usize,
    pub hidden_size: usize,
    pub ffn_size: usize,
}

/// The shape of a PLE store.
#[derive(Debug, Clone, Copy, PartialEq, Eq, Structural)]
pub struct PleShape {
    pub n_heads: usize,
    pub row_width: usize,
    pub eos: u32,
}

/// Why the stores do not fit the configuration.
pub open spec fn store_refusal(
    cfg: Qwen4expConfig,
    experts: ExpertShape,
    ple: Option<PleShape>,
) -> Option<Seq<char>> {
    if experts.n_layers != cfg.num_layers || experts.n_experts != cfg.expert_count
        || experts.hidden_size != cfg.hidden_size || experts.ffn_size != cfg.expert_ffn_size {
        Some(
            "expert store is "@ + decimal(experts.n_layers as nat) + " layers x "@ + decimal(
                experts.n_experts as nat,
            ) + " experts ("@ + decimal(experts.hidden_size as nat) + " -> "@ + decimal(
                experts.ffn_size as nat,
            ) + "), config wants "@ + decimal(cfg.num_layers as nat) + " x "@ + decimal(
                cfg.expert_count as nat,
            ) + " ("@ + decimal(cfg.hidden_size as nat) + " -> "@ + decimal(
                cfg.expert_ffn_size as nat,
            ) + ")"@,
        )
    } else {
        match ple {
            Some(p) => if cfg.ple_layers@.len() == 0 {
                Some("PLE store presence disagrees with qwen4exp.ple.layers"@)
            } else if p.n_heads * p.row_width != cfg.embed_width() || p.eos
                != cfg.ple_eos_token_id {
                Some(
                    "PLE store ("@ + decimal(p.n_heads as nat) + " heads x "@ + decimal(
                        p.row_width as nat,
                    ) + " wide, eos "@ + decimal(p.eos as nat)
                        + ") disagrees with the config ("@ + decimal(cfg.embed_width())
                        + " wide, eos "@ + decimal(cfg.ple_eos_token_id as nat) + ")"@,
                )
            } else {
                None
            },
            None => if cfg.ple_layers@.len() > 0 {
                Some("PLE store presence disagrees with qwen4exp.ple.layers"@)
            } else {
                None
            },
        }
    }
}

/// Check that the stores fit the configuration.
fn check_stores(cfg: &Qwen4expConfig, experts: &ExpertShape, ple: &Option<PleShape>) -> (r: Result<
    (),
    String,
>)
    requires
        cfg.ple_ngram_size * cfg.ple_heads_per_ngram <= usize::MAX,
        cfg.embed_width() <= usize::MAX,
        ple matches Some(p) ==> p.n_heads * p.row_width <= usize::MAX,
    ensures
        match r {
            Ok(_) => store_refusal(*cfg, *experts, *ple) is None,
            Err(e) => store_refusal(*cfg, *experts, *ple) == Some(e@),
        },
{
    if experts.n_layers != cfg.num_layers || experts.n_experts != cfg.expert_count
        || experts.hidden_size != cfg.hidden_size || experts.ffn_size != cfg.expert_ffn_size {
        let mut m: String = String::new();
        m.append("expert store is ");
        push_decimal(&mut m, experts.n_layers as u64);
        m.append(" layers x ");
        push_decimal(&mut m, experts.n_experts as u64);
        m.append(" experts (");
        push_decimal(&mut m, experts.hidden_size as u64);
        m.append(" -> ");
        push_decimal(&mut m, experts.ffn_size as u64);
        m.append("), config wants ");
        push_decimal(&mut m, cfg.num_layers as u64);
        m.append(" x ");
        push_decimal(&mut m, cfg.expert_count as u64);
        m.append(" (");
        push_decimal(&mut m, cfg.hidden_size as u64);
        m.append(" -> ");
        push_decimal(&mut m, cfg.expert_ffn_size as u64);
        m.append(")");
        return Err(m);
    }
    match ple {
        Some(p) => {
            if cfg.ple_layers.len() == 0 {
                return Err("PLE store presence disagrees with qwen4exp.ple.layers".to_owned());
            }
            let width: usize = cfg.ple_embed_width();
            if p.n_heads * p.row_width != width || p.eos != cfg.ple_eos_token_id {
                let mut m: String = String::new();
                m.append("PLE store (");
                push_decimal(&mut m, p.n_heads as u64);
                m.append(" heads x ");
                push_decimal(&mut m, p.row_width as u64);
                m.append(" wide, eos ");
                push_decimal(&mut m, p.eos as u64);
                m.append(") disagrees with the config (");
                push_decimal(&mut m, width as u64);
                m.append(" wide, eos ");
                push_decimal(&mut m, cfg.ple_eos_token_id as u64);
                m.append(")");
                return Err(m);
            }
            Ok(())
        },
        None => {
            if cfg.ple_layers.len() > 0 {
                return Err("PLE store presence disagrees with qwen4exp.ple.layers".to_owned());
            }
            Ok(())
        },
    }
}

/// The place of the tensor named `name` among the loaded ones.
pub open spec fn loaded_from(loaded: Seq<(Seq<char>, Rank)>, name: Seq<char>, from: int) -> Option<
    int,
>
    decreases loaded.len() - from,
{
    if from < 0 || from >= loaded.len() {
        None
    } else if loaded[from].0 == name {
        Some(from)
    } else {
        loaded_from(loaded, name, from + 1)
    }
}

/// The text of a rank.
pub open spec fn rank_text(rank: Rank) -> Seq<char> {
    match rank {
        Rank::One => " is not 1-D"@,
        Rank::Two => " is not 2-D"@,
        Rank::Three => " is not 3-D"@,
    }
}

/// Where the wanted tensor lies among the loaded ones, or why it cannot be
/// taken.
pub open spec fn taken(loaded: Seq<(Seq<char>, Rank)>, want: (Seq<char>, Rank)) -> Result<
    int,
    Seq<char>,
> {
    match loaded_from(loaded, want.0, 0) {
        None => Err("trunk tensor "@ + want.0 + " was not loaded"@),
        Some(i) => if loaded[i].1 != want.1 {
            Err(want.0 + rank_text(want.1))
        } else {
            Ok(i)
        },
    }
}

/// The first wanted tensor from `from` on that cannot be taken.
pub open spec fn take_refusal(
    loaded: Seq<(Seq<char>, Rank)>,
    list: Seq<(Seq<char>, Rank)>,
    from: int,
) -> Option<Seq<char>>
    decreases list.len() - from,
{
    if from < 0 || from >= list.len() {
        None
    } else {
        match taken(loaded, list[from]) {
            Err(e) => Some(e),
            Ok(_) => take_refusal(loaded, list, from + 1),
        }
    }
}

/// Is the name wanted at all?
pub open spec fn is_wanted(list: Seq<(Seq<char>, Rank)>, name: Seq<char>) -> bool {
    exists|i: int| 0 <= i < list.len() && (#[trigger] list[i]).0 == name
}

/// The loaded names among the first `n` that nobody wants.
pub open spec fn leftovers(
    loaded: Seq<(Seq<char>, Rank)>,
    list: Seq<(Seq<char>, Rank)>,
    n: nat,
) -> Seq<Seq<char>>
    decreases n,
{
    if n == 0 {
        Seq::empty()
    } else {
        let rest = leftovers(loaded, list, (n - 1) as nat);
        if is_wanted(list, loaded[n - 1].0) {
            rest
        } else {
            rest.push(loaded[n - 1].0)
        }
    }
}

/// The message that names the leftovers in order.
pub open spec fn is_leftover_message(left: Seq<Seq<char>>, m: Seq<char>) -> bool {
    exists|names: Seq<Seq<char>>|
        {
            &&& #[trigger] in_order(names)
            &&& names.to_multiset() == left.to_multiset()
            &&& m == "trunk tensors loaded but never assembled: "@ + quoted_list(names)
        }
}

/// Find a loaded tensor.
fn find_loaded(loaded: &Vec<Wanted>, name: &str) -> (r: Option<usize>)
    ensures
        match r {
            Some(i) => loaded_from(wants(loaded@), name@, 0) == Some(i as int) && i
                < loaded@.len(),
            None => loaded_from(wants(loaded@), name@, 0) is None,
        },
{
    let mut i: usize = 0;
    while i < loaded.len()
        invariant
            i <= loaded@.len(),
            loaded_from(wants(loaded@), name@, 0) == loaded_from(
                wants(loaded@),
                name@,
                i as int,
            ),
        decreases loaded@.len() - i,
    {
        assert(wants(loaded@)[i as int].0 == loaded@[i as int].name@);
        if same_text(loaded[i].name.as_str(), name) {
            return Some(i);
        }
        i += 1;
    }
    None
}

/// Is the name wanted?
fn wants_name(list: &Vec<Wanted>, name: &str) -> (r: bool)
    ensures
        r == is_wanted(wants(list@), name@),
{
    let mut i: usize = 0;
    while i < list.len()
        invariant
            i <= list@.len(),
            forall|k: int| 0 <= k < i ==> (#[trigger] wants(list@)[k]).0 != name@,
        decreases list@.len() - i,
    {
        assert(wants(list@)[i as int].0 == list@[i as int].name@);
        if same_text(list[i].name.as_str(), name) {
            return true;
        }
        i += 1;
    }
    false
}

/// Take one wanted tensor.
fn take(loaded: &Vec<Wanted>, want: &Wanted) -> (r: Result<usize, String>)
    ensures
        match r {
            Ok(i) => i < loaded@.len() && taken(wants(loaded@), (want.name@, want.rank)) == Ok::<
                _,
                Seq<char>,
            >(i as int),
            Err(e) => taken(wants(loaded@), (want.name@, want.rank)) == Err::<int, _>(e@),
        },
{
    match find_loaded(loaded, want.name.as_str()) {
        None => {
            let mut m: String = String::new();
            m.append("trunk tensor ");
            m.append(want.name.as_str());
            m.append(" was not loaded");
            Err(m)
        },
        Some(i) => {
            assert(wants(loaded@)[i as int].1 == loaded@[i as int].rank);
            if loaded[i].rank != want.rank {
                let mut m: String = want.name.clone();
                match want.rank {
                    Rank::One => {
                        m.append(" is not 1-D");
                    },
                    Rank::Two => {
                        m.append(" is not 2-D");
                    },
                    Rank::Three => {
                        m.append(" is not 3-D");
                    },
                }
                return Err(m);
            }
            Ok(i)
        },
    }
}

/// Why an assembly is refused before its leftovers are looked at.
pub open spec fn assembly_refusal(
    cfg: Qwen4expConfig,
    loaded: Seq<(Seq<char>, Rank)>,
    experts: ExpertShape,
    ple: Option<PleShape>,
    blocks: Result<(), String>,
) -> Option<Seq<char>> {
    if cfg.refusal_with(blocks) is Some {
        cfg.refusal_with(blocks)
    } else if store_refusal(cfg, experts, ple) is Some {
        store_refusal(cfg, experts, ple)
    } else {
        take_refusal(loaded, takes(cfg), 0)
    }
}

/// Assemble a model from its loaded trunk tensors: the place of each wanted
/// tensor among the loaded ones, in the order of [`wanted`]. Every loaded
/// tensor is consumed; a leftover is an error (it would be a silently
/// ignored weight). `blocks` is the verdict of the shared blocks on their
/// configuration.
pub fn assemble(
    cfg: &Qwen4expConfig,
    loaded: &Vec<Wanted>,
    experts: &ExpertShape,
    ple: &Option<PleShape>,
    blocks: Result<(), String>,
) -> (r: Result<Vec<usize>, String>)
    requires
        cfg.ple_layers_fit(),
        cfg.ple_ngram_size * cfg.ple_heads_per_ngram <= usize::MAX,
        cfg.embed_width() <= usize::MAX,
        ple matches Some(p) ==> p.n_heads * p.row_width <= usize::MAX,
    ensures
        ({
            let have = wants(loaded@);
            let left = leftovers(have, takes(*cfg), have.len());
            match r {
                Ok(slots) => {
                    &&& assembly_refusal(*cfg, have, *experts, *ple, blocks) is None
                    &&& left.len() == 0
                    &&& slots@.len() == takes(*cfg).len()
                    &&& forall|i: int|
                        0 <= i < slots@.len() ==> taken(have, #[trigger] takes(*cfg)[i]) == Ok::<
                            _,
                            Seq<char>,
                        >(slots@[i] as int)
                },
                Err(e) => match assembly_refusal(*cfg, have, *experts, *ple, blocks) {
                    Some(m) => e@ == m,
                    None => left.len() > 0 && is_leftover_message(left, e@),
                },
            }
        }),
{
    match cfg.validate(blocks) {
        Ok(_) => {},
        Err(e) => {
            return Err(e);
        },
    }
    match check_stores(cfg, experts, ple) {
        Ok(_) => {},
        Err(e) => {
            return Err(e);
        },
    }
    let list: Vec<Wanted> = wanted(cfg);
    let ghost have = wants(loaded@);
    let mut slots: Vec<usize> = Vec::new();
    let mut i: usize = 0;
    while i < list.len()
        invariant
            i <= list@.len(),
            wants(list@) == takes(*cfg),
            have == wants(loaded@),
            cfg.refusal_with(blocks) is None,
            store_refusal(*cfg, *experts, *ple) is None,
            take_refusal(have, takes(*cfg), 0) == take_refusal(have, takes(*cfg), i as int),
            slots@.len() == i,
            forall|k: int|
                0 <= k < i ==> taken(have, #[trigger] takes(*cfg)[k]) == Ok::<_, Seq<char>>(
                    slots@[k] as int,
                ),
        decreases list@.len() - i,
    {
        assert(takes(*cfg)[i as int] == (list@[i as int].name@, list@[i as int].rank));
        match take(loaded, &list[i]) {
            Ok(k) => {
                slots.push(k);
            },
            Err(e) => {
                return Err(e);
            },
        }
        i += 1;
    }
    let mut left: Vec<String> = Vec::new();
    let mut k: usize = 0;
    assert(texts(left@) =~= leftovers(have, takes(*cfg), 0));
    while k < loaded.len()
        invariant
            k <= loaded@.len(),
            wants(list@) == takes(*cfg),
            have == wants(loaded@),
            texts(left@) == leftovers(have, takes(*cfg), k as nat),
        decreases loaded@.len() - k,
    {
        assert(have[k as int].0 == loaded@[k as int].name@);
        if !wants_name(&list, loaded[k].name.as_str()) {
            let ghost before = texts(left@);
            left.push(loaded[k].name.clone());
            assert(texts(left@) =~= before.push(loaded@[k as int].name@));
        }
        k += 1;
    }
    if left.len() > 0 {
        let sorted: Vec<String> = sort_texts(left);
        let mut m: String = String::new();
        m.append("trunk tensors loaded but never assembled: ");
        push_quoted_list(&mut m, &sorted);
        assert(in_order(texts(sorted@)));
        return Err(m);
    }
    assert(texts(left@).len() == 0);
    Ok(slots)
}

/// Is the wanted tensor one of the trunk tensors, ingested in that rank?
pub open spec fn in_trunk(specs: Seq<TrunkModel>, want: (Seq<char>, Rank)) -> bool {
    exists|k: int|
        0 <= k < specs.len() && (#[trigger] specs[k]).name == want.0 && rank_of(specs[k].kind)
            == want.1
}

/// Does the assembly take the trunk tensor, in the rank it is ingested in?
pub open spec fn in_takes(list: Seq<(Seq<char>, Rank)>, spec: TrunkModel) -> bool {
    exists|i: int|
        0 <= i < list.len() && #[trigger] list[i] == (spec.name, rank_of(spec.kind))
}

/// Where the `i`-th tensor a block takes stands among the block's trunk
/// tensors.
spec fn block_place(attention: bool, ple: bool, i: int) -> int {
    let mixer: int = if attention {
        6
    } else {
        9
    };
    let extra: int = if ple {
        6
    } else {
        0
    };
    if i < 8 {
        i
    } else if i < 8 + mixer {
        let k = i - 8;
        13 + if attention {
            k
        } else if k == 2 {
            5
        } else if k == 3 {
            6
        } else if k == 4 {
            3
        } else if k == 5 {
            4
        } else if k == 6 {
            2
        } else {
            k
        }
    } else if i < 8 + mixer + extra {
        let k = i - 8 - mixer;
        13 + mixer + if k == 5 {
            2
        } else if k >= 2 {
            k + 1
        } else {
            k
        }
    } else {
        let k = i - 8 - mixer - extra;
        8 + if k == 0 {
            0
        } else if k == 4 {
            1
        } else {
            k + 1
        }
    }
}

/// The way back from a block's trunk tensors to what the block takes.
spec fn block_turn(attention: bool, ple: bool, k: int) -> int {
    let mixer: int = if attention {
        6
    } else {
        9
    };
    let extra: int = if ple {
        6
    } else {
        0
    };
    if k < 8 {
        k
    } else if k < 13 {
        let i = k - 8;
        8 + mixer + extra + if i == 0 {
            0
        } else if i == 1 {
            4
        } else {
            i - 1
        }
    } else if k < 13 + mixer {
        let i = k - 13;
        8 + if attention {
            i
        } else if i == 5 {
            2
        } else if i == 6 {
            3
        } else if i == 3 {
            4
        } else if i == 4 {
            5
        } else if i == 2 {
            6
        } else {
            i
        }
    } else {
        let i = k - 13 - mixer;
        8 + mixer + if i == 2 {
            5
        } else if i > 2 {
            i - 1
        } else {
            i
        }
    }
}

/// A block takes its own trunk tensors.
proof fn lemma_block_takes(cfg: Qwen4expConfig, l: nat)
    ensures
        block_takes(cfg, l).len() == block_specs(cfg, l).len(),
        forall|i: int|
            0 <= i < block_takes(cfg, l).len() ==> in_trunk(
                block_specs(cfg, l),
                #[trigger] block_takes(cfg, l)[i],
            ),
        forall|k: int|
            0 <= k < block_specs(cfg, l).len() ==> in_takes(
                block_takes(cfg, l),
                #[trigger] block_specs(cfg, l)[k],
            ),
{
    let list = block_takes(cfg, l);
    let specs = block_specs(cfg, l);
    let att = attention_at(cfg.full_attention_interval as nat, l);
    let ple = has_ple(cfg, l as int);
    assert forall|i: int| 0 <= i < list.len() implies in_trunk(specs, #[trigger] list[i]) by {
        let k = block_place(att, ple, i);
        assert(0 <= k < specs.len());
        assert(specs[k].name == list[i].0 && rank_of(specs[k].kind) == list[i].1);
    }
    assert forall|k: int| 0 <= k < specs.len() implies in_takes(list, #[trigger] specs[k]) by {
        let i = block_turn(att, ple, k);
        assert(0 <= i < list.len());
        assert(list[i] == (specs[k].name, rank_of(specs[k].kind)));
    }
}

/// The first `n` blocks take the trunk tensors of the first `n` blocks.
proof fn lemma_takes_upto(cfg: Qwen4expConfig, n: nat)
    ensures
        takes_upto(cfg, n).len() + 5 == specs_upto(cfg, n).len(),
        forall|i: int|
            0 <= i < takes_upto(cfg, n).len() ==> in_trunk(
                specs_upto(cfg, n),
                #[trigger] takes_upto(cfg, n)[i],
            ),
        forall|k: int|
            5 <= k < specs_upto(cfg, n).len() ==> in_takes(
                takes_upto(cfg, n),
                #[trigger] specs_upto(cfg, n)[k],
            ),
        forall|k: int| 0 <= k < 5 ==> #[trigger] specs_upto(cfg, n)[k] == head_specs(cfg)[k],
    decreases n,
{
    if n > 0 {
        let l = (n - 1) as nat;
        lemma_takes_upto(cfg, l);
        lemma_block_takes(cfg, l);
        let ot = takes_upto(cfg, l);
        let os = specs_upto(cfg, l);
        let nt = takes_upto(cfg, n);
        let ns = specs_upto(cfg, n);
        assert forall|i: int| 0 <= i < nt.len() implies in_trunk(ns, #[trigger] nt[i]) by {
            if i < ot.len() {
                assert(nt[i] == ot[i]);
                assert(in_trunk(os, ot[i]));
                let k = choose|k: int|
                    0 <= k < os.len() && (#[trigger] os[k]).name == ot[i].0 && rank_of(
                        os[k].kind,
                    ) == ot[i].1;
                assert(ns[k] == os[k]);
            } else {
                let b = block_takes(cfg, l)[i - ot.len()];
                assert(nt[i] == b);
                let k = choose|k: int|
                    0 <= k < block_specs(cfg, l).len() && (#[trigger] block_specs(
                        cfg,
                        l,
                    )[k]).name == b.0 && rank_of(block_specs(cfg, l)[k].kind) == b.1;
                assert(ns[os.len() + k] == block_specs(cfg, l)[k]);
            }
        }
        assert forall|k: int| 5 <= k < ns.len() implies in_takes(nt, #[trigger] ns[k]) by {
            if k < os.len() {
                assert(ns[k] == os[k]);
                assert(in_takes(ot, os[k]));
                let i = choose|i: int|
                    0 <= i < ot.len() && #[trigger] ot[i] == (os[k].name, rank_of(os[k].kind));
                assert(nt[i] == ot[i]);
            } else {
                let b = block_specs(cfg, l)[k - os.len()];
                assert(ns[k] == b);
                let i = choose|i: int|
                    0 <= i < block_takes(cfg, l).len() && #[trigger] block_takes(cfg, l)[i] == (
                        b.name,
                        rank_of(b.kind),
                    );
                assert(nt[ot.len() + i] == block_takes(cfg, l)[i]);
            }
        }
        assert forall|k: int| 0 <= k < 5 implies #[trigger] ns[k] == head_specs(cfg)[k] by {
            assert(ns[k] == os[k]);
        }
    }
}

/// The assembly takes exactly the trunk tensors the loader requires, each in
/// the rank it is ingested in, and as many of them: a complete load can
/// always be assembled, and leaves nothing over.
pub proof fn the_assembly_takes_exactly_the_trunk(cfg: Qwen4expConfig)
    ensures
        takes(cfg).len() == specs_upto(cfg, cfg.num_layers as nat).len(),
        forall|i: int|
            0 <= i < takes(cfg).len() ==> in_trunk(
                specs_upto(cfg, cfg.num_layers as nat),
                #[trigger] takes(cfg)[i],
            ),
        forall|k: int|
            0 <= k < specs_upto(cfg, cfg.num_layers as nat).len() ==> in_takes(
                takes(cfg),
                #[trigger] specs_upto(cfg, cfg.num_layers as nat)[k],
            ),
{
    let n = cfg.num_layers as nat;
    lemma_takes_upto(cfg, n);
    let ot = takes_upto(cfg, n);
    let specs = specs_upto(cfg, n);
    let list = takes(cfg);
    assert forall|i: int| 0 <= i < list.len() implies in_trunk(specs, #[trigger] list[i]) by {
        if i < ot.len() {
            assert(list[i] == ot[i]);
        } else {
            let t = i - ot.len();
            assert(list[i] == tail_takes()[t]);
            let k: int = if t == 0 {
                0
            } else if t == 4 {
                1
            } else {
                t + 1
            };
            assert(specs[k] == head_specs(cfg)[k]);
        }
    }
    assert forall|k: int| 0 <= k < specs.len() implies in_takes(list, #[trigger] specs[k]) by {
        if k >= 5 {
            assert(in_takes(ot, specs[k]));
            let i = choose|i: int|
                0 <= i < ot.len() && #[trigger] ot[i] == (specs[k].name, rank_of(specs[k].kind));
            assert(list[i] == ot[i]);
        } else {
            assert(specs[k] == head_specs(cfg)[k]);
            let t: int = if k == 0 {
                0
            } else if k == 1 {
                4
            } else {
                k - 1
            };
            assert(list[ot.len() + t] == tail_takes()[t]);
        }
    }
}

} // verus!
