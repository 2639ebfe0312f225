//! What a complete load is: which tensors of a file are read, served and left
//! out, how the read ones are laid out, and what an assembly takes.

use crate::gguf::{dims_product, GgmlType, GgufTensorInfo};
use crate::models::qwen4exp::assemble::{
    leftovers, loaded_from, rank_of, store_refusal, take_refusal, taken, ExpertShape, PleShape,
    Rank,
};
use crate::models::qwen4exp::config::Qwen4expConfig;
use crate::models::qwen4exp::load::{
    ingested, spec_from, step_of, wanted_served, IngestShape, LoadStep,
};
use crate::models::qwen4exp::trunk::{
    block_name, block_names_split, non_trunk_class, Kind, NonTrunk, TrunkModel,
};
use crate::text::occurs_at;
use vstd::prelude::*;

verus! {

/// A block's tensor has no other tensor's name.
proof fn lemma_block_names(l: nat, field: Seq<char>)
    ensures
        block_name(l, field) != "per_layer_token_embd.weight"@,
{
    reveal_strlit("blk.");
    reveal_strlit("per_layer_token_embd.weight");
    assert(block_name(l, field)[0] == 'b');
}

/// What is no trunk tensor is served when it is an expert bank of a layer of
/// the model, left out when it belongs to the indexer of an attention layer,
/// and has no place otherwise.
pub proof fn what_is_no_trunk_tensor(cfg: Qwen4expConfig, layer: nat, field: Seq<char>)
    requires
        layer <= usize::MAX,
    ensures
        non_trunk_class(block_name(layer, field), cfg) == if layer >= cfg.num_layers {
            None
        } else if field == "ffn_gate_exps.weight"@ || field == "ffn_up_exps.weight"@ || field
            == "ffn_down_exps.weight"@ {
            Some(NonTrunk::Served)
        } else if (field == "indexer.q_proj.weight"@ || field == "indexer.k_proj.weight"@ || field
            == "indexer.q_norm.weight"@ || field == "indexer.k_norm.weight"@)
            && cfg.full_attention_interval > 0 && (layer + 1) % cfg.full_attention_interval as nat
            == 0 {
            Some(NonTrunk::SkippedIndexer)
        } else {
            None
        },
{
    lemma_block_names(layer, field);
    block_names_split(layer, field);
}

/// The embedding table is served by a model with embeddings, and has no place
/// in one without; a name that is neither this nor a block's has none.
pub proof fn the_embedding_table_is_served(cfg: Qwen4expConfig, name: Seq<char>)
    ensures
        non_trunk_class("per_layer_token_embd.weight"@, cfg) == if cfg.ple_layers@.len() > 0 {
            Some(NonTrunk::Served)
        } else {
            None
        },
        name != "per_layer_token_embd.weight"@ && !occurs_at(name, "blk."@, 0)
            ==> non_trunk_class(name, cfg) is None,
{
}

/// The first trunk tensor of a name.
proof fn lemma_spec_from(specs: Seq<TrunkModel>, name: Seq<char>, from: int)
    requires
        0 <= from,
    ensures
        match spec_from(specs, name, from) {
            Some(k) => from <= k < specs.len() && specs[k].name == name && forall|i: int|
                from <= i < k ==> (#[trigger] specs[i]).name != name,
            None => forall|i: int| from <= i < specs.len() ==> (#[trigger] specs[i]).name != name,
        },
    decreases specs.len() - from,
{
    if from < specs.len() && specs[from].name != name {
        lemma_spec_from(specs, name, from + 1);
    }
}

/// What is done with a tensor of the file: one that the trunk requires is read
/// as that tensor if it has its dimensions, and refused if it has not; a
/// projection that is stored in fewer bits than a single has its storage type
/// noted. What the trunk does not require is served, left out or refused.
pub proof fn every_tensor_has_one_use(
    cfg: Qwen4expConfig,
    specs: Seq<TrunkModel>,
    info: GgufTensorInfo,
)
    requires
        specs.len() <= usize::MAX,
    ensures
        match step_of(cfg, specs, info) {
            Ok(LoadStep::Read { spec, register }) => {
                &&& spec < specs.len()
                &&& specs[spec as int].name == info.name@
                &&& specs[spec as int].ne == info.dims@
                &&& register <==> specs[spec as int].kind == Kind::Linear && info.dtype
                    != GgmlType::F32
            },
            Ok(LoadStep::Serve) => {
                &&& forall|i: int| 0 <= i < specs.len() ==> (#[trigger] specs[i]).name != info.name@
                &&& non_trunk_class(info.name@, cfg) == Some(NonTrunk::Served)
            },
            Ok(LoadStep::SkipIndexer) => {
                &&& forall|i: int| 0 <= i < specs.len() ==> (#[trigger] specs[i]).name != info.name@
                &&& non_trunk_class(info.name@, cfg) == Some(NonTrunk::SkippedIndexer)
            },
            Err(_) => {
                ||| exists|i: int|
                    0 <= i < specs.len() && (#[trigger] specs[i]).name == info.name@ && specs[i].ne
                        != info.dims@
                ||| (forall|i: int|
                    0 <= i < specs.len() ==> (#[trigger] specs[i]).name != info.name@)
                    && non_trunk_class(info.name@, cfg) is None
            },
        },
{
    lemma_spec_from(specs, info.name@, 0);
    if let Some(k) = spec_from(specs, info.name@, 0) {
        assert(specs[k].name == info.name@);
    }
}

/// A complete file serves a gate, an up and a down bank of every layer, and
/// one embedding table where the model has embeddings.
pub proof fn a_complete_file_serves_three_banks_a_layer(cfg: Qwen4expConfig)
    ensures
        cfg.ple_layers@.len() == 0 ==> wanted_served(cfg) == cfg.num_layers + cfg.num_layers
            + cfg.num_layers,
        cfg.ple_layers@.len() > 0 ==> wanted_served(cfg) == cfg.num_layers + cfg.num_layers
            + cfg.num_layers + 1,
{
}

/// How an ingested tensor is laid out: the source's first dimension runs
/// fastest, so it is the last of the parameter as read. A projection is then
/// turned round and an embedding is not; a convolution has a kernel for each
/// channel; a flat kernel and a vector stay a list.
pub proof fn ingested_values_keep_their_places(spec: TrunkModel, values: nat, a: int, b: int)
    requires
        forall|i: int| 0 <= i < spec.ne.len() ==> (#[trigger] spec.ne[i]) <= usize::MAX,
        dims_product(spec.ne) <= usize::MAX,
    ensures
        match ingested(spec, values) {
            Ok(IngestShape::T1 { len }) => {
                &&& len == values
                &&& (spec.kind == Kind::Vector && spec.ne.len() == 1 || spec.kind
                    == Kind::FlatKernel && spec.ne.len() == 2)
            },
            Ok(IngestShape::T2 { rows, cols, transpose }) => {
                &&& spec.ne.len() == 2
                &&& rows == spec.ne[1]
                &&& cols == spec.ne[0]
                &&& spec.kind == Kind::Linear || spec.kind == Kind::Embedding
                &&& transpose <==> spec.kind == Kind::Linear
                &&& a * cols + b == b + spec.ne[0] * a
            },
            Ok(IngestShape::T3 { a: channels, b: one, c: taps }) => {
                &&& spec.ne.len() == 2
                &&& spec.kind == Kind::DeltaConv
                &&& channels == spec.ne[1]
                &&& one == 1
                &&& taps == spec.ne[0]
                &&& (a * one + 0) * taps + b == b + spec.ne[0] * a
            },
            Err(_) => values != dims_product(spec.ne) || spec.ne.len() != (if spec.kind
                == Kind::Vector {
                1int
            } else {
                2int
            }),
        },
        ingested(spec, values) is Ok ==> values == dims_product(spec.ne),
{
    let ne = spec.ne;
    if ne.len() >= 1 {
        assert(a * ne[0] == ne[0] * a) by (nonlinear_arith);
        assert((a * 1 + 0) * ne[0] == ne[0] * a) by (nonlinear_arith);
    }
    if ne.len() == 1 {
        assert(ne.drop_last() =~= Seq::<u64>::empty());
        let none = dims_product(ne.drop_last());
        let first = ne.last() as nat;
        assert(none * first == first) by (nonlinear_arith)
            requires
                none == 1,
        ;
    }
    if ne.len() == 2 {
        let one = ne.drop_last();
        assert(one.drop_last() =~= Seq::<u64>::empty());
        let none = dims_product(one.drop_last());
        let first = one.last() as nat;
        assert(none * first == first) by (nonlinear_arith)
            requires
                none == 1,
        ;
        assert(dims_product(ne) == first * (ne.last() as nat));
    }
}

/// A tensor is assembled in the rank that it is ingested in.
pub proof fn ranks_are_those_of_ingestion(spec: TrunkModel, values: nat)
    requires
        ingested(spec, values) is Ok,
    ensures
        match ingested(spec, values)->Ok_0 {
            IngestShape::T1 { len } => rank_of(spec.kind) == Rank::One,
            IngestShape::T2 { rows, cols, transpose } => rank_of(spec.kind) == Rank::Two,
            IngestShape::T3 { a, b, c } => rank_of(spec.kind) == Rank::Three,
        },
{
}

/// The stores fit exactly when they are as deep, as wide and as many as the
/// configuration says, and there is an embedding store exactly when a layer
/// has embeddings: of the configuration's width and with its reset token.
pub proof fn the_stores_must_fit(
    cfg: Qwen4expConfig,
    experts: ExpertShape,
    ple: Option<PleShape>,
)
    ensures
        store_refusal(cfg, experts, ple) is None <==> {
            &&& experts.n_layers == cfg.num_layers
            &&& experts.n_experts == cfg.expert_count
            &&& experts.hidden_size == cfg.hidden_size
            &&& experts.ffn_size == cfg.expert_ffn_size
            &&& ple is Some <==> cfg.ple_layers@.len() > 0
            &&& ple matches Some(p) ==> p.n_heads * p.row_width == cfg.embed_width() && p.eos
                == cfg.ple_eos_token_id
        },
{
}

/// The first loaded tensor of a name.
proof fn lemma_loaded_from(loaded: Seq<(Seq<char>, Rank)>, name: Seq<char>, from: int)
    requires
        0 <= from,
    ensures
        match loaded_from(loaded, name, from) {
            Some(i) => from <= i < loaded.len() && loaded[i].0 == name && forall|k: int|
                from <= k < i ==> (#[trigger] loaded[k]).0 != name,
            None => forall|k: int| from <= k < loaded.len() ==> (#[trigger] loaded[k]).0 != name,
        },
    decreases loaded.len() - from,
{
    if from < loaded.len() && loaded[from].0 != name {
        lemma_loaded_from(loaded, name, from + 1);
    }
}

/// A slot of an assembly holds the tensor that was wanted there: by its name,
/// in its rank, and the first of that name. It cannot be filled only where
/// nothing of the name was loaded, or something of another rank.
pub proof fn a_slot_holds_what_was_wanted(
    loaded: Seq<(Seq<char>, Rank)>,
    want: (Seq<char>, Rank),
)
    ensures
        match taken(loaded, want) {
            Ok(i) => {
                &&& 0 <= i < loaded.len()
                &&& loaded[i] == want
                &&& forall|k: int| 0 <= k < i ==> (#[trigger] loaded[k]).0 != want.0
            },
            Err(_) => forall|k: int|
                0 <= k < loaded.len() && (#[trigger] loaded[k]).0 == want.0 && (forall|m: int|
                    0 <= m < k ==> (#[trigger] loaded[m]).0 != want.0) ==> loaded[k].1 != want.1,
        },
{
    lemma_loaded_from(loaded, want.0, 0);
}

/// An assembly is refused over its tensors exactly when one that it wants
/// cannot be taken.
pub proof fn an_assembly_wants_all_of_its_list(
    loaded: Seq<(Seq<char>, Rank)>,
    list: Seq<(Seq<char>, Rank)>,
)
    ensures
        take_refusal(loaded, list, 0) is None <==> forall|i: int|
            0 <= i < list.len() ==> taken(loaded, #[trigger] list[i]) is Ok,
{
    lemma_take_refusal(loaded, list, 0);
}

/// The same from `from` on.
proof fn lemma_take_refusal(
    loaded: Seq<(Seq<char>, Rank)>,
    list: Seq<(Seq<char>, Rank)>,
    from: int,
)
    requires
        0 <= from,
    ensures
        take_refusal(loaded, list, from) is None <==> forall|i: int|
            from <= i < list.len() ==> taken(loaded, #[trigger] list[i]) is Ok,
    decreases list.len() - from,
{
    if from < list.len() {
        lemma_take_refusal(loaded, list, from + 1);
    }
}

/// Nothing loaded is left over: an assembly that leaves nothing over wants
/// every loaded name, and one that leaves something over names a loaded tensor
/// that nothing wants.
pub proof fn leftovers_are_the_unwanted(
    loaded: Seq<(Seq<char>, Rank)>,
    list: Seq<(Seq<char>, Rank)>,
    name: Seq<char>,
)
    ensures
        leftovers(loaded, list, loaded.len()).contains(name) <==> (exists|k: int|
            0 <= k < loaded.len() && (#[trigger] loaded[k]).0 == name) && forall|i: int|
            0 <= i < list.len() ==> (#[trigger] list[i]).0 != name,
{
    lemma_leftovers(loaded, list, loaded.len(), name);
}

/// The same of the first `n`.
proof fn lemma_leftovers(
    loaded: Seq<(Seq<char>, Rank)>,
    list: Seq<(Seq<char>, Rank)>,
    n: nat,
    name: Seq<char>,
)
    requires
        n <= loaded.len(),
    ensures
        leftovers(loaded, list, n).contains(name) <==> (exists|k: int|
            0 <= k < n && (#[trigger] loaded[k]).0 == name) && forall|i: int|
            0 <= i < list.len() ==> (#[trigger] list[i]).0 != name,
    decreases n,
{
    if n > 0 {
        let m = (n - 1) as nat;
        lemma_leftovers(loaded, list, m, name);
        let rest = leftovers(loaded, list, m);
        let all = leftovers(loaded, list, n);
        if rest.contains(name) {
            let i = choose|i: int| 0 <= i < rest.len() && rest[i] == name;
            assert(all[i] == name);
        }
        if all.contains(name) {
            let i = choose|i: int| 0 <= i < all.len() && all[i] == name;
            if i < rest.len() {
                assert(rest[i] == name);
            } else {
                assert(loaded[n - 1].0 == name);
            }
        }
        if loaded[n - 1].0 == name && (forall|i: int|
            0 <= i < list.len() ==> (#[trigger] list[i]).0 != name) {
            assert(all[all.len() - 1] == name);
        }
    }
}

} // verus!
