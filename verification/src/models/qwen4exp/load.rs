//! Loading a trunk: what to do with every tensor of a file, in which shape a
//! tensor is ingested, and how the ingested tensors are assembled.

use crate::gguf::{dims_product, GgmlType, GgufFile, GgufTensorInfo};
use crate::models::qwen4exp::config::Qwen4expConfig;
use crate::models::qwen4exp::trunk::{
    models, non_trunk, non_trunk_class, shapes_fit, specs_upto, trunk_specs, Kind, NonTrunk,
    TrunkModel, TrunkSpec,
};
use crate::order::{push_quoted_list, quoted_list, sort_texts, texts, in_order};
use crate::text::{decimal, list_text, push_decimal, push_list, same_text};
use vstd::prelude::*;

verus! {

/// What the loader does with one tensor of the file.
#[derive(Debug, Clone, Copy, PartialEq, Eq, Structural)]
pub enum LoadStep {
    /// Read it as trunk tensor `spec` (its place in the trunk map);
    /// `register` says that it is a quantized projection, whose storage type
    /// is recorded for the arithmetic emulation.
    Read { spec: usize, register: bool },
    /// Leave it in the file: it is served on demand.
    Serve,
    /// Leave it out: it belongs to the indexer.
    SkipIndexer,
}

/// The first trunk tensor from `from` on with this name.
pub open spec fn spec_from(specs: Seq<TrunkModel>, name: Seq<char>, from: int) -> Option<int>
    decreases specs.len() - from,
{
    if from < 0 || from >= specs.len() {
        None
    } else if specs[from].name == name {
        Some(from)
    } else {
        spec_from(specs, name, from + 1)
    }
}

/// A trunk search answers a place that holds the name.
proof fn lemma_spec_from_hit(specs: Seq<TrunkModel>, name: Seq<char>, from: int)
    requires
        0 <= from,
        spec_from(specs, name, from) is Some,
    ensures
        from <= spec_from(specs, name, from)->0 < specs.len(),
        specs[spec_from(specs, name, from)->0].name == name,
    decreases specs.len() - from,
{
    if from < specs.len() && specs[from].name != name {
        lemma_spec_from_hit(specs, name, from + 1);
    }
}

/// What is done with tensor `info`, or why the file is refused for it.
pub open spec fn step_of(
    cfg: Qwen4expConfig,
    specs: Seq<TrunkModel>,
    info: GgufTensorInfo,
) -> Result<LoadStep, Seq<char>> {
    match spec_from(specs, info.name@, 0) {
        Some(k) => if info.dims@ != specs[k].ne {
            Err(
                info.name@ + ": ne "@ + list_text(info.dims@) + ", the architecture needs "@
                    + list_text(specs[k].ne),
            )
        } else {
            Ok(
                LoadStep::Read {
                    spec: k as usize,
                    register: specs[k].kind == Kind::Linear && info.dtype != GgmlType::F32,
                },
            )
        },
        None => match non_trunk_class(info.name@, cfg) {
            Some(NonTrunk::Served) => Ok(LoadStep::Serve),
            Some(NonTrunk::SkippedIndexer) => Ok(LoadStep::SkipIndexer),
            None => Err(
                "unmapped tensor '"@ + info.name@ + "' (ne "@ + list_text(info.dims@) + ")"@,
            ),
        },
    }
}

/// What has been seen after some tensors of the file.
pub struct Tally {
    pub steps: Seq<LoadStep>,
    pub loaded: Set<int>,
    pub served: nat,
    pub skipped: nat,
}

/// The tally after one more tensor.
pub open spec fn tally_step(
    cfg: Qwen4expConfig,
    specs: Seq<TrunkModel>,
    t: Tally,
    info: GgufTensorInfo,
) -> Result<Tally, Seq<char>> {
    match step_of(cfg, specs, info) {
        Err(e) => Err(e),
        Ok(step) => match step {
            LoadStep::Read { spec, register } => if t.loaded.contains(spec as int) {
                Err(info.name@ + " appears twice"@)
            } else {
                Ok(
                    Tally {
                        steps: t.steps.push(step),
                        loaded: t.loaded.insert(spec as int),
                        served: t.served,
                        skipped: t.skipped,
                    },
                )
            },
            LoadStep::Serve => Ok(
                Tally {
                    steps: t.steps.push(step),
                    loaded: t.loaded,
                    served: t.served + 1,
                    skipped: t.skipped,
                },
            ),
            LoadStep::SkipIndexer => Ok(
                Tally {
                    steps: t.steps.push(step),
                    loaded: t.loaded,
                    served: t.served,
                    skipped: t.skipped + 1,
                },
            ),
        },
    }
}

/// The tally after the first `n` tensors of the file, or the first refusal.
pub open spec fn tally_upto(
    cfg: Qwen4expConfig,
    specs: Seq<TrunkModel>,
    tensors: Seq<GgufTensorInfo>,
    n: nat,
) -> Result<Tally, Seq<char>>
    decreases n,
{
    if n == 0 {
        Ok(Tally { steps: Seq::empty(), loaded: Set::empty(), served: 0, skipped: 0 })
    } else {
        match tally_upto(cfg, specs, tensors, (n - 1) as nat) {
            Err(e) => Err(e),
            Ok(t) => tally_step(cfg, specs, t, tensors[n - 1]),
        }
    }
}

/// A refusal stands, whatever follows.
proof fn lemma_refusal_stands(
    cfg: Qwen4expConfig,
    specs: Seq<TrunkModel>,
    tensors: Seq<GgufTensorInfo>,
    n: nat,
    m: nat,
)
    requires
        n <= m,
        tally_upto(cfg, specs, tensors, n) is Err,
    ensures
        tally_upto(cfg, specs, tensors, m) == tally_upto(cfg, specs, tensors, n),
    decreases m,
{
    if n < m {
        lemma_refusal_stands(cfg, specs, tensors, n, (m - 1) as nat);
    }
}

/// How many tensors a complete file leaves to be served: three expert banks
/// a layer, and the PLE table where there is a PLE layer.
pub open spec fn wanted_served(cfg: Qwen4expConfig) -> nat {
    3 * cfg.num_layers as nat + if cfg.ple_layers@.len() > 0 {
        1nat
    } else {
        0nat
    }
}

/// Has every trunk tensor been read?
pub open spec fn all_loaded(specs: Seq<TrunkModel>, loaded: Set<int>) -> bool {
    forall|k: int| 0 <= k < specs.len() ==> #[trigger] loaded.contains(k)
}

/// The names of the trunk tensors among the first `n` that were not read.
pub open spec fn unread(specs: Seq<TrunkModel>, loaded: Set<int>, n: nat) -> Seq<Seq<char>>
    decreases n,
{
    if n == 0 {
        Seq::empty()
    } else {
        let rest = unread(specs, loaded, (n - 1) as nat);
        if loaded.contains(n - 1) {
            rest
        } else {
            rest.push(specs[n - 1].name)
        }
    }
}

/// The message of an incomplete file: how much of the trunk came, which
/// names are missing (in order), and how many served tensors came.
pub open spec fn is_incomplete_message(
    cfg: Qwen4expConfig,
    specs: Seq<TrunkModel>,
    t: Tally,
    m: Seq<char>,
) -> bool {
    exists|names: Seq<Seq<char>>|
        {
            &&& #[trigger] in_order(names)
            &&& names.to_multiset() == unread(specs, t.loaded, specs.len()).to_multiset()
            &&& m == "GGUF supplied "@ + decimal(
                (specs.len() - unread(specs, t.loaded, specs.len()).len()) as nat,
            ) + " of "@ + decimal(specs.len()) + " trunk tensors (missing "@ + quoted_list(names)
                + ") and "@ + decimal(t.served) + " of "@ + decimal(wanted_served(cfg))
                + " served tensors"@
        }
}

/// The steps of loading a file, with the counts of what stays in it.
#[derive(Debug)]
pub struct LoadPlan {
    pub steps: Vec<LoadStep>,
    pub served: usize,
    pub skipped: usize,
}

/// Find a trunk tensor by name.
fn find_spec(specs: &Vec<TrunkSpec>, name: &str) -> (r: Option<usize>)
    ensures
        match r {
            Some(k) => spec_from(models(specs@), name@, 0) == Some(k as int) && k < specs@.len(),
            None => spec_from(models(specs@), name@, 0) is None,
        },
{
    let mut k: usize = 0;
    while k < specs.len()
        invariant
            k <= specs@.len(),
            spec_from(models(specs@), name@, 0) == spec_from(models(specs@), name@, k as int),
        decreases specs@.len() - k,
    {
        assert(models(specs@)[k as int].name == specs@[k as int].name@);
        if same_text(specs[k].name.as_str(), name) {
            return Some(k);
        }
        k += 1;
    }
    None
}

/// Are two lists of dimensions the same?
fn same_dims(a: &Vec<u64>, b: &Vec<u64>) -> (r: bool)
    ensures
        r == (a@ == b@),
{
    if a.len() != b.len() {
        return false;
    }
    let mut i: usize = 0;
    while i < a.len()
        invariant
            i <= a@.len(),
            a@.len() == b@.len(),
            forall|k: int| 0 <= k < i ==> a@[k] == b@[k],
        decreases a@.len() - i,
    {
        if a[i] != b[i] {
            return false;
        }
        i += 1;
    }
    assert(a@ =~= b@);
    true
}

/// What is done with one tensor.
fn plan_tensor(cfg: &Qwen4expConfig, specs: &Vec<TrunkSpec>, info: &GgufTensorInfo) -> (r: Result<
    LoadStep,
    String,
>)
    ensures
        match r {
            Ok(s) => step_of(*cfg, models(specs@), *info) == Ok::<_, Seq<char>>(s) && (s matches
                LoadStep::Read { spec, register } ==> spec < specs@.len()),
            Err(e) => step_of(*cfg, models(specs@), *info) == Err::<LoadStep, _>(e@),
        },
{
    match find_spec(specs, info.name.as_str()) {
        Some(k) => {
            let spec: &TrunkSpec = &specs[k];
            assert(models(specs@)[k as int] == spec@);
            if !same_dims(&info.dims, &spec.ne) {
                let mut m: String = info.name.clone();
                m.append(": ne ");
                push_list(&mut m, &info.dims);
                m.append(", the architecture needs ");
                push_list(&mut m, &spec.ne);
                return Err(m);
            }
            Ok(
                LoadStep::Read {
                    spec: k,
                    register: spec.kind == Kind::Linear && info.dtype != GgmlType::F32,
                },
            )
        },
        None => match non_trunk(info.name.as_str(), cfg) {
            Some(NonTrunk::Served) => Ok(LoadStep::Serve),
            Some(NonTrunk::SkippedIndexer) => Ok(LoadStep::SkipIndexer),
            None => {
                let mut m: String = String::new();
                m.append("unmapped tensor '");
                m.append(info.name.as_str());
                m.append("' (ne ");
                push_list(&mut m, &info.dims);
                m.append(")");
                Err(m)
            },
        },
    }
}

/// The message of an incomplete file.
fn incomplete(
    cfg: &Qwen4expConfig,
    specs: &Vec<TrunkSpec>,
    loaded: &Vec<bool>,
    served: usize,
    want: u64,
    t: Ghost<Tally>,
) -> (r: String)
    requires
        loaded@.len() == specs@.len(),
        forall|k: int| 0 <= k < loaded@.len() ==> (#[trigger] loaded@[k]) == t@.loaded.contains(k),
        t@.served == served,
        want == wanted_served(*cfg),
    ensures
        is_incomplete_message(*cfg, models(specs@), t@, r@),
{
    let mut names: Vec<String> = Vec::new();
    let mut k: usize = 0;
    assert(texts(names@) =~= unread(models(specs@), t@.loaded, 0));
    while k < specs.len()
        invariant
            k <= specs@.len(),
            loaded@.len() == specs@.len(),
            forall|j: int|
                0 <= j < loaded@.len() ==> (#[trigger] loaded@[j]) == t@.loaded.contains(j),
            texts(names@) == unread(models(specs@), t@.loaded, k as nat),
            names@.len() <= k,
        decreases specs@.len() - k,
    {
        assert(models(specs@)[k as int].name == specs@[k as int].name@);
        assert(loaded@[k as int] == t@.loaded.contains(k as int));
        if !loaded[k] {
            let ghost before = texts(names@);
            names.push(specs[k].name.clone());
            assert(texts(names@) =~= before.push(specs@[k as int].name@));
        }
        k += 1;
    }
    let got: usize = specs.len() - names.len();
    let sorted: Vec<String> = sort_texts(names);
    let mut m: String = String::new();
    m.append("GGUF supplied ");
    push_decimal(&mut m, got as u64);
    m.append(" of ");
    push_decimal(&mut m, specs.len() as u64);
    m.append(" trunk tensors (missing ");
    push_quoted_list(&mut m, &sorted);
    m.append(") and ");
    push_decimal(&mut m, served as u64);
    m.append(" of ");
    push_decimal(&mut m, want);
    m.append(" served tensors");
    proof {
        let s = models(specs@);
        assert(s.len() == specs@.len());
        assert(in_order(texts(sorted@)));
        assert(m@ =~= "GGUF supplied "@ + decimal(
            (s.len() - unread(s, t@.loaded, s.len()).len()) as nat,
        ) + " of "@ + decimal(s.len()) + " trunk tensors (missing "@ + quoted_list(texts(sorted@))
            + ") and "@ + decimal(t@.served) + " of "@ + decimal(wanted_served(*cfg))
            + " served tensors"@);
    }
    m
}

/// Decide what to do with every tensor of a file, checking that the file is
/// exactly the architecture: every tensor has a place, every trunk tensor has
/// its shape and comes once, and nothing is missing.
pub fn plan_load(f: &GgufFile, cfg: &Qwen4expConfig) -> (r: Result<LoadPlan, String>)
    requires
        shapes_fit(*cfg),
        3 * cfg.num_layers + 1 <= u64::MAX,
    ensures
        ({
            let specs = specs_upto(*cfg, cfg.num_layers as nat);
            let tally = tally_upto(*cfg, specs, f.tensors@, f.tensors@.len());
            match r {
                Ok(p) => {
                    &&& tally is Ok
                    &&& p.steps@ == tally->Ok_0.steps
                    &&& p.served == tally->Ok_0.served
                    &&& p.skipped == tally->Ok_0.skipped
                    &&& all_loaded(specs, tally->Ok_0.loaded)
                    &&& tally->Ok_0.served == wanted_served(*cfg)
                },
                Err(e) => match tally {
                    Err(m) => e@ == m,
                    Ok(t) => {
                        &&& !(all_loaded(specs, t.loaded) && t.served == wanted_served(*cfg))
                        &&& is_incomplete_message(*cfg, specs, t, e@)
                    },
                },
            }
        }),
{
    let specs: Vec<TrunkSpec> = trunk_specs(cfg);
    let ghost sm = specs_upto(*cfg, cfg.num_layers as nat);
    let mut loaded: Vec<bool> = Vec::new();
    let mut z: usize = 0;
    while z < specs.len()
        invariant
            z <= specs@.len(),
            loaded@.len() == z,
            forall|k: int| 0 <= k < z ==> !(#[trigger] loaded@[k]),
        decreases specs@.len() - z,
    {
        loaded.push(false);
        z += 1;
    }
    let mut steps: Vec<LoadStep> = Vec::new();
    let mut served: usize = 0;
    let mut skipped: usize = 0;
    let mut i: usize = 0;
    let ghost mut t: Tally = Tally {
        steps: Seq::empty(),
        loaded: Set::empty(),
        served: 0,
        skipped: 0,
    };
    while i < f.tensors.len()
        invariant
            i <= f.tensors@.len(),
            models(specs@) == sm,
            sm == specs_upto(*cfg, cfg.num_layers as nat),
            loaded@.len() == specs@.len(),
            tally_upto(*cfg, sm, f.tensors@, i as nat) == Ok::<_, Seq<char>>(t),
            t.steps == steps@,
            t.served == served,
            t.skipped == skipped,
            served <= i,
            skipped <= i,
            forall|k: int|
                0 <= k < loaded@.len() ==> (#[trigger] loaded@[k]) == t.loaded.contains(k),
        decreases f.tensors@.len() - i,
    {
        let info: &GgufTensorInfo = &f.tensors[i];
        let ghost all = f.tensors@.len();
        let step: LoadStep = match plan_tensor(cfg, &specs, info) {
            Ok(s) => s,
            Err(e) => {
                proof {
                    lemma_refusal_stands(*cfg, sm, f.tensors@, (i + 1) as nat, all);
                }
                return Err(e);
            },
        };
        match step {
            LoadStep::Read { spec, register } => {
                assert(loaded@[spec as int] == t.loaded.contains(spec as int));
                if loaded[spec] {
                    let mut m: String = info.name.clone();
                    m.append(" appears twice");
                    proof {
                        lemma_refusal_stands(*cfg, sm, f.tensors@, (i + 1) as nat, all);
                    }
                    return Err(m);
                }
                loaded.set(spec, true);
            },
            LoadStep::Serve => {
                served += 1;
            },
            LoadStep::SkipIndexer => {
                skipped += 1;
            },
        }
        steps.push(step);
        proof {
            t = tally_upto(*cfg, sm, f.tensors@, (i + 1) as nat)->Ok_0;
        }
        i += 1;
    }
    let mut complete: bool = true;
    let mut k: usize = 0;
    while k < loaded.len()
        invariant
            k <= loaded@.len(),
            complete == (forall|j: int| 0 <= j < k ==> #[trigger] loaded@[j]),
        decreases loaded@.len() - k,
    {
        if !loaded[k] {
            assert(!loaded@[k as int]);
            complete = false;
        }
        k += 1;
    }
    proof {
        assert(sm.len() == specs@.len());
        if complete {
            assert forall|j: int| 0 <= j < sm.len() implies #[trigger] t.loaded.contains(j) by {
                assert(loaded@[j]);
            }
        } else {
            let j = choose|j: int| 0 <= j < loaded@.len() && !(#[trigger] loaded@[j]);
            assert(!t.loaded.contains(j));
        }
    }
    let want: u64 = 3 * cfg.num_layers as u64 + if cfg.ple_layers.len() > 0 {
        1
    } else {
        0
    };
    if !complete || served as u64 != want {
        return Err(incomplete(cfg, &specs, &loaded, served, want, Ghost(t)));
    }
    Ok(LoadPlan { steps, served, skipped })
}

/// Which steps of a tally read trunk tensor `k`.
pub open spec fn reads_at(steps: Seq<LoadStep>, k: int, i: int) -> bool {
    steps[i] matches LoadStep::Read { spec, register } && spec == k
}

/// What a tally without refusal says of its steps: one per tensor; a trunk
/// tensor counts as loaded when exactly one step reads it; and the served,
/// skipped and read tensors add up to all of them.
pub proof fn tallies_account_for_every_tensor(
    cfg: Qwen4expConfig,
    specs: Seq<TrunkModel>,
    tensors: Seq<GgufTensorInfo>,
    n: nat,
)
    requires
        n <= tensors.len(),
        specs.len() <= usize::MAX,
        tally_upto(cfg, specs, tensors, n) is Ok,
    ensures
        ({
            let t = tally_upto(cfg, specs, tensors, n)->Ok_0;
            &&& t.steps.len() == n
            &&& t.loaded.finite()
            &&& t.loaded.len() + t.served + t.skipped == n
            &&& forall|k: int| #[trigger]
                t.loaded.contains(k) ==> exists|i: int|
                    0 <= i < n && #[trigger] reads_at(t.steps, k, i)
            &&& forall|k: int, i: int|
                0 <= i < n && #[trigger] reads_at(t.steps, k, i) ==> t.loaded.contains(k)
                    && specs[k].name == tensors[i].name@ && specs[k].ne == tensors[i].dims@
            &&& forall|k: int, i: int, j: int|
                0 <= i < n && 0 <= j < n && #[trigger] reads_at(t.steps, k, i)
                    && #[trigger] reads_at(t.steps, k, j) ==> i == j
        }),
    decreases n,
{
    if n > 0 {
        let m = (n - 1) as nat;
        tallies_account_for_every_tensor(cfg, specs, tensors, m);
        let b = tally_upto(cfg, specs, tensors, m)->Ok_0;
        let t = tally_upto(cfg, specs, tensors, n)->Ok_0;
        let info = tensors[m as int];
        let step = step_of(cfg, specs, info)->Ok_0;
        assert forall|k: int, i: int| 0 <= i < m implies reads_at(t.steps, k, i) == reads_at(
            b.steps,
            k,
            i,
        ) by {
            assert(t.steps[i] == b.steps[i]);
        }
        assert(t.steps[m as int] == step);
        if let LoadStep::Read { spec, register } = step {
            lemma_spec_from_hit(specs, info.name@, 0);
            assert(specs[spec as int].name == info.name@);
            assert(reads_at(t.steps, spec as int, m as int));
        }
        assert forall|k: int| #[trigger] t.loaded.contains(k) implies exists|i: int|
            0 <= i < n && #[trigger] reads_at(t.steps, k, i) by {
            if b.loaded.contains(k) {
                let i = choose|i: int| 0 <= i < m && #[trigger] reads_at(b.steps, k, i);
                assert(reads_at(t.steps, k, i));
            } else {
                assert(reads_at(t.steps, k, m as int));
            }
        }
        assert forall|k: int, i: int|
            0 <= i < n && #[trigger] reads_at(t.steps, k, i) implies t.loaded.contains(k)
            && specs[k].name == tensors[i].name@ && specs[k].ne == tensors[i].dims@ by {
            if i < m {
                assert(reads_at(b.steps, k, i));
            }
        }
        assert forall|k: int, i: int, j: int|
            0 <= i < n && 0 <= j < n && #[trigger] reads_at(t.steps, k, i)
                && #[trigger] reads_at(t.steps, k, j) implies i == j by {
            if i < m && j < m {
                assert(reads_at(b.steps, k, i));
                assert(reads_at(b.steps, k, j));
            } else if i < m {
                assert(reads_at(b.steps, k, i));
                assert(b.loaded.contains(k));
            } else if j < m {
                assert(reads_at(b.steps, k, j));
                assert(b.loaded.contains(k));
            }
        }
    }
}

/// The shape a trunk tensor is ingested in.
#[derive(Debug, Clone, Copy, PartialEq, Eq, Structural)]
pub enum IngestShape {
    T1 { len: usize },
    /// Row-major values of `rows` by `cols`; `transpose` asks for the
    /// transposed parameter.
    T2 { rows: usize, cols: usize, transpose: bool },
    T3 { a: usize, b: usize, c: usize },
}

impl Kind {
    /// The kind's name.
    pub open spec fn text(self) -> Seq<char> {
        match self {
            Kind::Embedding => "Embedding"@,
            Kind::Linear => "Linear"@,
            Kind::Vector => "Vector"@,
            Kind::DeltaConv => "DeltaConv"@,
            Kind::FlatKernel => "FlatKernel"@,
        }
    }

    /// The kind's name.
    pub fn name(self) -> (r: &'static str)
        ensures
            r@ == self.text(),
    {
        match self {
            Kind::Embedding => "Embedding",
            Kind::Linear => "Linear",
            Kind::Vector => "Vector",
            Kind::DeltaConv => "DeltaConv",
            Kind::FlatKernel => "FlatKernel",
        }
    }
}

/// The shape `spec` is ingested in when `values` values were read, or why
/// that fails.
pub open spec fn ingested(spec: TrunkModel, values: nat) -> Result<IngestShape, Seq<char>> {
    let ne = spec.ne;
    if values != dims_product(ne) {
        Err(spec.name + ": "@ + decimal(values) + " values for ne "@ + list_text(ne))
    } else if spec.kind == Kind::Vector && ne.len() == 1 {
        Ok(IngestShape::T1 { len: ne[0] as usize })
    } else if spec.kind != Kind::Vector && ne.len() == 2 {
        match spec.kind {
            Kind::Embedding => Ok(
                IngestShape::T2 { rows: ne[1] as usize, cols: ne[0] as usize, transpose: false },
            ),
            Kind::Linear => Ok(
                IngestShape::T2 { rows: ne[1] as usize, cols: ne[0] as usize, transpose: true },
            ),
            Kind::DeltaConv => Ok(
                IngestShape::T3 { a: ne[1] as usize, b: 1, c: ne[0] as usize },
            ),
            _ => Ok(IngestShape::T1 { len: (ne[0] * ne[1]) as usize }),
        }
    } else {
        Err(spec.name + ": ne "@ + list_text(ne) + " does not fit "@ + spec.kind.text())
    }
}

/// Decide the shape one trunk tensor is ingested in.
pub fn ingest(spec: &TrunkSpec, values: usize) -> (r: Result<IngestShape, String>)
    requires
        forall|i: int| 0 <= i < spec.ne@.len() ==> #[trigger] spec.ne@[i] <= usize::MAX,
        forall|k: int|
            0 <= k <= spec.ne@.len() ==> #[trigger] dims_product(spec.ne@.take(k)) <= usize::MAX,
    ensures
        match r {
            Ok(s) => ingested(spec@, values as nat) == Ok::<_, Seq<char>>(s),
            Err(e) => ingested(spec@, values as nat) == Err::<IngestShape, _>(e@),
        },
{
    let mut n: usize = 1;
    let mut i: usize = 0;
    assert(spec.ne@.take(0).len() == 0);
    while i < spec.ne.len()
        invariant
            i <= spec.ne@.len(),
            forall|k: int| 0 <= k < spec.ne@.len() ==> #[trigger] spec.ne@[k] <= usize::MAX,
            forall|k: int|
                0 <= k <= spec.ne@.len() ==> #[trigger] dims_product(spec.ne@.take(k))
                    <= usize::MAX,
            n == dims_product(spec.ne@.take(i as int)),
        decreases spec.ne@.len() - i,
    {
        proof {
            let next = spec.ne@.take(i + 1);
            assert(next.drop_last() =~= spec.ne@.take(i as int));
            assert(next.last() == spec.ne@[i as int]);
            assert(dims_product(next) <= usize::MAX);
            assert(dims_product(next) == n as nat * (spec.ne@[i as int] as nat));
            assert(spec.ne@[i as int] <= usize::MAX);
        }
        n = n * spec.ne[i] as usize;
        i += 1;
    }
    assert(spec.ne@.take(i as int) =~= spec.ne@);
    if values != n {
        let mut m: String = spec.name.clone();
        m.append(": ");
        push_decimal(&mut m, values as u64);
        m.append(" values for ne ");
        push_list(&mut m, &spec.ne);
        return Err(m);
    }
    if spec.kind == Kind::Vector && spec.ne.len() == 1 {
        return Ok(IngestShape::T1 { len: spec.ne[0] as usize });
    }
    if spec.kind != Kind::Vector && spec.ne.len() == 2 {
        let a: usize = spec.ne[0] as usize;
        let b: usize = spec.ne[1] as usize;
        proof {
            let one = spec.ne@.drop_last();
            assert(one.drop_last() =~= Seq::<u64>::empty());
            assert(dims_product(one.drop_last()) == 1);
            assert(dims_product(one) == spec.ne@[0]);
            assert(n == spec.ne@[0] as nat * (spec.ne@[1] as nat));
        }
        return match spec.kind {
            Kind::Embedding => Ok(IngestShape::T2 { rows: b, cols: a, transpose: false }),
            Kind::Linear => Ok(IngestShape::T2 { rows: b, cols: a, transpose: true }),
            Kind::DeltaConv => Ok(IngestShape::T3 { a: b, b: 1, c: a }),
            _ => Ok(IngestShape::T1 { len: n }),
        };
    }
    let mut m: String = spec.name.clone();
    m.append(": ne ");
    push_list(&mut m, &spec.ne);
    m.append(" does not fit ");
    m.append(spec.kind.name());
    Err(m)
}

} // verus!
