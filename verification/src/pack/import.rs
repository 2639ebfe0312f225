//! Importing: which levels a pack stores, how each source tensor is laid out,
//! and where every tensor's bytes go in every blob.
//!
//! The caller reads each tensor once, writes what is asked for in the order
//! it is asked, and syncs where it is told to.

use crate::gguf::{dims_product, GgufTensorInfo};
use crate::pack::{
    ascending, listed, normalise, normalised_levels_are_ascending, strictly_ascending, Blob,
    ImportAction, Manifest, Precision, Role, TensorEntry, PACK_VERSION,
};
use crate::quant::QuantPolicy;
use crate::text::{decimal, list_text, push_decimal, push_list};
use vstd::prelude::*;

verus! {

/// Bytes that may be unsynced in a blob: more dirty page cache than this is
/// not left behind.
pub const SYNC_EVERY: u64 = 1073741824;

/// The levels of an import.
#[derive(Debug)]
pub struct Levels {
    /// The requested levels.
    pub precisions: Vec<Precision>,
    /// The float levels; single precision when none was requested.
    pub float_levels: Vec<Precision>,
    /// Every level that has a blob.
    pub all_levels: Vec<Precision>,
}

/// The float levels among the first `n`.
pub open spec fn floats_upto(v: Seq<Precision>, n: nat) -> Seq<Precision>
    decreases n,
{
    if n == 0 {
        Seq::empty()
    } else {
        let rest = floats_upto(v, (n - 1) as nat);
        if v[n - 1].quantized() {
            rest
        } else {
            rest.push(v[n - 1])
        }
    }
}

/// The float levels of an import.
pub open spec fn float_levels_of(requested: Seq<Precision>) -> Seq<Precision> {
    let v = ascending(requested);
    let floats = floats_upto(v, v.len());
    if floats.len() == 0 {
        seq![Precision::F32]
    } else {
        floats
    }
}

/// Every level that has a blob.
pub open spec fn all_levels_of(requested: Seq<Precision>) -> Seq<Precision> {
    ascending(ascending(requested) + float_levels_of(requested))
}

impl Levels {
    /// The levels of an import of `requested`.
    pub open spec fn of(self, requested: Seq<Precision>) -> bool {
        &&& self.precisions@ == ascending(requested)
        &&& self.float_levels@ == float_levels_of(requested)
        &&& self.all_levels@ == all_levels_of(requested)
    }

    /// The blobs' levels are distinct, in order.
    pub open spec fn wf(self) -> bool {
        strictly_ascending(self.all_levels@)
    }

    /// Is a tensor stored at this level? What may be quantized is stored at
    /// the requested levels, everything else at the float levels.
    pub open spec fn stores(self, quantizable: bool, p: Precision) -> bool {
        if quantizable {
            self.precisions@.contains(p)
        } else {
            self.float_levels@.contains(p)
        }
    }

    /// The levels of an import of the requested levels.
    pub fn new(requested: &Vec<Precision>) -> (r: Self)
        ensures
            r.of(requested@),
            r.wf(),
    {
        let precisions: Vec<Precision> = normalise(requested);
        let mut float_levels: Vec<Precision> = Vec::new();
        let mut all: Vec<Precision> = Vec::new();
        let mut i: usize = 0;
        while i < precisions.len()
            invariant
                i <= precisions@.len(),
                float_levels@ == floats_upto(precisions@, i as nat),
                all@ == precisions@.take(i as int),
            decreases precisions@.len() - i,
        {
            let p: Precision = precisions[i];
            match p {
                Precision::Q4 | Precision::Q8 => {},
                Precision::F16 | Precision::F32 => {
                    float_levels.push(p);
                },
            }
            all.push(p);
            assert(precisions@.take(i + 1) =~= precisions@.take(i as int).push(
                precisions@[i as int],
            ));
            i += 1;
        }
        assert(precisions@.take(i as int) =~= precisions@);
        if float_levels.len() == 0 {
            float_levels.push(Precision::F32);
            assert(float_levels@ =~= seq![Precision::F32]);
        }
        let mut k: usize = 0;
        assert(float_levels@.take(0) =~= Seq::<Precision>::empty());
        while k < float_levels.len()
            invariant
                k <= float_levels@.len(),
                all@ == precisions@ + float_levels@.take(k as int),
            decreases float_levels@.len() - k,
        {
            all.push(float_levels[k]);
            assert(float_levels@.take(k + 1) =~= float_levels@.take(k as int).push(
                float_levels@[k as int],
            ));
            k += 1;
        }
        assert(float_levels@.take(k as int) =~= float_levels@);
        let all_levels: Vec<Precision> = normalise(&all);
        proof {
            normalised_levels_are_ascending(all@);
        }
        Levels { precisions, float_levels, all_levels }
    }

    /// Is a tensor stored at this level?
    pub fn holds(&self, quantizable: bool, p: Precision) -> (r: bool)
        ensures
            r == self.stores(quantizable, p),
    {
        if quantizable {
            listed(&self.precisions, p)
        } else {
            listed(&self.float_levels, p)
        }
    }
}

/// Bytes of the values of `n` elements at a level.
pub open spec fn value_bytes(p: Precision, n: nat) -> nat {
    match p {
        Precision::Q4 => (n + 1) / 2,
        Precision::Q8 => n,
        Precision::F16 => 2 * n,
        Precision::F32 => 4 * n,
    }
}

/// Bytes of the block scales of `n` elements at a level.
pub open spec fn scale_bytes(p: Precision, n: nat) -> nat {
    if p.quantized() {
        4 * (n / 32)
    } else {
        0
    }
}

/// `(value bytes, scale bytes)` of `n` elements at a level.
pub fn level_bytes(p: Precision, n: u64) -> (r: (u64, u64))
    requires
        4 * n <= u64::MAX,
    ensures
        r.0 == value_bytes(p, n as nat),
        r.1 == scale_bytes(p, n as nat),
{
    match p {
        Precision::Q4 => ((n + 1) / 2, 4 * (n / 32)),
        Precision::Q8 => (n, 4 * (n / 32)),
        Precision::F16 => (2 * n, 0),
        Precision::F32 => (4 * n, 0),
    }
}

/// How far a blob has been written, and how much of that is unsynced.
#[derive(Debug, Clone, Copy, PartialEq, Eq, Structural)]
pub struct BlobWriter {
    pub len: u64,
    pub unsynced: u64,
}

/// A blob after `bytes` more.
pub open spec fn appended(w: BlobWriter, bytes: nat) -> BlobWriter {
    BlobWriter {
        len: (w.len + bytes) as u64,
        unsynced: if syncs(w, bytes) {
            0
        } else {
            (w.unsynced + bytes) as u64
        },
    }
}

/// Is the blob synced after `bytes` more?
pub open spec fn syncs(w: BlobWriter, bytes: nat) -> bool {
    w.unsynced + bytes >= SYNC_EVERY
}

impl BlobWriter {
    /// An empty blob.
    pub fn new() -> (r: Self)
        ensures
            r.len == 0,
            r.unsynced == 0,
    {
        BlobWriter { len: 0, unsynced: 0 }
    }

    /// Append `bytes` bytes: where they start, and whether the blob is to be
    /// synced after them.
    pub fn append(&mut self, bytes: u64) -> (r: (u64, bool))
        requires
            old(self).len + bytes <= u64::MAX,
            old(self).unsynced <= old(self).len,
        ensures
            *final(self) == appended(*old(self), bytes as nat),
            r.0 == old(self).len,
            r.1 == syncs(*old(self), bytes as nat),
            final(self).unsynced <= final(self).len,
    {
        let at: u64 = self.len;
        self.len = at + bytes;
        self.unsynced = self.unsynced + bytes;
        if self.unsynced >= SYNC_EVERY {
            self.unsynced = 0;
            (at, true)
        } else {
            (at, false)
        }
    }
}

/// One write of one tensor into one blob: the values, then the scales.
#[derive(Debug, Clone, Copy, PartialEq, Eq, Structural)]
pub struct ImportWrite {
    pub precision: Precision,
    pub blob: Blob,
    /// Sync the blob after the values.
    pub sync_values: bool,
    /// Sync the blob after the scales.
    pub sync_scales: bool,
}

/// The write of `n` elements at a level into a blob as it stands.
pub open spec fn write_of(p: Precision, n: nat, w: BlobWriter) -> ImportWrite {
    let v = value_bytes(p, n);
    let s = scale_bytes(p, n);
    ImportWrite {
        precision: p,
        blob: Blob {
            values_offset: w.len,
            values_len: v as u64,
            scales_offset: if p.quantized() {
                appended(w, v).len
            } else {
                0
            },
            scales_len: s as u64,
        },
        sync_values: syncs(w, v),
        sync_scales: p.quantized() && syncs(appended(w, v), s),
    }
}

/// The blob after that write.
pub open spec fn writer_after(p: Precision, n: nat, w: BlobWriter) -> BlobWriter {
    let v = appended(w, value_bytes(p, n));
    if p.quantized() {
        appended(v, scale_bytes(p, n))
    } else {
        v
    }
}

impl BlobWriter {
    /// Append `n` elements at a level: the values, then the scales.
    fn append_level(&mut self, p: Precision, n: u64) -> (r: ImportWrite)
        requires
            old(self).len + 4 * n <= u64::MAX,
            old(self).unsynced <= old(self).len,
        ensures
            r == write_of(p, n as nat, *old(self)),
            *final(self) == writer_after(p, n as nat, *old(self)),
            final(self).unsynced <= final(self).len,
    {
        proof {
            lemma_level_bytes(p, n as nat);
        }
        let bytes: (u64, u64) = level_bytes(p, n);
        let values: (u64, bool) = self.append(bytes.0);
        let quantized: bool = match p {
            Precision::Q4 | Precision::Q8 => true,
            Precision::F16 | Precision::F32 => false,
        };
        let scales: (u64, bool) = if quantized {
            self.append(bytes.1)
        } else {
            (0, false)
        };
        ImportWrite {
            precision: p,
            blob: Blob {
                values_offset: values.0,
                values_len: bytes.0,
                scales_offset: scales.0,
                scales_len: bytes.1,
            },
            sync_values: values.1,
            sync_scales: scales.1,
        }
    }
}

/// The writes of `n` elements, from level `k` on.
pub open spec fn writes_from(
    levels: Levels,
    quantizable: bool,
    n: nat,
    writers: Seq<BlobWriter>,
    k: int,
) -> Seq<ImportWrite>
    decreases levels.all_levels@.len() - k,
{
    if k < 0 || k >= levels.all_levels@.len() {
        Seq::empty()
    } else {
        let p = levels.all_levels@[k];
        let rest = writes_from(levels, quantizable, n, writers, k + 1);
        if levels.stores(quantizable, p) {
            seq![write_of(p, n, writers[p.rank()])] + rest
        } else {
            rest
        }
    }
}

/// The blobs after the first `k` levels of `n` elements were written.
pub open spec fn writers_upto(
    levels: Levels,
    quantizable: bool,
    n: nat,
    writers: Seq<BlobWriter>,
    k: nat,
) -> Seq<BlobWriter>
    decreases k,
{
    if k == 0 {
        writers
    } else {
        let before = writers_upto(levels, quantizable, n, writers, (k - 1) as nat);
        let p = levels.all_levels@[k - 1];
        if levels.stores(quantizable, p) {
            before.update(p.rank(), writer_after(p, n, before[p.rank()]))
        } else {
            before
        }
    }
}

/// The blobs after one tensor of `n` elements.
pub open spec fn writers_after(
    levels: Levels,
    quantizable: bool,
    n: nat,
    writers: Seq<BlobWriter>,
) -> Seq<BlobWriter> {
    writers_upto(levels, quantizable, n, writers, levels.all_levels@.len())
}

/// What a tensor is to the model, by content.
pub enum RoleModel {
    Linear,
    Embedding,
    Vector,
    Conv,
    Expert { layer: usize, index: usize, proj: Seq<char> },
}

/// The content of a role.
pub open spec fn role_model(r: Role) -> RoleModel {
    match r {
        Role::Linear => RoleModel::Linear,
        Role::Embedding => RoleModel::Embedding,
        Role::Vector => RoleModel::Vector,
        Role::Conv => RoleModel::Conv,
        Role::Expert { layer, index, proj } => RoleModel::Expert { layer, index, proj: proj@ },
    }
}

/// How one stored tensor is made of a source tensor.
#[verifier::ext_equal]
pub struct ItemModel {
    pub name: Seq<char>,
    pub role: RoleModel,
    pub shape: Seq<usize>,
    /// The first of its values in the source.
    pub source: int,
    /// How many values.
    pub n: nat,
    /// `(out, in)` of the source matrix to transpose, if it is transposed.
    pub transpose: Option<(usize, usize)>,
}

impl ItemModel {
    /// May it be quantized?
    pub open spec fn quantizable(self) -> bool {
        &&& self.role is Linear || self.role is Expert
        &&& QuantPolicy::Q8.admits(self.shape)
    }
}

/// The dimensions, outermost first.
pub open spec fn outer_first(dims: Seq<u64>) -> Seq<usize> {
    Seq::new(dims.len(), |i: int| dims[dims.len() - 1 - i] as usize)
}

/// The dimensions as a list, outermost first.
pub open spec fn outer_list(dims: Seq<u64>) -> Seq<u64> {
    Seq::new(dims.len(), |i: int| dims[dims.len() - 1 - i])
}

/// Member `i` of an expert bank.
pub open spec fn member(
    info: GgufTensorInfo,
    layer: usize,
    proj: Seq<char>,
    i: int,
) -> ItemModel {
    let inp = info.dims@[0] as usize;
    let out = info.dims@[1] as usize;
    ItemModel {
        name: info.name@ + "/e"@ + decimal(i as nat),
        role: RoleModel::Expert { layer, index: i as usize, proj },
        shape: seq![inp, out],
        source: i * (out * inp),
        n: (out * inp) as nat,
        transpose: Some((out, inp)),
    }
}

/// The stored tensors that a source tensor becomes, or why it is refused.
pub open spec fn items_of(info: GgufTensorInfo, action: Option<ImportAction>) -> Result<
    Seq<ItemModel>,
    Seq<char>,
> {
    let dims = info.dims@;
    let n = dims_product(dims);
    let got = ", got "@ + list_text(outer_list(dims));
    match action {
        None => Err("unmapped tensor name '"@ + info.name@ + "'"@),
        Some(ImportAction::Skip) => Ok(Seq::empty()),
        Some(ImportAction::Linear) => if dims.len() != 2 {
            Err("'"@ + info.name@ + "' linear must be 2-D"@ + got)
        } else {
            Ok(
                seq![
                    ItemModel {
                        name: info.name@,
                        role: RoleModel::Linear,
                        shape: seq![dims[0] as usize, dims[1] as usize],
                        source: 0,
                        n,
                        transpose: Some((dims[1] as usize, dims[0] as usize)),
                    },
                ],
            )
        },
        Some(ImportAction::Embedding) => Ok(
            seq![
                ItemModel {
                    name: info.name@,
                    role: RoleModel::Embedding,
                    shape: outer_first(dims),
                    source: 0,
                    n,
                    transpose: None,
                },
            ],
        ),
        Some(ImportAction::Vector) => Ok(
            seq![
                ItemModel {
                    name: info.name@,
                    role: RoleModel::Vector,
                    shape: outer_first(dims),
                    source: 0,
                    n,
                    transpose: None,
                },
            ],
        ),
        Some(ImportAction::Conv) => if dims.len() != 2 {
            Err("'"@ + info.name@ + "' conv must be 2-D squeezed"@ + got)
        } else {
            Ok(
                seq![
                    ItemModel {
                        name: info.name@,
                        role: RoleModel::Conv,
                        shape: seq![dims[1] as usize, 1, dims[0] as usize],
                        source: 0,
                        n,
                        transpose: None,
                    },
                ],
            )
        },
        Some(ImportAction::ExpertBank { layer, proj }) => if dims.len() != 3 {
            Err("'"@ + info.name@ + "' expert bank must be 3-D"@ + got)
        } else {
            Ok(Seq::new(dims[2] as nat, |i: int| member(info, layer, proj@, i)))
        },
    }
}

/// Is anything stored of a tensor treated so?
pub open spec fn is_stored(action: Option<ImportAction>) -> bool {
    action matches Some(a) && !(a is Skip)
}

/// Can the elements of these dimensions be counted?
pub open spec fn countable(dims: Seq<u64>) -> bool {
    &&& forall|i: int| 0 <= i < dims.len() ==> (#[trigger] dims[i]) <= usize::MAX
    &&& forall|k: int| 0 <= k <= dims.len() ==> #[trigger] dims_product(dims.take(k)) <= usize::MAX
}

/// One stored tensor to write: which entry it is, which values of the source
/// it is made of, and the writes in order.
#[derive(Debug)]
pub struct ImportItem {
    pub entry: usize,
    pub source: usize,
    pub count: usize,
    /// `(out, in)` of the source matrix to transpose, if it is transposed.
    pub transpose: Option<(usize, usize)>,
    pub writes: Vec<ImportWrite>,
}

/// The levels and places of a list of writes.
pub open spec fn placed(writes: Seq<ImportWrite>) -> Seq<(Precision, Blob)> {
    writes.map(|i: int, w: ImportWrite| (w.precision, w.blob))
}

/// The entry and the item are what the model says, with the blobs as they
/// stand.
pub open spec fn stored_as(
    levels: Levels,
    writers: Seq<BlobWriter>,
    m: ItemModel,
    e: TensorEntry,
    item: ImportItem,
    place: int,
) -> bool {
    &&& e.name@ == m.name
    &&& role_model(e.role) == m.role
    &&& e.shape@ == m.shape
    &&& e.precisions@ == placed(item.writes@)
    &&& item.entry == place
    &&& item.source == m.source
    &&& item.count == m.n
    &&& item.transpose == m.transpose
    &&& item.writes@ == writes_from(levels, m.quantizable(), m.n, writers, 0)
}

/// The blobs after the first `k` stored tensors.
pub open spec fn writers_over(
    levels: Levels,
    writers: Seq<BlobWriter>,
    items: Seq<ItemModel>,
    k: nat,
) -> Seq<BlobWriter>
    decreases k,
{
    if k == 0 {
        writers
    } else {
        let m = items[k - 1];
        writers_after(
            levels,
            m.quantizable(),
            m.n,
            writers_over(levels, writers, items, (k - 1) as nat),
        )
    }
}

/// An import under way.
#[derive(Debug)]
pub struct Importer {
    pub levels: Levels,
    /// One blob per level, by the level's place.
    pub writers: Vec<BlobWriter>,
    pub tensors: Vec<TensorEntry>,
}

/// Every tensor's bytes lie within the blobs as written, and two tensors'
/// bytes in one blob do not overlap: the later one starts where or after the
/// earlier one ends.
pub open spec fn apart(tensors: Seq<TensorEntry>, writers: Seq<BlobWriter>) -> bool {
    &&& forall|i: int, a: int|
        0 <= i < tensors.len() && 0 <= a < tensors[i].precisions@.len() ==> (
        #[trigger] tensors[i].precisions@[a]).1.end() <= writers[tensors[i].precisions@[a].0.rank()].len
    &&& forall|i: int, a: int, j: int, b: int|
        0 <= i < j < tensors.len() && 0 <= a < tensors[i].precisions@.len() && 0 <= b
            < tensors[j].precisions@.len() && tensors[i].precisions@[a].0
            == tensors[j].precisions@[b].0 ==> (#[trigger] tensors[i].precisions@[a]).1.end() <= (
        #[trigger] tensors[j].precisions@[b]).1.values_offset
}

/// Is there room for `n` more elements in every blob?
pub open spec fn roomy(writers: Seq<BlobWriter>, n: nat) -> bool {
    forall|r: int| 0 <= r < writers.len() ==> (#[trigger] writers[r]).len + 4 * n <= u64::MAX
}

/// What was written is accounted for.
pub open spec fn accounted(writers: Seq<BlobWriter>) -> bool {
    &&& writers.len() == 4
    &&& forall|r: int| 0 <= r < 4 ==> (#[trigger] writers[r]).unsynced <= writers[r].len
}

/// The elements of a bank: its experts times the elements of one.
proof fn lemma_bank(dims: Seq<u64>)
    requires
        countable(dims),
        dims.len() == 3,
    ensures
        dims[0] <= usize::MAX,
        dims[1] <= usize::MAX,
        dims[2] <= usize::MAX,
        dims[1] * dims[0] <= usize::MAX,
        dims[1] * dims[0] * dims[2] == dims_product(dims),
        dims_product(dims) <= usize::MAX,
{
    let two = dims.take(2);
    let one = dims.take(1);
    assert(dims_product(two) <= usize::MAX);
    assert(dims.take(3) =~= dims);
    assert(dims.drop_last() =~= two);
    assert(two.drop_last() =~= one);
    assert(one.drop_last() =~= Seq::<u64>::empty());
    let none = dims_product(one.drop_last());
    let last = one.last() as nat;
    assert(none == 1);
    assert(none * last == last) by (nonlinear_arith)
        requires
            none == 1,
    ;
    assert(dims_product(one) == last);
    assert(dims_product(two) == last * (two.last() as nat));
    assert(dims[0] * dims[1] == dims[1] * dims[0]) by (nonlinear_arith);
}

/// A level's bytes are at most four per element.
proof fn lemma_level_bytes(p: Precision, n: nat)
    ensures
        value_bytes(p, n) + scale_bytes(p, n) <= 4 * n,
{
}

/// Writing the later levels does not move the earlier blobs, and each blob
/// grows by its own level's bytes only.
proof fn lemma_writers_upto(
    levels: Levels,
    quantizable: bool,
    n: nat,
    writers: Seq<BlobWriter>,
    k: nat,
)
    requires
        levels.wf(),
        k <= levels.all_levels@.len(),
        accounted(writers),
        roomy(writers, n),
    ensures
        accounted(writers_upto(levels, quantizable, n, writers, k)),
        forall|r: int|
            0 <= r < 4 ==> writers[r].len <= (#[trigger] writers_upto(
                levels,
                quantizable,
                n,
                writers,
                k,
            )[r]).len <= writers[r].len + 4 * n,
        forall|r: int|
            0 <= r < 4 && (forall|i: int|
                0 <= i < k ==> (#[trigger] levels.all_levels@[i]).rank() != r)
                ==> #[trigger] writers_upto(levels, quantizable, n, writers, k)[r] == writers[r],
        forall|i: int|
            0 <= i < k && levels.stores(quantizable, #[trigger] levels.all_levels@[i])
                ==> writers_upto(levels, quantizable, n, writers, k)[levels.all_levels@[i].rank()]
                == writer_after(
                levels.all_levels@[i],
                n,
                writers[levels.all_levels@[i].rank()],
            ),
    decreases k,
{
    if k > 0 {
        let m = (k - 1) as nat;
        lemma_writers_upto(levels, quantizable, n, writers, m);
        let before = writers_upto(levels, quantizable, n, writers, m);
        let p = levels.all_levels@[k - 1];
        lemma_level_bytes(p, n);
        assert(forall|i: int|
            0 <= i < m ==> (#[trigger] levels.all_levels@[i]).rank() != p.rank());
        assert(before[p.rank()] == writers[p.rank()]);
        let after = writers_upto(levels, quantizable, n, writers, k);
        assert forall|r: int|
            0 <= r < 4 && (forall|i: int|
                0 <= i < k ==> (#[trigger] levels.all_levels@[i]).rank()
                    != r) implies #[trigger] after[r] == writers[r] by {
            assert(levels.all_levels@[k - 1].rank() != r);
            assert(forall|i: int|
                0 <= i < m ==> (#[trigger] levels.all_levels@[i]).rank() != r);
        }
        assert forall|i: int|
            0 <= i < k && levels.stores(
                quantizable,
                #[trigger] levels.all_levels@[i],
            ) implies after[levels.all_levels@[i].rank()] == writer_after(
            levels.all_levels@[i],
            n,
            writers[levels.all_levels@[i].rank()],
        ) by {
            if i < m {
                assert(levels.all_levels@[i].rank() != p.rank());
            }
        }
    }
}

/// Each write is of a stored level, and stands in the blob as it was.
proof fn lemma_writes_from(
    levels: Levels,
    quantizable: bool,
    n: nat,
    writers: Seq<BlobWriter>,
    k: int,
)
    requires
        0 <= k,
    ensures
        forall|a: int|
            0 <= a < writes_from(levels, quantizable, n, writers, k).len() ==> {
                let w = #[trigger] writes_from(levels, quantizable, n, writers, k)[a];
                exists|i: int|
                    k <= i < levels.all_levels@.len() && #[trigger] levels.all_levels@[i]
                        == w.precision && levels.stores(quantizable, w.precision) && w == write_of(
                        w.precision,
                        n,
                        writers[w.precision.rank()],
                    )
            },
    decreases levels.all_levels@.len() - k,
{
    if k < levels.all_levels@.len() {
        lemma_writes_from(levels, quantizable, n, writers, k + 1);
        let p = levels.all_levels@[k];
        let rest = writes_from(levels, quantizable, n, writers, k + 1);
        let all = writes_from(levels, quantizable, n, writers, k);
        assert forall|a: int| 0 <= a < all.len() implies {
            let w = #[trigger] all[a];
            exists|i: int|
                k <= i < levels.all_levels@.len() && #[trigger] levels.all_levels@[i]
                    == w.precision && levels.stores(quantizable, w.precision) && w == write_of(
                    w.precision,
                    n,
                    writers[w.precision.rank()],
                )
        } by {
            if levels.stores(quantizable, p) {
                if a == 0 {
                    assert(levels.all_levels@[k] == all[0].precision);
                } else {
                    assert(all[a] == rest[a - 1]);
                }
            } else {
                assert(all[a] == rest[a]);
            }
        }
    }
}

/// Adding an entry written at the ends of the blobs keeps the tensors apart.
proof fn lemma_apart(
    levels: Levels,
    quantizable: bool,
    n: nat,
    before: Seq<TensorEntry>,
    writers: Seq<BlobWriter>,
    e: TensorEntry,
)
    requires
        levels.wf(),
        accounted(writers),
        roomy(writers, n),
        apart(before, writers),
        e.precisions@ == placed(writes_from(levels, quantizable, n, writers, 0)),
    ensures
        apart(before.push(e), writers_after(levels, quantizable, n, writers)),
{
    let k = levels.all_levels@.len();
    let after = writers_after(levels, quantizable, n, writers);
    lemma_writers_upto(levels, quantizable, n, writers, k);
    lemma_writes_from(levels, quantizable, n, writers, 0);
    let writes = writes_from(levels, quantizable, n, writers, 0);
    let tensors = before.push(e);
    let last = before.len() as int;
    assert forall|a: int| 0 <= a < e.precisions@.len() implies {
        let (p, b) = #[trigger] e.precisions@[a];
        &&& b.values_offset == writers[p.rank()].len
        &&& b.end() <= after[p.rank()].len
    } by {
        let w = writes[a];
        assert(e.precisions@[a] == (w.precision, w.blob));
        let i = choose|i: int|
            0 <= i < k && #[trigger] levels.all_levels@[i] == w.precision && levels.stores(
                quantizable,
                w.precision,
            ) && w == write_of(w.precision, n, writers[w.precision.rank()]);
        assert(levels.stores(quantizable, levels.all_levels@[i]));
        lemma_level_bytes(w.precision, n);
        assert(writers[w.precision.rank()].len + 4 * n <= u64::MAX);
    }
    assert forall|i: int, a: int|
        0 <= i < tensors.len() && 0 <= a < tensors[i].precisions@.len() implies (
    #[trigger] tensors[i].precisions@[a]).1.end() <= after[tensors[i].precisions@[a].0.rank()].len by {
        if i < last {
            assert(tensors[i] == before[i]);
            assert(before[i].precisions@[a].1.end()
                <= writers[before[i].precisions@[a].0.rank()].len);
        } else {
            assert(tensors[i].precisions@[a] == e.precisions@[a]);
        }
    }
    assert forall|i: int, a: int, j: int, b: int|
        0 <= i < j < tensors.len() && 0 <= a < tensors[i].precisions@.len() && 0 <= b
            < tensors[j].precisions@.len() && tensors[i].precisions@[a].0
            == tensors[j].precisions@[b].0 implies (#[trigger] tensors[i].precisions@[a]).1.end()
        <= (#[trigger] tensors[j].precisions@[b]).1.values_offset by {
        assert(tensors[i] == before[i]);
        if j < last {
            assert(tensors[j] == before[j]);
            assert(before[i].precisions@[a].1.end() <= before[j].precisions@[b].1.values_offset);
        } else {
            assert(tensors[j].precisions@[b] == e.precisions@[b]);
            assert(before[i].precisions@[a].1.end()
                <= writers[before[i].precisions@[a].0.rank()].len);
        }
    }
}

impl Importer {
    /// The levels are in order, the blobs accounted for and the tensors'
    /// bytes apart.
    pub open spec fn wf(self) -> bool {
        &&& self.levels.wf()
        &&& accounted(self.writers@)
        &&& apart(self.tensors@, self.writers@)
    }

    /// Begin an import at the requested levels.
    pub fn new(requested: &Vec<Precision>) -> (r: Self)
        ensures
            r.wf(),
            r.levels.of(requested@),
            r.tensors@.len() == 0,
            forall|k: int| 0 <= k < 4 ==> (#[trigger] r.writers@[k]).len == 0,
    {
        let levels: Levels = Levels::new(requested);
        let mut writers: Vec<BlobWriter> = Vec::new();
        writers.push(BlobWriter::new());
        writers.push(BlobWriter::new());
        writers.push(BlobWriter::new());
        writers.push(BlobWriter::new());
        Importer { levels, writers, tensors: Vec::new() }
    }

    /// Store one tensor of `n` elements at every level that holds it.
    fn store(
        &mut self,
        name: String,
        role: Role,
        shape: Vec<usize>,
        n: usize,
        source: usize,
        transpose: Option<(usize, usize)>,
        Ghost(m): Ghost<ItemModel>,
    ) -> (r: ImportItem)
        requires
            old(self).wf(),
            roomy(old(self).writers@, n as nat),
            m.name == name@,
            m.role == role_model(role),
            m.shape == shape@,
            m.n == n,
            m.source == source,
            m.transpose == transpose,
        ensures
            final(self).wf(),
            final(self).levels == old(self).levels,
            final(self).writers@ == writers_after(
                old(self).levels,
                m.quantizable(),
                n as nat,
                old(self).writers@,
            ),
            final(self).tensors@.len() == old(self).tensors@.len() + 1,
            forall|i: int|
                0 <= i < old(self).tensors@.len() ==> final(self).tensors@[i] == old(
                    self,
                ).tensors@[i],
            stored_as(
                old(self).levels,
                old(self).writers@,
                m,
                final(self).tensors@[old(self).tensors@.len() as int],
                r,
                old(self).tensors@.len() as int,
            ),
            forall|k: int|
                0 <= k < 4 ==> (#[trigger] final(self).writers@[k]).len <= old(
                    self,
                ).writers@[k].len + 4 * n,
    {
        let ghost levels = self.levels;
        let ghost first = self.writers@;
        let ghost tensors0 = self.tensors@;
        let matrix: bool = match &role {
            Role::Linear => true,
            Role::Expert { layer: _, index: _, proj: _ } => true,
            _ => false,
        };
        let quantizable: bool = matrix && QuantPolicy::Q8.eligible(&shape);
        assert(quantizable == m.quantizable());
        let ghost all = writes_from(levels, quantizable, n as nat, first, 0);
        let mut writes: Vec<ImportWrite> = Vec::new();
        let mut stored: Vec<(Precision, Blob)> = Vec::new();
        let mut k: usize = 0;
        assert(writes@ + all =~= all);
        assert(stored@ =~= placed(writes@));
        while k < self.levels.all_levels.len()
            invariant
                self.levels == levels,
                levels.wf(),
                self.tensors@ == tensors0,
                k <= levels.all_levels@.len(),
                accounted(first),
                accounted(self.writers@),
                roomy(first, n as nat),
                self.writers@ == writers_upto(levels, quantizable, n as nat, first, k as nat),
                all == writes_from(levels, quantizable, n as nat, first, 0),
                writes@ + writes_from(levels, quantizable, n as nat, first, k as int) == all,
                stored@ == placed(writes@),
            decreases levels.all_levels@.len() - k,
        {
            let p: Precision = self.levels.all_levels[k];
            let ghost rest = writes_from(levels, quantizable, n as nat, first, k + 1);
            proof {
                lemma_writers_upto(levels, quantizable, n as nat, first, k as nat);
                lemma_writers_upto(levels, quantizable, n as nat, first, (k + 1) as nat);
                assert(forall|i: int|
                    0 <= i < k ==> (#[trigger] levels.all_levels@[i]).rank() != p.rank());
                assert(self.writers@[p.rank()] == first[p.rank()]);
                lemma_level_bytes(p, n as nat);
                assert(first[p.rank()].len + 4 * n <= u64::MAX);
            }
            if self.levels.holds(quantizable, p) {
                let place: usize = match p {
                    Precision::Q4 => 0,
                    Precision::Q8 => 1,
                    Precision::F16 => 2,
                    Precision::F32 => 3,
                };
                let ghost before = writes@;
                let ghost was = self.writers@;
                let mut w: BlobWriter = self.writers[place];
                let write: ImportWrite = w.append_level(p, n as u64);
                self.writers.set(place, w);
                assert(write == write_of(p, n as nat, first[p.rank()]));
                writes.push(write);
                stored.push((p, write.blob));
                proof {
                    assert(self.writers@ =~= was.update(
                        p.rank(),
                        writer_after(p, n as nat, was[p.rank()]),
                    ));
                    assert(writes@ + rest =~= before + (seq![write] + rest));
                    assert(stored@ =~= placed(writes@));
                }
            }
            k += 1;
        }
        assert(writes@ =~= all);
        let place: usize = self.tensors.len();
        let e: TensorEntry = TensorEntry { name, role, shape, precisions: stored };
        proof {
            lemma_writers_upto(levels, quantizable, n as nat, first, levels.all_levels@.len());
            lemma_apart(levels, quantizable, n as nat, tensors0, first, e);
        }
        self.tensors.push(e);
        assert(self.tensors@ =~= tensors0.push(e));
        ImportItem { entry: place, source, count: n, transpose, writes }
    }

    /// Lay out one source tensor: the stored tensors it becomes, with their
    /// writes in order.
    pub fn add_tensor(&mut self, info: &GgufTensorInfo, action: &Option<ImportAction>) -> (r: Result<
        Vec<ImportItem>,
        String,
    >)
        requires
            old(self).wf(),
            is_stored(*action) ==> {
                &&& countable(info.dims@)
                &&& roomy(old(self).writers@, dims_product(info.dims@))
            },
        ensures
            final(self).wf(),
            final(self).levels == old(self).levels,
            match r {
                Err(e) => {
                    &&& items_of(*info, *action) == Err::<Seq<ItemModel>, _>(e@)
                    &&& final(self).writers@ == old(self).writers@
                    &&& final(self).tensors@ == old(self).tensors@
                },
                Ok(items) => {
                    let models = items_of(*info, *action)->Ok_0;
                    let base = old(self).tensors@.len() as int;
                    &&& items_of(*info, *action) is Ok
                    &&& items@.len() == models.len()
                    &&& final(self).tensors@.len() == base + models.len()
                    &&& forall|i: int|
                        0 <= i < base ==> final(self).tensors@[i] == old(self).tensors@[i]
                    &&& final(self).writers@ == writers_over(
                        old(self).levels,
                        old(self).writers@,
                        models,
                        models.len(),
                    )
                    &&& forall|i: int|
                        0 <= i < models.len() ==> stored_as(
                            old(self).levels,
                            writers_over(old(self).levels, old(self).writers@, models, i as nat),
                            models[i],
                            final(self).tensors@[base + i],
                            #[trigger] items@[i],
                            base + i,
                        )
                },
            },
    {
        let ghost dims = info.dims@;
        let ghost models = items_of(*info, *action)->Ok_0;
        let ghost levels = self.levels;
        let ghost first = self.writers@;
        let mut items: Vec<ImportItem> = Vec::new();
        let action: &ImportAction = match action {
            None => {
                let mut m: String = String::new();
                m.append("unmapped tensor name '");
                m.append(info.name.as_str());
                m.append("'");
                return Err(m);
            },
            Some(a) => a,
        };
        match action {
            ImportAction::Skip => {
                return Ok(items);
            },
            ImportAction::Linear => {
                if info.dims.len() != 2 {
                    return Err(wrong_rank(info, "' linear must be 2-D"));
                }
                let n: usize = elements(info);
                let inp: usize = info.dims[0] as usize;
                let out: usize = info.dims[1] as usize;
                let mut shape: Vec<usize> = Vec::new();
                shape.push(inp);
                shape.push(out);
                assert(shape@ =~= seq![dims[0] as usize, dims[1] as usize]);
                items.push(
                    self.store(
                        info.name.clone(),
                        Role::Linear,
                        shape,
                        n,
                        0,
                        Some((out, inp)),
                        Ghost(models[0]),
                    ),
                );
            },
            ImportAction::Embedding => {
                let n: usize = elements(info);
                let shape: Vec<usize> = outer(info);
                items.push(
                    self.store(
                        info.name.clone(),
                        Role::Embedding,
                        shape,
                        n,
                        0,
                        None,
                        Ghost(models[0]),
                    ),
                );
            },
            ImportAction::Vector => {
                let n: usize = elements(info);
                let shape: Vec<usize> = outer(info);
                items.push(
                    self.store(
                        info.name.clone(),
                        Role::Vector,
                        shape,
                        n,
                        0,
                        None,
                        Ghost(models[0]),
                    ),
                );
            },
            ImportAction::Conv => {
                if info.dims.len() != 2 {
                    return Err(wrong_rank(info, "' conv must be 2-D squeezed"));
                }
                let n: usize = elements(info);
                let mut shape: Vec<usize> = Vec::new();
                shape.push(info.dims[1] as usize);
                shape.push(1);
                shape.push(info.dims[0] as usize);
                assert(shape@ =~= seq![dims[1] as usize, 1, dims[0] as usize]);
                items.push(
                    self.store(
                        info.name.clone(),
                        Role::Conv,
                        shape,
                        n,
                        0,
                        None,
                        Ghost(models[0]),
                    ),
                );
            },
            ImportAction::ExpertBank { layer, proj } => {
                if info.dims.len() != 3 {
                    return Err(wrong_rank(info, "' expert bank must be 3-D"));
                }
                let inp: usize = info.dims[0] as usize;
                let out: usize = info.dims[1] as usize;
                let experts: usize = info.dims[2] as usize;
                proof {
                    lemma_bank(dims);
                }
                let stride: usize = out * inp;
                let mut i: usize = 0;
                assert(stride * 0 == 0) by (nonlinear_arith);
                while i < experts
                    invariant
                        i <= experts,
                        dims == info.dims@,
                        dims.len() == 3,
                        dims[2] == experts,
                        inp == dims[0] as usize,
                        out == dims[1] as usize,
                        stride == out * inp,
                        stride * experts == dims_product(dims),
                        dims_product(dims) <= usize::MAX,
                        models == Seq::new(
                            dims[2] as nat,
                            |q: int| member(*info, *layer, proj@, q),
                        ),
                        roomy(first, dims_product(dims)),
                        accounted(first),
                        first == old(self).writers@,
                        levels == old(self).levels,
                        self.wf(),
                        self.levels == levels,
                        items@.len() == i,
                        self.tensors@.len() == old(self).tensors@.len() + i,
                        forall|q: int|
                            0 <= q < old(self).tensors@.len() ==> self.tensors@[q] == old(
                                self,
                            ).tensors@[q],
                        self.writers@ == writers_over(levels, first, models, i as nat),
                        forall|q: int|
                            0 <= q < 4 ==> (#[trigger] self.writers@[q]).len <= first[q].len + 4
                                * (stride * i),
                        forall|q: int|
                            0 <= q < i ==> stored_as(
                                levels,
                                writers_over(levels, first, models, q as nat),
                                models[q],
                                self.tensors@[old(self).tensors@.len() + q],
                                #[trigger] items@[q],
                                old(self).tensors@.len() + q,
                            ),
                    decreases experts - i,
                {
                    proof {
                        assert(stride * (i + 1) <= stride * experts) by (nonlinear_arith)
                            requires
                                i + 1 <= experts,
                                stride >= 0,
                        ;
                        assert(stride * (i + 1) == stride * i + stride) by (nonlinear_arith);
                        assert(i * stride == stride * i) by (nonlinear_arith);
                        assert forall|q: int| 0 <= q < self.writers@.len() implies (
                        #[trigger] self.writers@[q]).len + 4 * stride <= u64::MAX by {
                            assert(first[q].len + 4 * dims_product(dims) <= u64::MAX);
                        }
                    }
                    let mut name: String = info.name.clone();
                    name.append("/e");
                    push_decimal(&mut name, i as u64);
                    let mut shape: Vec<usize> = Vec::new();
                    shape.push(inp);
                    shape.push(out);
                    let ghost m = models[i as int];
                    let role: Role = Role::Expert { layer: *layer, index: i, proj: proj.clone() };
                    assert(shape@ =~= seq![inp, out]);
                    assert(m == member(*info, *layer, proj@, i as int));
                    let item: ImportItem = self.store(
                        name,
                        role,
                        shape,
                        stride,
                        i * stride,
                        Some((out, inp)),
                        Ghost(m),
                    );
                    items.push(item);
                    i += 1;
                }
                return Ok(items);
            },
        }
        proof {
            assert(models.len() == 1);
            reveal_with_fuel(writers_over, 2);
            assert(writers_over(levels, first, models, 0) == first);
        }
        Ok(items)
    }
}

impl Importer {
    /// The manifest of a finished import.
    pub fn finish(self, source_file: String, source_bytes: u64, architecture: String) -> (r:
        Manifest)
        ensures
            r.version == PACK_VERSION,
            r.source_file == source_file,
            r.source_bytes == source_bytes,
            r.architecture == architecture,
            r.precisions == self.levels.all_levels,
            r.tensors == self.tensors,
            r.ffn_partition is None,
    {
        Manifest {
            version: PACK_VERSION,
            source_file,
            source_bytes,
            architecture,
            precisions: self.levels.all_levels,
            tensors: self.tensors,
            ffn_partition: None,
        }
    }
}

/// "'..' .., got [..]".
fn wrong_rank(info: &GgufTensorInfo, complaint: &str) -> (r: String)
    ensures
        r@ == "'"@ + info.name@ + complaint@ + (", got "@ + list_text(outer_list(info.dims@))),
{
    let mut list: Vec<u64> = Vec::new();
    let n: usize = info.dims.len();
    let mut i: usize = 0;
    while i < n
        invariant
            n == info.dims@.len(),
            i <= n,
            list@.len() == i,
            forall|k: int| 0 <= k < i ==> (#[trigger] list@[k]) == info.dims@[n - 1 - k],
        decreases n - i,
    {
        list.push(info.dims[n - 1 - i]);
        i += 1;
    }
    assert(list@ =~= outer_list(info.dims@));
    let mut m: String = String::new();
    m.append("'");
    m.append(info.name.as_str());
    m.append(complaint);
    m.append(", got ");
    push_list(&mut m, &list);
    assert(m@ =~= "'"@ + info.name@ + complaint@ + (", got "@ + list_text(
        outer_list(info.dims@),
    )));
    m
}

/// The dimensions, outermost first.
fn outer(info: &GgufTensorInfo) -> (r: Vec<usize>)
    requires
        forall|i: int| 0 <= i < info.dims@.len() ==> (#[trigger] info.dims@[i]) <= usize::MAX,
    ensures
        r@ == outer_first(info.dims@),
{
    let mut shape: Vec<usize> = Vec::new();
    let n: usize = info.dims.len();
    let mut i: usize = 0;
    while i < n
        invariant
            n == info.dims@.len(),
            i <= n,
            shape@.len() == i,
            forall|k: int| 0 <= k < i ==> (#[trigger] shape@[k]) == info.dims@[n - 1 - k] as usize,
        decreases n - i,
    {
        shape.push(info.dims[n - 1 - i] as usize);
        i += 1;
    }
    assert(shape@ =~= outer_first(info.dims@));
    shape
}

/// The number of elements.
fn elements(info: &GgufTensorInfo) -> (r: usize)
    requires
        forall|k: int|
            0 <= k <= info.dims@.len() ==> #[trigger] dims_product(info.dims@.take(k))
                <= usize::MAX,
    ensures
        r == dims_product(info.dims@),
{
    assert(info.dims@.take(info.dims@.len() as int) =~= info.dims@);
    match info.element_count() {
        Some(n) => n as usize,
        None => 0,
    }
}

} // verus!
