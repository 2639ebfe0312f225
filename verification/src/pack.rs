//! The pack: a model held at every stored precision, so any device can pull
//! exactly the tensors and the precision it runs best.
//!
//! A pack holds one blob per stored precision; each tensor's bytes are
//! contiguous within it. Quantized levels use blocks of [`BLOCK`] values with
//! one single-precision scale each. Linear weights are stored already
//! transposed to `[in, out]`; expert banks are split into per-expert members.
//!
//! Single-precision values are carried by bit pattern.

use crate::quant::QuantPolicy;
use crate::text::{
    char_lists, chars_of, debug_text, lowercase, lowered, pieces, push_debug, spells, split_at,
    string_of, trim, trimmed,
};
use vstd::prelude::*;

pub mod import;
pub mod layout;
pub mod outcomes;
pub mod read;
pub mod store;

verus! {

/// Pack format version (bump on any incompatible manifest or blob change).
pub const PACK_VERSION: u32 = 1;

/// Block width of the quantized levels.
pub const BLOCK: usize = 32;

/// A stored precision level.
#[derive(Debug, Clone, Copy, PartialEq, Eq, PartialOrd, Ord, Hash, Structural)]
pub enum Precision {
    Q4,
    Q8,
    F16,
    F32,
}

/// The level that one item of a list names.
pub open spec fn level_named(item: Seq<char>) -> Option<Precision> {
    if item == "q4"@ || item == "int4"@ {
        Some(Precision::Q4)
    } else if item == "q8"@ || item == "int8"@ {
        Some(Precision::Q8)
    } else if item == "f16"@ || item == "half"@ {
        Some(Precision::F16)
    } else if item == "f32"@ || item == "float"@ {
        Some(Precision::F32)
    } else {
        None
    }
}

/// The levels named by the items from `i` on, or the first item that names
/// none. Items are trimmed, empty ones do not count, case does not matter.
pub open spec fn levels_from(items: Seq<Seq<char>>, i: int) -> Result<Seq<Precision>, Seq<char>>
    decreases items.len() - i,
{
    if i < 0 || i >= items.len() {
        Ok(Seq::empty())
    } else {
        let item = lowered(trimmed(items[i]));
        if item.len() == 0 {
            levels_from(items, i + 1)
        } else {
            match level_named(item) {
                None => Err(item),
                Some(p) => match levels_from(items, i + 1) {
                    Ok(rest) => Ok(seq![p] + rest),
                    Err(e) => Err(e),
                },
            }
        }
    }
}

/// The levels of a list, each once, ascending.
pub open spec fn ascending(found: Seq<Precision>) -> Seq<Precision> {
    (if found.contains(Precision::Q4) {
        seq![Precision::Q4]
    } else {
        Seq::empty()
    }) + (if found.contains(Precision::Q8) {
        seq![Precision::Q8]
    } else {
        Seq::empty()
    }) + (if found.contains(Precision::F16) {
        seq![Precision::F16]
    } else {
        Seq::empty()
    }) + (if found.contains(Precision::F32) {
        seq![Precision::F32]
    } else {
        Seq::empty()
    })
}

/// What a list of levels says, or why it is refused.
pub open spec fn parsed_levels(s: Seq<char>) -> Result<Seq<Precision>, Seq<char>> {
    match levels_from(pieces(s, ','), 0) {
        Err(item) => Err("unknown precision "@ + debug_text(item)),
        Ok(found) => if found.len() == 0 {
            Err("no precisions given"@)
        } else {
            Ok(ascending(found))
        },
    }
}

/// Do the levels stand in ascending order, each at most once?
pub open spec fn strictly_ascending(v: Seq<Precision>) -> bool {
    forall|i: int, j: int|
        0 <= i < j < v.len() ==> (#[trigger] v[i]).rank() < (#[trigger] v[j]).rank()
}

/// A normalised list of levels is ascending and holds exactly the levels of
/// the list.
pub proof fn normalised_levels_are_ascending(found: Seq<Precision>)
    ensures
        strictly_ascending(ascending(found)),
        forall|p: Precision| #[trigger] ascending(found).contains(p) == found.contains(p),
{
    let a = ascending(found);
    let q4 = if found.contains(Precision::Q4) {
        1int
    } else {
        0int
    };
    let q8 = q4 + if found.contains(Precision::Q8) {
        1int
    } else {
        0int
    };
    let h = q8 + if found.contains(Precision::F16) {
        1int
    } else {
        0int
    };
    assert forall|p: Precision| #[trigger] a.contains(p) == found.contains(p) by {
        if found.contains(p) {
            match p {
                Precision::Q4 => {
                    assert(a[0] == p);
                },
                Precision::Q8 => {
                    assert(a[q4] == p);
                },
                Precision::F16 => {
                    assert(a[q8] == p);
                },
                Precision::F32 => {
                    assert(a[h] == p);
                },
            }
        }
    }
}

/// Which levels were met.
struct Met {
    q4: bool,
    q8: bool,
    half: bool,
    single: bool,
}

impl Met {
    /// The levels met are those of the list.
    spec fn of(self, found: Seq<Precision>) -> bool {
        &&& self.q4 == found.contains(Precision::Q4)
        &&& self.q8 == found.contains(Precision::Q8)
        &&& self.half == found.contains(Precision::F16)
        &&& self.single == found.contains(Precision::F32)
    }

    /// Meet one more level.
    fn meet(&mut self, p: Precision, Ghost(found): Ghost<Seq<Precision>>)
        requires
            old(self).of(found),
        ensures
            final(self).of(found.push(p)),
    {
        proof {
            assert forall|q: Precision| found.push(p).contains(q) == (found.contains(q) || q
                == p) by {
                if found.contains(q) {
                    let i = choose|i: int| 0 <= i < found.len() && found[i] == q;
                    assert(found.push(p)[i] == q);
                }
                assert(found.push(p)[found.len() as int] == p);
            }
        }
        match p {
            Precision::Q4 => {
                self.q4 = true;
            },
            Precision::Q8 => {
                self.q8 = true;
            },
            Precision::F16 => {
                self.half = true;
            },
            Precision::F32 => {
                self.single = true;
            },
        }
    }

    /// The levels met, ascending.
    fn list(&self, Ghost(found): Ghost<Seq<Precision>>) -> (r: Vec<Precision>)
        requires
            self.of(found),
        ensures
            r@ == ascending(found),
    {
        let mut out: Vec<Precision> = Vec::new();
        if self.q4 {
            out.push(Precision::Q4);
        }
        if self.q8 {
            out.push(Precision::Q8);
        }
        if self.half {
            out.push(Precision::F16);
        }
        if self.single {
            out.push(Precision::F32);
        }
        assert(out@ =~= ascending(found));
        out
    }
}

/// The levels of a list, each once, ascending.
pub fn normalise(v: &Vec<Precision>) -> (r: Vec<Precision>)
    ensures
        r@ == ascending(v@),
{
    let mut met: Met = Met { q4: false, q8: false, half: false, single: false };
    let mut i: usize = 0;
    assert(v@.take(0) =~= Seq::<Precision>::empty());
    while i < v.len()
        invariant
            i <= v@.len(),
            met.of(v@.take(i as int)),
        decreases v@.len() - i,
    {
        assert(v@.take(i + 1) =~= v@.take(i as int).push(v@[i as int]));
        met.meet(v[i], Ghost(v@.take(i as int)));
        i += 1;
    }
    assert(v@.take(i as int) =~= v@);
    met.list(Ghost(v@))
}

/// Is the level in the list?
pub fn listed(v: &Vec<Precision>, p: Precision) -> (r: bool)
    ensures
        r == v@.contains(p),
{
    let mut i: usize = 0;
    while i < v.len()
        invariant
            i <= v@.len(),
            forall|k: int| 0 <= k < i ==> v@[k] != p,
        decreases v@.len() - i,
    {
        if v[i] == p {
            return true;
        }
        i += 1;
    }
    false
}

impl Precision {
    /// The place of the level, narrowest first.
    pub open spec fn rank(self) -> int {
        match self {
            Precision::Q4 => 0,
            Precision::Q8 => 1,
            Precision::F16 => 2,
            Precision::F32 => 3,
        }
    }

    /// The level's name.
    pub open spec fn label(self) -> Seq<char> {
        match self {
            Precision::Q4 => "Q4"@,
            Precision::Q8 => "Q8"@,
            Precision::F16 => "F16"@,
            Precision::F32 => "F32"@,
        }
    }

    /// Is this a quantized level?
    pub open spec fn quantized(self) -> bool {
        self == Precision::Q4 || self == Precision::Q8
    }

    /// The level's name.
    pub fn name(self) -> (r: &'static str)
        ensures
            r@ == self.label(),
    {
        match self {
            Precision::Q4 => "Q4",
            Precision::Q8 => "Q8",
            Precision::F16 => "F16",
            Precision::F32 => "F32",
        }
    }

    /// Blob file name inside the pack.
    pub fn blob_name(self) -> (r: &'static str)
        ensures
            r@ == (match self {
                Precision::Q4 => "q4.bin"@,
                Precision::Q8 => "q8.bin"@,
                Precision::F16 => "f16.bin"@,
                Precision::F32 => "f32.bin"@,
            }),
    {
        match self {
            Precision::Q4 => "q4.bin",
            Precision::Q8 => "q8.bin",
            Precision::F16 => "f16.bin",
            Precision::F32 => "f32.bin",
        }
    }

    /// The quant policy this level corresponds to (`Off` for floats).
    pub fn policy(self) -> (r: QuantPolicy)
        ensures
            r == (match self {
                Precision::Q4 => QuantPolicy::Q4,
                Precision::Q8 => QuantPolicy::Q8,
                _ => QuantPolicy::Off,
            }),
    {
        match self {
            Precision::Q4 => QuantPolicy::Q4,
            Precision::Q8 => QuantPolicy::Q8,
            Precision::F16 => QuantPolicy::Off,
            Precision::F32 => QuantPolicy::Off,
        }
    }

    /// Parse a comma-separated list of levels.
    pub fn parse_list(s: &str) -> (r: Result<Vec<Precision>, String>)
        ensures
            match r {
                Ok(v) => parsed_levels(s@) == Ok::<_, Seq<char>>(v@),
                Err(e) => parsed_levels(s@) == Err::<Seq<Precision>, _>(e@),
            },
    {
        let items: Vec<Vec<char>> = split_at(&chars_of(s), ',');
        let ghost texts = char_lists(items@);
        assert(texts == pieces(s@, ','));
        let mut met: Met = Met { q4: false, q8: false, half: false, single: false };
        let ghost mut found: Seq<Precision> = Seq::empty();
        let mut any: bool = false;
        let mut i: usize = 0;
        proof {
            match levels_from(texts, 0) {
                Ok(rest) => {
                    assert(found + rest =~= rest);
                },
                Err(_) => {},
            }
        }
        while i < items.len()
            invariant
                i <= items@.len(),
                texts == char_lists(items@),
                texts == pieces(s@, ','),
                met.of(found),
                any == (found.len() > 0),
                match levels_from(texts, i as int) {
                    Ok(rest) => levels_from(texts, 0) == Ok::<_, Seq<char>>(found + rest),
                    Err(e) => levels_from(texts, 0) == Err::<Seq<Precision>, _>(e),
                },
            decreases items@.len() - i,
        {
            let item: Vec<char> = lowercase(&trim(&items[i]));
            assert(texts[i as int] == items@[i as int]@);
            if item.len() > 0 {
                let level: Option<Precision> = if spells(&item, "q4") || spells(&item, "int4") {
                    Some(Precision::Q4)
                } else if spells(&item, "q8") || spells(&item, "int8") {
                    Some(Precision::Q8)
                } else if spells(&item, "f16") || spells(&item, "half") {
                    Some(Precision::F16)
                } else if spells(&item, "f32") || spells(&item, "float") {
                    Some(Precision::F32)
                } else {
                    None
                };
                match level {
                    None => {
                        let mut m: String = String::new();
                        m.append("unknown precision ");
                        push_debug(&mut m, string_of(&item).as_str());
                        return Err(m);
                    },
                    Some(p) => {
                        met.meet(p, Ghost(found));
                        any = true;
                        proof {
                            match levels_from(texts, i + 1) {
                                Ok(rest) => {
                                    assert(found.push(p) + rest =~= found + (seq![p] + rest));
                                },
                                Err(_) => {},
                            }
                            found = found.push(p);
                        }
                    },
                }
            }
            i += 1;
        }
        assert(found + Seq::<Precision>::empty() =~= found);
        if !any {
            let mut m: String = String::new();
            m.append("no precisions given");
            return Err(m);
        }
        Ok(met.list(Ghost(found)))
    }
}

/// What a tensor is to the model.
#[derive(Debug, Clone)]
pub enum Role {
    /// A 2-D projection weight, stored `[in, out]`.
    Linear,
    /// The token embedding, stored `[vocab, hidden]`; never quantized.
    Embedding,
    /// A 1-D vector (norm gamma, bias, per-head scalars).
    Vector,
    /// A depthwise conv kernel `[channels, 1, k]`.
    Conv,
    /// One member of a split expert bank, stored `[in, out]`.
    Expert { layer: usize, index: usize, proj: String },
}

/// Where one precision of one tensor lives inside its blob.
#[derive(Debug, Clone, Copy, PartialEq, Eq, Structural)]
pub struct Blob {
    pub values_offset: u64,
    pub values_len: u64,
    /// Zero-length for float levels.
    pub scales_offset: u64,
    pub scales_len: u64,
}

impl Blob {
    /// Where the tensor's bytes end.
    pub open spec fn end(self) -> int {
        if self.scales_len > 0 {
            self.scales_offset + self.scales_len
        } else {
            self.values_offset + self.values_len
        }
    }
}

/// One tensor in the pack.
#[derive(Debug)]
pub struct TensorEntry {
    /// The source tensor name, with `/e{index}` appended for split expert
    /// members.
    pub name: String,
    pub role: Role,
    /// Row-major shape as stored.
    pub shape: Vec<usize>,
    /// The stored levels, ascending, each once.
    pub precisions: Vec<(Precision, Blob)>,
}

/// The place of a level among the stored ones, from `from` on.
pub open spec fn level_at(v: Seq<(Precision, Blob)>, p: Precision, from: int) -> Option<int>
    decreases v.len() - from,
{
    if from < 0 || from >= v.len() {
        None
    } else if v[from].0 == p {
        Some(from)
    } else {
        level_at(v, p, from + 1)
    }
}

/// Product of a shape.
pub open spec fn numel(shape: Seq<usize>) -> nat
    decreases shape.len(),
{
    if shape.len() == 0 {
        1
    } else {
        numel(shape.drop_last()) * (shape.last() as nat)
    }
}

/// Does every leading product of a shape fit a size?
pub open spec fn shape_fits(shape: Seq<usize>) -> bool {
    forall|k: int| 0 <= k <= shape.len() ==> #[trigger] numel(shape.take(k)) <= usize::MAX
}

/// The number of elements of a shape.
pub fn count(shape: &Vec<usize>) -> (r: usize)
    requires
        shape_fits(shape@),
    ensures
        r == numel(shape@),
{
    let mut n: usize = 1;
    let mut i: usize = 0;
    assert(shape@.take(0).len() == 0);
    while i < shape.len()
        invariant
            i <= shape@.len(),
            shape_fits(shape@),
            n == numel(shape@.take(i as int)),
        decreases shape@.len() - i,
    {
        proof {
            let next = shape@.take(i + 1);
            assert(next.drop_last() =~= shape@.take(i as int));
            assert(next.last() == shape@[i as int]);
            assert(numel(next) == n as nat * (shape@[i as int] as nat));
            assert(numel(shape@.take(i + 1)) <= usize::MAX);
        }
        n = n * shape[i];
        i += 1;
    }
    assert(shape@.take(i as int) =~= shape@);
    n
}

impl TensorEntry {
    /// The blob of a level.
    pub open spec fn blob(self, p: Precision) -> Option<Blob> {
        match level_at(self.precisions@, p, 0) {
            Some(i) => Some(self.precisions@[i].1),
            None => None,
        }
    }

    /// The blob of a level.
    pub fn get(&self, p: Precision) -> (r: Option<Blob>)
        ensures
            r == self.blob(p),
    {
        let mut i: usize = 0;
        while i < self.precisions.len()
            invariant
                i <= self.precisions@.len(),
                level_at(self.precisions@, p, 0) == level_at(self.precisions@, p, i as int),
            decreases self.precisions@.len() - i,
        {
            if self.precisions[i].0 == p {
                return Some(self.precisions[i].1);
            }
            i += 1;
        }
        None
    }
}

/// One contiguous cluster of a (permuted) intermediate dimension.
#[derive(Debug, Clone, Copy, PartialEq, Eq, Structural)]
pub struct ClusterSpan {
    pub start: usize,
    pub len: usize,
}

/// One measured point of the skip trade-off, by bit pattern: how far the
/// model strays when clusters below the threshold are skipped.
#[derive(Debug, Clone, Copy, PartialEq, Eq, Structural)]
pub struct SkipPoint {
    pub tau: u32,
    /// Largest change of a log-probability at the measured positions.
    pub max_delta_logprob: u32,
    /// Fraction of measured positions with the same most likely token.
    pub argmax_agreement: u32,
    /// Mean fraction of clusters computed.
    pub kept_fraction: u32,
}

/// The feed-forward partition of a dense model.
#[derive(Debug)]
pub struct FfnPartition {
    /// The cluster spans of each layer.
    pub layers: Vec<Vec<ClusterSpan>>,
    /// The names of each layer's gate, up and down tensors.
    pub names: Vec<(String, String, String)>,
    /// Each cluster's share of the activation energy, by bit pattern; empty
    /// until calibrated.
    pub hotness: Vec<Vec<u32>>,
    /// The measured skip trade-off; empty until calibrated.
    pub skip_table: Vec<SkipPoint>,
}

/// The pack manifest.
#[derive(Debug)]
pub struct Manifest {
    pub version: u32,
    pub source_file: String,
    pub source_bytes: u64,
    pub architecture: String,
    pub precisions: Vec<Precision>,
    pub tensors: Vec<TensorEntry>,
    /// Absent on packs that were not partitioned.
    pub ffn_partition: Option<FfnPartition>,
}

/// How the importer should treat one source tensor.
#[derive(Debug)]
pub enum ImportAction {
    /// Drop it.
    Skip,
    /// A 2-D linear weight: transpose `[out, in]` to `[in, out]`.
    Linear,
    /// The embedding table: keep `[vocab, hidden]`, float only.
    Embedding,
    /// A 1-D vector: float only.
    Vector,
    /// A squeezed depthwise conv kernel, `[channels, 1, k]`.
    Conv,
    /// A fused expert bank `[experts, out, in]`: split into members, each
    /// stored `[in, out]`.
    ExpertBank { layer: usize, proj: String },
}

/// The low four bits of a value.
pub open spec fn nibble(v: i8) -> int {
    v as int % 16
}

/// The low four bits of a value.
fn low_nibble(v: i8) -> (r: u8)
    ensures
        r == nibble(v),
{
    let shifted: i16 = v as i16 + 256;
    (shifted % 16) as u8
}

/// Two values per byte, low nibble first; an odd last value has a zero beside
/// it.
pub open spec fn packed(values: Seq<i8>) -> Seq<u8> {
    Seq::new(
        ((values.len() + 1) / 2) as nat,
        |i: int|
            (nibble(values[2 * i]) + 16 * (if 2 * i + 1 < values.len() {
                nibble(values[2 * i + 1])
            } else {
                0
            })) as u8,
    )
}

/// Pack values in 4-bit range into nibbles, two per byte, low nibble first.
pub fn pack_nibbles(values: &Vec<i8>) -> (r: Vec<u8>)
    ensures
        r@ == packed(values@),
{
    let n: usize = values.len();
    let mut out: Vec<u8> = Vec::new();
    let mut i: usize = 0;
    while i < n
        invariant
            n == values@.len(),
            i <= n + 1,
            i % 2 == 0 || i == n,
            out@.len() == (i + 1) / 2,
            i == n || i % 2 == 0,
            forall|k: int| 0 <= k < out@.len() ==> (#[trigger] out@[k]) == packed(values@)[k],
        decreases n - i,
    {
        let lo: u8 = low_nibble(values[i]);
        let hi: u8 = if n - i > 1 {
            low_nibble(values[i + 1])
        } else {
            0
        };
        out.push(lo + 16 * hi);
        assert(packed(values@)[(i / 2) as int] == lo + 16 * hi);
        if n - i > 1 {
            i += 2;
        } else {
            i += 1;
        }
    }
    assert(out@ =~= packed(values@));
    out
}

/// A nibble as a signed 4-bit value.
pub open spec fn sign_extended(nib: int) -> int {
    if nib >= 8 {
        nib - 16
    } else {
        nib
    }
}

/// Value `j` of a packed list.
pub open spec fn unpacked_at(bytes: Seq<u8>, j: int) -> int {
    sign_extended(
        if j % 2 == 0 {
            bytes[j / 2] as int % 16
        } else {
            bytes[j / 2] as int / 16
        },
    )
}

/// The first `n` values of a packed list, or all there are.
pub open spec fn unpacked(bytes: Seq<u8>, n: nat) -> Seq<i8> {
    Seq::new(
        if n <= 2 * bytes.len() {
            n
        } else {
            2 * bytes.len()
        },
        |j: int| unpacked_at(bytes, j) as i8,
    )
}

/// Inverse of [`pack_nibbles`]: sign-extend each nibble.
pub fn unpack_nibbles(bytes: &Vec<u8>, n: usize) -> (r: Vec<i8>)
    ensures
        r@ == unpacked(bytes@, n as nat),
{
    let mut out: Vec<i8> = Vec::new();
    let mut i: usize = 0;
    while i < bytes.len() && out.len() < n
        invariant
            i <= bytes@.len(),
            out@.len() <= n,
            out@.len() == 2 * i || (out@.len() == n && n < 2 * i <= n + 1),
            forall|k: int|
                0 <= k < out@.len() ==> (#[trigger] out@[k]) == unpacked_at(bytes@, k) as i8,
        decreases bytes@.len() - i,
    {
        let b: u8 = bytes[i];
        let lo: i16 = (b % 16) as i16;
        let hi: i16 = (b / 16) as i16;
        let low: i8 = (if lo >= 8 {
            lo - 16
        } else {
            lo
        }) as i8;
        let high: i8 = (if hi >= 8 {
            hi - 16
        } else {
            hi
        }) as i8;
        assert((2 * i as int) / 2 == i as int && (2 * i as int + 1) / 2 == i as int);
        out.push(low);
        if out.len() < n {
            out.push(high);
        }
        i += 1;
    }
    assert(out@ =~= unpacked(bytes@, n as nat));
    out
}

/// Unpacking gives back what was packed, for values of 4-bit range.
pub proof fn nibbles_round_trip(values: Seq<i8>)
    requires
        forall|i: int| 0 <= i < values.len() ==> -8 <= #[trigger] values[i] <= 7,
    ensures
        unpacked(packed(values), values.len()) == values,
{
    let bytes = packed(values);
    let back = unpacked(bytes, values.len());
    assert forall|j: int| 0 <= j < values.len() implies back[j] == values[j] by {
        let i = j / 2;
        assert(-8 <= values[j] <= 7);
        assert(0 <= nibble(values[2 * i]) < 16);
        if 2 * i + 1 < values.len() {
            assert(0 <= nibble(values[2 * i + 1]) < 16);
        }
        if j % 2 == 0 {
            assert(j == 2 * i);
        } else {
            assert(j == 2 * i + 1);
        }
    }
    assert(back =~= values);
}

/// The low `bits` bits of a value, for 4 or 8 bits.
pub open spec fn field(v: i8, base: int) -> int {
    v as int % base
}

/// The word that holds the first `n` values from `at` on, value `j` at bits
/// `j * bits`.
pub open spec fn word_of(values: Seq<i8>, base: int, at: int, n: nat) -> int
    decreases n,
{
    if n == 0 {
        0
    } else {
        word_of(values, base, at, (n - 1) as nat) + field(values[at + n - 1], base) * power(
            base,
            (n - 1) as nat,
        )
    }
}

/// `base` to the `n`.
pub open spec fn power(base: int, n: nat) -> int
    decreases n,
{
    if n == 0 {
        1
    } else {
        base * power(base, (n - 1) as nat)
    }
}

/// Values per 32-bit word.
pub open spec fn per_word(bits: nat) -> nat {
    if bits == 4 {
        8
    } else {
        4
    }
}

/// How many words hold `len` values.
pub open spec fn word_count(len: nat, bits: nat) -> nat {
    if bits == 4 {
        (len + 7) / 8
    } else {
        (len + 3) / 4
    }
}

/// The first value of word `w`.
pub open spec fn word_start(bits: nat, w: int) -> int {
    if bits == 4 {
        8 * w
    } else {
        4 * w
    }
}

/// How many values word `w` holds.
pub open spec fn word_len(len: nat, bits: nat, w: int) -> nat {
    if len - word_start(bits, w) < per_word(bits) {
        (len - word_start(bits, w)) as nat
    } else {
        per_word(bits)
    }
}

/// One past the largest field.
pub open spec fn field_base(bits: nat) -> int {
    if bits == 4 {
        16
    } else {
        256
    }
}

/// The words of a quantized tensor: the values packed little-endian, then the
/// block scales.
pub open spec fn quantized_words(values: Seq<i8>, scales: Seq<u32>, bits: nat) -> Seq<u32> {
    Seq::new(
        word_count(values.len(), bits),
        |w: int|
            word_of(
                values,
                field_base(bits),
                word_start(bits, w),
                word_len(values.len(), bits, w),
            ) as u32,
    ) + scales
}

/// A word of `n` fields stays below the `n`th power of the base.
proof fn lemma_word_bound(values: Seq<i8>, base: int, at: int, n: nat)
    requires
        base > 0,
    ensures
        0 <= word_of(values, base, at, n) < power(base, n),
        power(base, n) >= 1,
    decreases n,
{
    if n > 0 {
        lemma_word_bound(values, base, at, (n - 1) as nat);
        let f = field(values[at + n - 1], base);
        let p = power(base, (n - 1) as nat);
        assert(0 <= f < base);
        assert(0 <= f * p) by (nonlinear_arith)
            requires
                0 <= f,
                p >= 1,
        ;
        assert(f * p + p <= base * p) by (nonlinear_arith)
            requires
                f < base,
                p >= 1,
        ;
    }
}

/// The words of block-quantized values and their scales: 8 nibbles or 4 bytes
/// per word, element `j` at bits `j * bits`, then the scales by bit pattern.
/// `bits` is 4 or 8.
pub fn quantized_tensor_data(values: &Vec<i8>, scales: &Vec<u32>, bits: u32) -> (r: Vec<u32>)
    requires
        bits == 4 || bits == 8,
    ensures
        r@ == quantized_words(values@, scales@, bits as nat),
{
    let ghost per0 = per_word(bits as nat);
    let ghost base0 = field_base(bits as nat);
    let per: usize = if bits == 4 {
        8
    } else {
        4
    };
    let base: u64 = if bits == 4 {
        16
    } else {
        256
    };
    proof {
        reveal_with_fuel(power, 9);
        assert(power(16, 8) == 0x1_0000_0000);
        assert(power(256, 4) == 0x1_0000_0000);
    }
    let n: usize = values.len();
    let mut words: Vec<u32> = Vec::new();
    let mut at: usize = 0;
    let ghost goal = quantized_words(values@, Seq::empty(), bits as nat);
    while at < n
        invariant
            n == values@.len(),
            bits == 4 || bits == 8,
            per == per0,
            per0 == per_word(bits as nat),
            base == base0,
            base0 == field_base(bits as nat),
            power(base0, per0) == 0x1_0000_0000,
            goal == quantized_words(values@, Seq::empty(), bits as nat),
            at <= n,
            at == n || at == word_start(bits as nat, words@.len() as int),
            at == n ==> words@.len() == word_count(n as nat, bits as nat),
            forall|w: int| 0 <= w < words@.len() ==> (#[trigger] words@[w]) == goal[w],
        decreases n - at,
    {
        let ghost w0 = words@.len() as int;
        let len: usize = if n - at < per {
            n - at
        } else {
            per
        };
        let mut word: u64 = 0;
        let mut scale: u64 = 1;
        let mut j: usize = 0;
        while j < len
            invariant
                j <= len <= per,
                per == per0,
                base == base0,
                base0 == 16 || base0 == 256,
                power(base0, per0) == 0x1_0000_0000,
                at + len <= n,
                n == values@.len(),
                word == word_of(values@, base0, at as int, j as nat),
                scale == power(base0, j as nat),
            decreases len - j,
        {
            proof {
                lemma_word_bound(values@, base0, at as int, j as nat);
                lemma_word_bound(values@, base0, at as int, (j + 1) as nat);
                lemma_power_grows(base0, (j + 1) as nat, per0);
                assert(power(base0, (j + 1) as nat) == base0 * power(base0, j as nat));
            }
            let v: i8 = values[at + j];
            let shifted: i16 = v as i16 + 256;
            let f: u64 = (shifted as u64) % base;
            proof {
                if base0 == 16 {
                    assert((v as int + 256) % 16 == v as int % 16);
                    assert(f == (v as int + 256) % 16);
                } else {
                    assert((v as int + 256) % 256 == v as int % 256);
                    assert(f == (v as int + 256) % 256);
                }
            }
            assert(f == field(v, base0));
            proof {
                assert(f * scale < 0x1_0000_0000) by (nonlinear_arith)
                    requires
                        f < base,
                        base * scale <= 0x1_0000_0000,
                        scale >= 1,
                ;
            }
            word = word + f * scale;
            scale = scale * base;
            j += 1;
        }
        proof {
            lemma_word_bound(values@, base0, at as int, len as nat);
            lemma_power_grows(base0, len as nat, per0);
            assert(len as nat == word_len(values@.len(), bits as nat, w0));
        }
        words.push(word as u32);
        assert(words@[w0] == goal[w0]);
        at = at + len;
    }
    let ghost body = words@;
    assert(body =~= goal);
    let mut k: usize = 0;
    assert(scales@.take(0) =~= Seq::<u32>::empty());
    while k < scales.len()
        invariant
            k <= scales@.len(),
            words@ == body + scales@.take(k as int),
        decreases scales@.len() - k,
    {
        words.push(scales[k]);
        assert(scales@.take(k + 1) =~= scales@.take(k as int).push(scales@[k as int]));
        k += 1;
    }
    assert(scales@.take(k as int) =~= scales@);
    assert(words@ =~= quantized_words(values@, scales@, bits as nat));
    words
}

/// Powers only grow.
proof fn lemma_power_grows(base: int, a: nat, b: nat)
    requires
        base >= 1,
        a <= b,
    ensures
        1 <= power(base, a) <= power(base, b),
    decreases b,
{
    if b > 0 {
        if a < b {
            lemma_power_grows(base, a, (b - 1) as nat);
            let p = power(base, (b - 1) as nat);
            assert(base * p >= p) by (nonlinear_arith)
                requires
                    base >= 1,
                    p >= 1,
            ;
        } else {
            lemma_power_grows(base, (a - 1) as nat, (b - 1) as nat);
            let p = power(base, (b - 1) as nat);
            assert(base * p >= 1) by (nonlinear_arith)
                requires
                    base >= 1,
                    p >= 1,
            ;
        }
    }
}

/// Every value can be read back from its word: the field at its place is the
/// value's low bits.
pub proof fn fields_read_back(values: Seq<i8>, base: int, at: int, n: nat, j: nat)
    requires
        base > 1,
        j < n,
    ensures
        word_of(values, base, at, n) / power(base, j) % base == field(values[at + j], base),
    decreases n,
{
    let w = word_of(values, base, at, (n - 1) as nat);
    let f = field(values[at + n - 1], base);
    let p = power(base, j);
    lemma_power_grows(base, 0, j);
    lemma_word_bound(values, base, at, (n - 1) as nat);
    if j == n - 1 {
        // w < p, so the top field is the quotient
        assert((w + f * p) / p == f) by {
            vstd::arithmetic::div_mod::lemma_fundamental_div_mod_converse(w + f * p, p, f, w);
        }
        assert(0 <= f < base);
        assert(f % base == f) by (nonlinear_arith)
            requires
                0 <= f < base,
        ;
    } else {
        fields_read_back(values, base, at, (n - 1) as nat, j);
        let high = power(base, (n - 1) as nat);
        let k = lemma_power_splits(base, (n - 1) as nat, j + 1);
        // high == k * (base * p)
        let q = w / p;
        vstd::arithmetic::div_mod::lemma_fundamental_div_mod(w, p);
        vstd::arithmetic::div_mod::lemma_mod_bound(w, p);
        let m = f * (k * base);
        assert(f * high == m * p) by (nonlinear_arith)
            requires
                high == k * (base * p),
                m == f * (k * base),
        ;
        assert((w + f * high) / p == q + m) by {
            assert(w + f * high == (q + m) * p + w % p) by (nonlinear_arith)
                requires
                    w == p * q + w % p,
                    f * high == m * p,
            ;
            vstd::arithmetic::div_mod::lemma_fundamental_div_mod_converse(
                w + f * high,
                p,
                q + m,
                w % p,
            );
        }
        assert((q + m) % base == q % base) by {
            let r = q % base;
            vstd::arithmetic::div_mod::lemma_fundamental_div_mod(q, base);
            vstd::arithmetic::div_mod::lemma_mod_bound(q, base);
            assert(q + m == (q / base + f * k) * base + r) by (nonlinear_arith)
                requires
                    q == base * (q / base) + r,
                    m == f * (k * base),
            ;
            vstd::arithmetic::div_mod::lemma_fundamental_div_mod_converse(
                q + m,
                base,
                q / base + f * k,
                r,
            );
        }
    }
}

/// A higher power is a multiple of a lower one.
proof fn lemma_power_splits(base: int, a: nat, b: nat) -> (k: int)
    requires
        b <= a,
    ensures
        power(base, a) == k * power(base, b),
    decreases a,
{
    if a == b {
        assert(power(base, a) == 1 * power(base, b));
        1
    } else {
        let k = lemma_power_splits(base, (a - 1) as nat, b);
        let p = power(base, b);
        assert(base * (k * p) == (base * k) * p) by (nonlinear_arith);
        base * k
    }
}

/// The words of a quantized tensor hold its values in order, eight or four to a
/// word from the lowest bits up, each by its low bits; the scales follow.
pub proof fn values_are_packed_in_order(
    values: Vec<i8>,
    scales: Vec<u32>,
    bits: u32,
    r: Vec<u32>,
    i: int,
    k: int,
)
    requires
        bits == 4 || bits == 8,
        call_ensures(quantized_tensor_data, (&values, &scales, bits), r),
        0 <= i < values@.len(),
    ensures
        ({
            let per: int = if bits == 4 {
                8
            } else {
                4
            };
            let base: int = if bits == 4 {
                16
            } else {
                256
            };
            let words = (values@.len() + per - 1) / per;
            &&& r@.len() == words + scales@.len()
            &&& r@[i / per] as int / power(base, (i % per) as nat) % base == values@[i] as int % base
            &&& 0 <= k < scales@.len() ==> r@[words + k] == scales@[k]
        }),
{
    let n = bits as nat;
    let base = field_base(n);
    let per = per_word(n) as int;
    let w = i / per;
    let j = i % per;
    let at = word_start(n, w);
    let len = word_len(values@.len(), n, w);
    assert(at + j == i);
    assert(j < len <= per);
    fields_read_back(values@, base, at, len, j as nat);
    lemma_word_bound(values@, base, at, len);
    lemma_power_grows(base, len, per as nat);
    reveal_with_fuel(power, 9);
    assert(power(16, 8) == 0x1_0000_0000);
    assert(power(256, 4) == 0x1_0000_0000);
    assert(r@[w] == word_of(values@, base, at, len));
}

} // verus!
