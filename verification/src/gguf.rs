//! The plain-value model of a GGUF header: metadata values, tensor
//! directory, payload shards and block geometry.
//!
//! Floating-point values are carried by their bit patterns; nothing in this
//! library does arithmetic on them.

use crate::text::{decimal, push_decimal, same_text};
use std::ops::Range;
use vstd::prelude::*;

verus! {

/// An IEEE-754 single, held by its bit pattern.
#[derive(Debug, Clone, Copy, PartialEq, Eq, Structural)]
pub struct F32Bits(pub u32);

/// The storage type of a tensor.
#[derive(Debug, Clone, Copy, PartialEq, Eq, Structural)]
pub enum GgmlType {
    F32,
    F16,
    BF16,
    Q40,
    Q41,
    Q50,
    Q51,
    Q80,
    Q2K,
    Q3K,
    Q4K,
    Q5K,
    Q6K,
    Iq4Nl,
}

impl GgmlType {
    /// Elements per block.
    pub open spec fn block(self) -> nat {
        match self {
            GgmlType::F32 | GgmlType::F16 | GgmlType::BF16 => 1,
            GgmlType::Q40 | GgmlType::Q41 | GgmlType::Q50 | GgmlType::Q51 | GgmlType::Q80
            | GgmlType::Iq4Nl => 32,
            GgmlType::Q2K | GgmlType::Q3K | GgmlType::Q4K | GgmlType::Q5K | GgmlType::Q6K => 256,
        }
    }

    /// Bytes per block.
    pub open spec fn block_bytes(self) -> nat {
        match self {
            GgmlType::F32 => 4,
            GgmlType::F16 => 2,
            GgmlType::BF16 => 2,
            GgmlType::Q40 => 18,
            GgmlType::Q41 => 20,
            GgmlType::Q50 => 22,
            GgmlType::Q51 => 24,
            GgmlType::Q80 => 34,
            GgmlType::Iq4Nl => 18,
            GgmlType::Q2K => 84,
            GgmlType::Q3K => 110,
            GgmlType::Q4K => 144,
            GgmlType::Q5K => 176,
            GgmlType::Q6K => 210,
        }
    }

    /// The variant's name.
    pub open spec fn name_text(self) -> Seq<char> {
        match self {
            GgmlType::F32 => "F32"@,
            GgmlType::F16 => "F16"@,
            GgmlType::BF16 => "BF16"@,
            GgmlType::Q40 => "Q40"@,
            GgmlType::Q41 => "Q41"@,
            GgmlType::Q50 => "Q50"@,
            GgmlType::Q51 => "Q51"@,
            GgmlType::Q80 => "Q80"@,
            GgmlType::Q2K => "Q2K"@,
            GgmlType::Q3K => "Q3K"@,
            GgmlType::Q4K => "Q4K"@,
            GgmlType::Q5K => "Q5K"@,
            GgmlType::Q6K => "Q6K"@,
            GgmlType::Iq4Nl => "Iq4Nl"@,
        }
    }

    /// Elements per block.
    pub fn block_size(self) -> (r: usize)
        ensures
            r == self.block(),
            1 <= r <= 256,
    {
        match self {
            GgmlType::F32 | GgmlType::F16 | GgmlType::BF16 => 1,
            GgmlType::Q40 | GgmlType::Q41 | GgmlType::Q50 | GgmlType::Q51 | GgmlType::Q80
            | GgmlType::Iq4Nl => 32,
            GgmlType::Q2K | GgmlType::Q3K | GgmlType::Q4K | GgmlType::Q5K | GgmlType::Q6K => 256,
        }
    }

    /// Bytes per block.
    pub fn bytes_per_block(self) -> (r: usize)
        ensures
            r == self.block_bytes(),
            2 <= r <= 210,
    {
        match self {
            GgmlType::F32 => 4,
            GgmlType::F16 => 2,
            GgmlType::BF16 => 2,
            GgmlType::Q40 => 18,
            GgmlType::Q41 => 20,
            GgmlType::Q50 => 22,
            GgmlType::Q51 => 24,
            GgmlType::Q80 => 34,
            GgmlType::Iq4Nl => 18,
            GgmlType::Q2K => 84,
            GgmlType::Q3K => 110,
            GgmlType::Q4K => 144,
            GgmlType::Q5K => 176,
            GgmlType::Q6K => 210,
        }
    }

    /// The variant's name.
    pub fn name(self) -> (r: &'static str)
        ensures
            r@ == self.name_text(),
    {
        match self {
            GgmlType::F32 => "F32",
            GgmlType::F16 => "F16",
            GgmlType::BF16 => "BF16",
            GgmlType::Q40 => "Q40",
            GgmlType::Q41 => "Q41",
            GgmlType::Q50 => "Q50",
            GgmlType::Q51 => "Q51",
            GgmlType::Q80 => "Q80",
            GgmlType::Q2K => "Q2K",
            GgmlType::Q3K => "Q3K",
            GgmlType::Q4K => "Q4K",
            GgmlType::Q5K => "Q5K",
            GgmlType::Q6K => "Q6K",
            GgmlType::Iq4Nl => "Iq4Nl",
        }
    }
}

/// One metadata value of a GGUF header.
#[derive(Debug)]
pub enum GgufValue {
    U8(u8),
    I8(i8),
    U16(u16),
    I16(i16),
    U32(u32),
    I32(i32),
    U64(u64),
    I64(i64),
    F32(F32Bits),
    F64(u64),
    Bool(bool),
    Str(String),
    Array(Vec<GgufValue>),
}

impl GgufValue {
    /// The value of an unsigned integer of any width.
    pub open spec fn unsigned(self) -> Option<u64> {
        match self {
            GgufValue::U8(v) => Some(v as u64),
            GgufValue::U16(v) => Some(v as u64),
            GgufValue::U32(v) => Some(v as u64),
            GgufValue::U64(v) => Some(v),
            _ => None,
        }
    }

    /// The value of a signed integer of any width.
    pub open spec fn signed(self) -> Option<i64> {
        match self {
            GgufValue::I8(v) => Some(v as i64),
            GgufValue::I16(v) => Some(v as i64),
            GgufValue::I32(v) => Some(v as i64),
            GgufValue::I64(v) => Some(v),
            _ => None,
        }
    }

    /// The characters of a string value.
    pub open spec fn text(self) -> Option<Seq<char>> {
        match self {
            GgufValue::Str(s) => Some(s@),
            _ => None,
        }
    }

    /// The elements of an array value.
    pub open spec fn elements(self) -> Option<Seq<GgufValue>> {
        match self {
            GgufValue::Array(v) => Some(v@),
            _ => None,
        }
    }

    /// An unsigned integer of any width.
    pub fn as_u64(&self) -> (r: Option<u64>)
        ensures
            r == self.unsigned(),
    {
        match self {
            GgufValue::U8(v) => Some(*v as u64),
            GgufValue::U16(v) => Some(*v as u64),
            GgufValue::U32(v) => Some(*v as u64),
            GgufValue::U64(v) => Some(*v),
            _ => None,
        }
    }

    /// A signed integer of any width.
    pub fn as_i64(&self) -> (r: Option<i64>)
        ensures
            r == self.signed(),
    {
        match self {
            GgufValue::I8(v) => Some(*v as i64),
            GgufValue::I16(v) => Some(*v as i64),
            GgufValue::I32(v) => Some(*v as i64),
            GgufValue::I64(v) => Some(*v),
            _ => None,
        }
    }

    /// A single-precision value, by its bit pattern.
    pub fn as_f32(&self) -> (r: Option<F32Bits>)
        ensures
            r == (match *self {
                GgufValue::F32(b) => Some(b),
                _ => None,
            }),
    {
        match self {
            GgufValue::F32(b) => Some(*b),
            _ => None,
        }
    }

    /// A boolean value.
    pub fn as_bool(&self) -> (r: Option<bool>)
        ensures
            r == (match *self {
                GgufValue::Bool(b) => Some(b),
                _ => None,
            }),
    {
        match self {
            GgufValue::Bool(b) => Some(*b),
            _ => None,
        }
    }

    /// A string value.
    pub fn as_str(&self) -> (r: Option<&str>)
        ensures
            match r {
                Some(s) => self.text() == Some(s@),
                None => self.text() is None,
            },
    {
        match self {
            GgufValue::Str(s) => Some(s.as_str()),
            _ => None,
        }
    }

    /// An array value.
    pub fn as_array(&self) -> (r: Option<&Vec<GgufValue>>)
        ensures
            match r {
                Some(v) => self.elements() == Some(v@),
                None => self.elements() is None,
            },
    {
        match self {
            GgufValue::Array(v) => Some(v),
            _ => None,
        }
    }
}

/// An integer value as `u64` whatever its stored width or signedness,
/// `None` for a negative one and for anything that is no integer.
pub open spec fn non_negative_of(v: GgufValue) -> Option<u64> {
    match v.unsigned() {
        Some(u) => Some(u),
        None => match v.signed() {
            Some(i) => if i >= 0 {
                Some(i as u64)
            } else {
                None
            },
            None => None,
        },
    }
}

/// An integer header value as `u64` whatever its stored width or signedness,
/// refusing negatives. Real headers store some of these arrays signed, and
/// converters are free to pick either for ids.
pub fn non_negative(v: &GgufValue) -> (r: Option<u64>)
    ensures
        r == non_negative_of(*v),
{
    match v.as_u64() {
        Some(u) => Some(u),
        None => match v.as_i64() {
            Some(i) => if i >= 0 {
                Some(i as u64)
            } else {
                None
            },
            None => None,
        },
    }
}

/// One entry of the tensor directory. `dims` are fastest-varying first.
#[derive(Debug, Clone)]
pub struct GgufTensorInfo {
    pub name: String,
    pub dims: Vec<u64>,
    pub dtype: GgmlType,
    /// Start of the payload, relative to the payload base of its file.
    pub offset: u64,
}

/// The product of the dimensions.
pub open spec fn dims_product(dims: Seq<u64>) -> nat
    decreases dims.len(),
{
    if dims.len() == 0 {
        1
    } else {
        dims_product(dims.drop_last()) * (dims.last() as nat)
    }
}

/// Does every leading product of the dimensions fit in 64 bits?
pub open spec fn dims_fit(dims: Seq<u64>) -> bool {
    forall|k: int| 0 <= k <= dims.len() ==> #[trigger] dims_product(dims.take(k)) <= u64::MAX
}

impl GgufTensorInfo {
    /// Bytes of the payload: whole blocks of the storage type.
    pub open spec fn payload_bytes(self) -> nat {
        dims_product(self.dims@) / self.dtype.block() * self.dtype.block_bytes()
    }

    /// Can the element count and the byte count be computed in 64 bits?
    pub open spec fn sized(self) -> bool {
        dims_fit(self.dims@) && self.payload_bytes() <= u64::MAX
    }

    /// The number of elements, when it can be computed in 64 bits.
    pub fn element_count(&self) -> (r: Option<u64>)
        ensures
            match r {
                Some(n) => dims_fit(self.dims@) && n == dims_product(self.dims@),
                None => !dims_fit(self.dims@),
            },
    {
        let mut total: u64 = 1;
        let mut i: usize = 0;
        assert(self.dims@.take(0).len() == 0);
        while i < self.dims.len()
            invariant
                i <= self.dims@.len(),
                total == dims_product(self.dims@.take(i as int)),
                forall|k: int|
                    0 <= k <= i ==> #[trigger] dims_product(self.dims@.take(k)) <= u64::MAX,
            decreases self.dims@.len() - i,
        {
            proof {
                let next = self.dims@.take(i + 1);
                assert(next.drop_last() =~= self.dims@.take(i as int));
                assert(next.last() == self.dims@[i as int]);
                assert(dims_product(next) == total as nat * (self.dims@[i as int] as nat));
            }
            match total.checked_mul(self.dims[i]) {
                Some(next) => {
                    total = next;
                },
                None => {
                    assert(dims_product(self.dims@.take(i + 1)) > u64::MAX);
                    return None;
                },
            }
            i += 1;
        }
        assert(self.dims@.take(i as int) =~= self.dims@);
        Some(total)
    }

    /// Bytes of the payload, when they can be computed in 64 bits.
    pub fn byte_len(&self) -> (r: Option<u64>)
        ensures
            match r {
                Some(n) => self.sized() && n == self.payload_bytes(),
                None => !self.sized(),
            },
    {
        match self.element_count() {
            Some(n) => {
                let blocks: u64 = n / self.dtype.block_size() as u64;
                blocks.checked_mul(self.dtype.bytes_per_block() as u64)
            },
            None => None,
        }
    }
}

/// One payload file of a split set: where its payloads start, and which run
/// of the merged tensor directory it holds.
#[derive(Debug)]
pub struct GgufShard {
    pub path: String,
    pub data_offset: u64,
    pub tensors: Range<usize>,
}

/// A parsed GGUF header. `shards` is empty for a single file.
#[derive(Debug)]
pub struct GgufFile {
    pub path: String,
    pub version: u32,
    pub metadata: Vec<(String, GgufValue)>,
    pub tensors: Vec<GgufTensorInfo>,
    pub alignment: u64,
    pub data_offset: u64,
    pub shards: Vec<GgufShard>,
}

/// The first value stored under `key`, from entry `from` on.
pub open spec fn lookup_from(
    metadata: Seq<(String, GgufValue)>,
    key: Seq<char>,
    from: int,
) -> Option<GgufValue>
    decreases metadata.len() - from,
{
    if from < 0 || from >= metadata.len() {
        None
    } else if metadata[from].0@ == key {
        Some(metadata[from].1)
    } else {
        lookup_from(metadata, key, from + 1)
    }
}

/// The first tensor named `name`, from entry `from` on.
pub open spec fn tensor_from(
    tensors: Seq<GgufTensorInfo>,
    name: Seq<char>,
    from: int,
) -> Option<int>
    decreases tensors.len() - from,
{
    if from < 0 || from >= tensors.len() {
        None
    } else if tensors[from].name@ == name {
        Some(from)
    } else {
        tensor_from(tensors, name, from + 1)
    }
}

/// A tensor search answers an index that holds the name.
pub proof fn tensor_from_is_a_hit(tensors: Seq<GgufTensorInfo>, name: Seq<char>, from: int)
    requires
        tensor_from(tensors, name, from) is Some,
    ensures
        from <= tensor_from(tensors, name, from)->0 < tensors.len(),
        0 <= tensor_from(tensors, name, from)->0,
        tensors[tensor_from(tensors, name, from)->0].name@ == name,
    decreases tensors.len() - from,
{
    if 0 <= from < tensors.len() && tensors[from].name@ != name {
        tensor_from_is_a_hit(tensors, name, from + 1);
    }
}

impl GgufFile {
    /// The metadata value under `key`.
    pub open spec fn value(self, key: Seq<char>) -> Option<GgufValue> {
        lookup_from(self.metadata@, key, 0)
    }

    /// The index of the tensor named `name`.
    pub open spec fn index_of(self, name: Seq<char>) -> Option<int> {
        tensor_from(self.tensors@, name, 0)
    }

    /// The architecture string.
    pub open spec fn arch(self) -> Option<Seq<char>> {
        match self.value("general.architecture"@) {
            Some(v) => v.text(),
            None => None,
        }
    }

    /// The value stored under `key`.
    pub fn get(&self, key: &str) -> (r: Option<&GgufValue>)
        ensures
            match r {
                Some(v) => self.value(key@) == Some(*v),
                None => self.value(key@) is None,
            },
    {
        let mut i: usize = 0;
        while i < self.metadata.len()
            invariant
                i <= self.metadata@.len(),
                lookup_from(self.metadata@, key@, i as int) == self.value(key@),
            decreases self.metadata@.len() - i,
        {
            if same_text(self.metadata[i].0.as_str(), key) {
                return Some(&self.metadata[i].1);
            }
            i += 1;
        }
        None
    }

    /// The architecture the header declares.
    pub fn architecture(&self) -> (r: Option<&str>)
        ensures
            match r {
                Some(s) => self.arch() == Some(s@),
                None => self.arch() is None,
            },
    {
        match self.get("general.architecture") {
            Some(v) => v.as_str(),
            None => None,
        }
    }

    /// The index of the tensor named `name`.
    pub fn tensor_index(&self, name: &str) -> (r: Option<usize>)
        ensures
            match r {
                Some(i) => self.index_of(name@) == Some(i as int) && i < self.tensors@.len()
                    && self.tensors@[i as int].name@ == name@,
                None => self.index_of(name@) is None,
            },
    {
        let mut i: usize = 0;
        while i < self.tensors.len()
            invariant
                i <= self.tensors@.len(),
                tensor_from(self.tensors@, name@, i as int) == self.index_of(name@),
            decreases self.tensors@.len() - i,
        {
            if same_text(self.tensors[i].name.as_str(), name) {
                return Some(i);
            }
            i += 1;
        }
        None
    }

    /// The tensor named `name`.
    pub fn tensor(&self, name: &str) -> (r: Option<&GgufTensorInfo>)
        ensures
            match r {
                Some(t) => self.index_of(name@) is Some && *t == self.tensors@[self.index_of(
                    name@,
                )->0],
                None => self.index_of(name@) is None,
            },
    {
        match self.tensor_index(name) {
            Some(i) => Some(&self.tensors[i]),
            None => None,
        }
    }
}

/// The outcome of a fallible read, with the failure as plain text.
pub open spec fn outcome<T>(r: Result<T, String>) -> Result<T, Seq<char>> {
    match r {
        Ok(v) => Ok(v),
        Err(e) => Err(e@),
    }
}

/// The outcome of a fallible list read.
pub open spec fn list_outcome<T>(r: Result<Vec<T>, String>) -> Result<Seq<T>, Seq<char>> {
    match r {
        Ok(v) => Ok(v@),
        Err(e) => Err(e@),
    }
}

/// Upper bound on the header arrays that are read whole: it only stops a
/// corrupt header from driving an unbounded allocation.
pub const MAX_HEADER_ARRAY: usize = 1024;

/// The message of a missing key.
pub open spec fn missing_text(key: Seq<char>) -> Seq<char> {
    "GGUF metadata missing "@ + key
}

/// The message of a missing key.
pub fn missing(key: &str) -> (r: String)
    ensures
        r@ == missing_text(key@),
{
    let mut m: String = String::new();
    m.append("GGUF metadata missing ");
    m.append(key);
    m
}

/// Is every element a non-negative integer?
pub open spec fn all_uints(vals: Seq<GgufValue>) -> bool {
    forall|i: int| 0 <= i < vals.len() ==> (#[trigger] non_negative_of(vals[i])) is Some
}

/// The elements as integers.
pub open spec fn uints_of(vals: Seq<GgufValue>) -> Seq<u64> {
    Seq::new(vals.len(), |i: int| non_negative_of(vals[i])->0)
}

/// What reading the header array `key` gives: its elements as non-negative
/// integers, or why that fails. `complaint` ends the message for an element
/// that is no such integer.
pub open spec fn uint_array(
    f: GgufFile,
    key: Seq<char>,
    complaint: Seq<char>,
) -> Result<Seq<u64>, Seq<char>> {
    let vals = match f.value(key) {
        Some(v) => v.elements(),
        None => None,
    };
    match vals {
        None => Err("GGUF metadata missing array "@ + key),
        Some(vals) => if vals.len() > MAX_HEADER_ARRAY {
            Err(key + " has "@ + decimal(vals.len()) + " entries, past the 1024 bound"@)
        } else if all_uints(vals) {
            Ok(uints_of(vals))
        } else {
            Err(key + complaint)
        },
    }
}

/// Read the header array `key` as non-negative integers.
pub fn read_uint_array(f: &GgufFile, key: &str, complaint: &str) -> (r: Result<Vec<u64>, String>)
    ensures
        list_outcome(r) == uint_array(*f, key@, complaint@),
{
    let found: Option<&Vec<GgufValue>> = match f.get(key) {
        Some(v) => v.as_array(),
        None => None,
    };
    match found {
        None => {
            let mut m: String = String::new();
            m.append("GGUF metadata missing array ");
            m.append(key);
            Err(m)
        },
        Some(vals) => {
            if vals.len() > MAX_HEADER_ARRAY {
                let mut m: String = key.to_owned();
                m.append(" has ");
                push_decimal(&mut m, vals.len() as u64);
                m.append(" entries, past the 1024 bound");
                return Err(m);
            }
            let mut out: Vec<u64> = Vec::new();
            let mut i: usize = 0;
            while i < vals.len()
                invariant
                    i <= vals@.len(),
                    vals@.len() <= MAX_HEADER_ARRAY,
                    f.value(key@) is Some,
                    f.value(key@)->0.elements() == Some(vals@),
                    out@.len() == i,
                    forall|k: int|
                        0 <= k < i ==> (#[trigger] non_negative_of(vals@[k])) == Some(out@[k]),
                decreases vals@.len() - i,
            {
                match non_negative(&vals[i]) {
                    Some(v) => {
                        out.push(v);
                    },
                    None => {
                        assert(non_negative_of(vals@[i as int]) is None);
                        let mut m: String = key.to_owned();
                        m.append(complaint);
                        return Err(m);
                    },
                }
                i += 1;
            }
            assert(out@ =~= uints_of(vals@));
            Ok(out)
        },
    }
}

} // verus!
