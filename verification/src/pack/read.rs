//! Reading: which level of a tensor serves a request, what its bytes mean,
//! and which of its rows or columns are sliced out.

use crate::pack::import::{level_bytes, scale_bytes, value_bytes};
use crate::pack::{
    count, numel, shape_fits, unpack_nibbles, unpacked, Blob, Manifest, Precision, TensorEntry,
    BLOCK, PACK_VERSION,
};
use crate::text::{decimal, list_text, push_decimal, push_list, same_text};
use vstd::arithmetic::mul::lemma_mul_inequality;
use vstd::prelude::*;

verus! {

/// The place of the tensor of a name, from `from` on.
pub open spec fn entry_from(tensors: Seq<TensorEntry>, name: Seq<char>, from: int) -> Option<int>
    decreases tensors.len() - from,
{
    if from < 0 || from >= tensors.len() {
        None
    } else if tensors[from].name@ == name {
        Some(from)
    } else {
        entry_from(tensors, name, from + 1)
    }
}

impl Manifest {
    /// Is the manifest of the supported version?
    pub fn check_version(&self) -> (r: Result<(), String>)
        ensures
            match r {
                Ok(_) => self.version == PACK_VERSION,
                Err(e) => self.version != PACK_VERSION && e@ == "pack version "@ + decimal(
                    self.version as nat,
                ) + " is not the supported "@ + decimal(PACK_VERSION as nat),
            },
    {
        if self.version != PACK_VERSION {
            let mut m: String = String::new();
            m.append("pack version ");
            push_decimal(&mut m, self.version as u64);
            m.append(" is not the supported ");
            push_decimal(&mut m, PACK_VERSION as u64);
            return Err(m);
        }
        Ok(())
    }

    /// The first tensor of a name.
    pub fn entry(&self, name: &str) -> (r: Option<&TensorEntry>)
        ensures
            match r {
                Some(e) => entry_from(self.tensors@, name@, 0) is Some && *e
                    == self.tensors@[entry_from(self.tensors@, name@, 0)->0],
                None => entry_from(self.tensors@, name@, 0) is None,
            },
    {
        let mut i: usize = 0;
        while i < self.tensors.len()
            invariant
                i <= self.tensors@.len(),
                entry_from(self.tensors@, name@, 0) == entry_from(self.tensors@, name@, i as int),
            decreases self.tensors@.len() - i,
        {
            if same_text(self.tensors[i].name.as_str(), name) {
                return Some(&self.tensors[i]);
            }
            i += 1;
        }
        None
    }
}

/// What a tensor's float values are read from.
#[derive(Debug, Clone, Copy, PartialEq, Eq, Structural)]
pub struct FloatSource {
    pub level: Precision,
    pub blob: Blob,
}

/// The best stored level: single precision, else half widened, else a
/// quantized level dequantized.
pub open spec fn best_level(e: TensorEntry) -> Option<Precision> {
    if e.blob(Precision::F32) is Some {
        Some(Precision::F32)
    } else if e.blob(Precision::F16) is Some {
        Some(Precision::F16)
    } else if e.blob(Precision::Q8) is Some {
        Some(Precision::Q8)
    } else if e.blob(Precision::Q4) is Some {
        Some(Precision::Q4)
    } else {
        None
    }
}

/// The level float values are read from when `prefer` is asked for: half
/// precision when it is asked for and stored, else the best stored level.
pub open spec fn float_level(e: TensorEntry, prefer: Precision) -> Option<Precision> {
    if prefer == Precision::F16 && e.blob(Precision::F16) is Some {
        Some(Precision::F16)
    } else {
        best_level(e)
    }
}

/// Where float values are read from when `prefer` is asked for.
pub fn read_floats(entry: &TensorEntry, prefer: Precision) -> (r: Result<FloatSource, String>)
    ensures
        match r {
            Ok(s) => float_level(*entry, prefer) == Some(s.level) && entry.blob(s.level) == Some(
                s.blob,
            ),
            Err(e) => float_level(*entry, prefer) is None && e@ == "'"@ + entry.name@
                + "' has no stored precision"@,
        },
{
    if prefer == Precision::F16 {
        match entry.get(Precision::F16) {
            Some(blob) => {
                return Ok(FloatSource { level: Precision::F16, blob });
            },
            None => {},
        }
    }
    read_f32(entry)
}

/// Where a tensor's best float values are read from.
pub fn read_f32(entry: &TensorEntry) -> (r: Result<FloatSource, String>)
    ensures
        match r {
            Ok(s) => best_level(*entry) == Some(s.level) && entry.blob(s.level) == Some(s.blob),
            Err(e) => best_level(*entry) is None && e@ == "'"@ + entry.name@
                + "' has no stored precision"@,
        },
{
    match entry.get(Precision::F32) {
        Some(blob) => {
            return Ok(FloatSource { level: Precision::F32, blob });
        },
        None => {},
    }
    match entry.get(Precision::F16) {
        Some(blob) => {
            return Ok(FloatSource { level: Precision::F16, blob });
        },
        None => {},
    }
    match entry.get(Precision::Q8) {
        Some(blob) => {
            return Ok(FloatSource { level: Precision::Q8, blob });
        },
        None => {},
    }
    match entry.get(Precision::Q4) {
        Some(blob) => {
            return Ok(FloatSource { level: Precision::Q4, blob });
        },
        None => {},
    }
    let mut m: String = String::new();
    m.append("'");
    m.append(entry.name.as_str());
    m.append("' has no stored precision");
    Err(m)
}

/// Where a level of a tensor lies.
pub fn level_blob(entry: &TensorEntry, precision: Precision) -> (r: Result<Blob, String>)
    ensures
        match r {
            Ok(b) => entry.blob(precision) == Some(b),
            Err(e) => entry.blob(precision) is None && e@ == "'"@ + entry.name@ + "' has no "@
                + precision.label() + " level"@,
        },
{
    match entry.get(precision) {
        Some(b) => Ok(b),
        None => {
            let mut m: String = String::new();
            m.append("'");
            m.append(entry.name.as_str());
            m.append("' has no ");
            m.append(precision.name());
            m.append(" level");
            Err(m)
        },
    }
}

/// A byte as a signed value.
pub open spec fn signed_byte(b: u8) -> int {
    if b >= 128 {
        b - 256
    } else {
        b as int
    }
}

/// The little-endian 32-bit word at `at`.
pub open spec fn word_at(bytes: Seq<u8>, at: int) -> int {
    bytes[at] + 256 * (bytes[at + 1] as int) + 65536 * (bytes[at + 2] as int) + 16777216 * (
    bytes[at + 3] as int)
}

/// The little-endian 32-bit words of a run of bytes; an incomplete last word
/// is dropped.
pub open spec fn words_of(bytes: Seq<u8>) -> Seq<u32> {
    Seq::new(bytes.len() / 4, |i: int| word_at(bytes, 4 * i) as u32)
}

/// The little-endian 32-bit words of a run of bytes.
pub fn le_words(bytes: &Vec<u8>) -> (r: Vec<u32>)
    ensures
        r@ == words_of(bytes@),
{
    let n: usize = bytes.len() / 4;
    let mut out: Vec<u32> = Vec::new();
    let mut i: usize = 0;
    while i < n
        invariant
            n == bytes@.len() / 4,
            i <= n,
            out@.len() == i,
            forall|k: int| 0 <= k < i ==> (#[trigger] out@[k]) == words_of(bytes@)[k],
        decreases n - i,
    {
        assert(4 * i + 3 < bytes.len());
        let a: u32 = bytes[4 * i] as u32;
        let b: u32 = bytes[4 * i + 1] as u32;
        let c: u32 = bytes[4 * i + 2] as u32;
        let d: u32 = bytes[4 * i + 3] as u32;
        out.push(a + 256 * b + 65536 * c + 16777216 * d);
        i += 1;
    }
    assert(out@ =~= words_of(bytes@));
    out
}

/// The signed values that the bytes of a level stand for.
pub open spec fn level_values(p: Precision, bytes: Seq<u8>, n: nat) -> Seq<i8> {
    if p == Precision::Q4 {
        unpacked(bytes, n)
    } else {
        Seq::new(bytes.len(), |i: int| signed_byte(bytes[i]) as i8)
    }
}

/// The `(values, block scales)` of a quantized level, of the bytes read for
/// it; scales by bit pattern.
pub fn read_quant(
    entry: &TensorEntry,
    precision: Precision,
    value_bytes_read: &Vec<u8>,
    scale_bytes_read: &Vec<u8>,
) -> (r: Result<(Vec<i8>, Vec<u32>), String>)
    requires
        shape_fits(entry.shape@),
    ensures
        ({
            let n = numel(entry.shape@);
            let values = level_values(precision, value_bytes_read@, n);
            let scales = words_of(scale_bytes_read@);
            match r {
                Ok(p) => {
                    &&& precision.quantized()
                    &&& p.0@ == values
                    &&& p.1@ == scales
                    &&& values.len() == n
                    &&& scales.len() == n / 32
                },
                Err(e) => if !precision.quantized() {
                    e@ == precision.label() + " is not a quantized level"@
                } else {
                    &&& values.len() != n || scales.len() != n / 32
                    &&& e@ == "'"@ + entry.name@ + "' "@ + precision.label()
                        + " blob size mismatch"@
                },
            }
        }),
{
    let n: usize = count(&entry.shape);
    let values: Vec<i8> = match precision {
        Precision::Q4 => unpack_nibbles(value_bytes_read, n),
        Precision::Q8 => {
            let mut v: Vec<i8> = Vec::new();
            let mut i: usize = 0;
            while i < value_bytes_read.len()
                invariant
                    i <= value_bytes_read@.len(),
                    v@.len() == i,
                    forall|k: int|
                        0 <= k < i ==> (#[trigger] v@[k]) == signed_byte(
                            value_bytes_read@[k],
                        ) as i8,
                decreases value_bytes_read@.len() - i,
            {
                let b: i16 = value_bytes_read[i] as i16;
                let s: i8 = (if b >= 128 {
                    b - 256
                } else {
                    b
                }) as i8;
                v.push(s);
                i += 1;
            }
            assert(v@ =~= level_values(precision, value_bytes_read@, n as nat));
            v
        },
        Precision::F16 | Precision::F32 => {
            let mut m: String = precision.name().to_owned();
            m.append(" is not a quantized level");
            return Err(m);
        },
    };
    let scales: Vec<u32> = le_words(scale_bytes_read);
    if values.len() != n || scales.len() != n / BLOCK {
        let mut m: String = String::new();
        m.append("'");
        m.append(entry.name.as_str());
        m.append("' ");
        m.append(precision.name());
        m.append(" blob size mismatch");
        return Err(m);
    }
    Ok((values, scales))
}

/// Is a tensor of the rank asked for?
pub fn check_rank(entry: &TensorEntry, rank: usize) -> (r: Result<(), String>)
    ensures
        match r {
            Ok(_) => entry.shape@.len() == rank,
            Err(e) => entry.shape@.len() != rank && e@ == "'"@ + entry.name@ + "' is rank "@
                + decimal(entry.shape@.len()) + ", asked for "@ + decimal(rank as nat),
        },
{
    if entry.shape.len() != rank {
        let mut m: String = String::new();
        m.append("'");
        m.append(entry.name.as_str());
        m.append("' is rank ");
        push_decimal(&mut m, entry.shape.len() as u64);
        m.append(", asked for ");
        push_decimal(&mut m, rank as u64);
        return Err(m);
    }
    Ok(())
}

/// The total length of the first `k` ranges.
pub open spec fn width_upto(ranges: Seq<(usize, usize)>, k: nat) -> nat
    decreases k,
{
    if k == 0 {
        0
    } else {
        width_upto(ranges, (k - 1) as nat) + ranges[k - 1].1 as nat
    }
}

/// Lengths only grow with the ranges counted.
proof fn lemma_width_grows(ranges: Seq<(usize, usize)>, i: nat, k: nat)
    requires
        i <= k,
    ensures
        width_upto(ranges, i) <= width_upto(ranges, k),
    decreases k,
{
    if i < k {
        lemma_width_grows(ranges, i, (k - 1) as nat);
    }
}

/// Does every range start and end on a block boundary?
pub open spec fn aligned(ranges: Seq<(usize, usize)>) -> bool {
    forall|i: int|
        0 <= i < ranges.len() ==> (#[trigger] ranges[i]).0 % 32 == 0 && ranges[i].1 % 32 == 0
}

/// `(rows, columns, total length of the ranges)` of a slice of a matrix. A
/// quantized level is sliced by whole blocks, so column ranges must be
/// aligned to them.
pub fn check_cols(entry: &TensorEntry, precision: Precision, ranges: &Vec<(usize, usize)>) -> (r:
    Result<(usize, usize, usize), String>)
    requires
        width_upto(ranges@, ranges@.len()) <= usize::MAX,
    ensures
        match r {
            Ok(s) => {
                &&& entry.shape@.len() == 2
                &&& s.0 == entry.shape@[0]
                &&& s.1 == entry.shape@[1]
                &&& s.2 == width_upto(ranges@, ranges@.len())
                &&& precision.quantized() ==> aligned(ranges@)
            },
            Err(e) => if entry.shape@.len() != 2 {
                e@ == "'"@ + entry.name@ + "' is not 2-D"@
            } else {
                &&& precision.quantized() && !aligned(ranges@)
                &&& e@ == "column ranges must be block-aligned for quantized levels"@
            },
        },
{
    if entry.shape.len() != 2 {
        return Err(not_a_matrix(entry));
    }
    let quantized: bool = match precision {
        Precision::Q4 | Precision::Q8 => true,
        _ => false,
    };
    let mut width: usize = 0;
    let mut whole: bool = true;
    let mut i: usize = 0;
    while i < ranges.len()
        invariant
            i <= ranges@.len(),
            width_upto(ranges@, ranges@.len()) <= usize::MAX,
            width == width_upto(ranges@, i as nat),
            whole == (forall|k: int|
                0 <= k < i ==> (#[trigger] ranges@[k]).0 % 32 == 0 && ranges@[k].1 % 32 == 0),
        decreases ranges@.len() - i,
    {
        proof {
            lemma_width_grows(ranges@, (i + 1) as nat, ranges@.len());
        }
        let range: (usize, usize) = ranges[i];
        if range.0 % BLOCK != 0 || range.1 % BLOCK != 0 {
            whole = false;
        }
        width = width + range.1;
        i += 1;
    }
    if quantized && !whole {
        return Err("column ranges must be block-aligned for quantized levels".to_owned());
    }
    Ok((entry.shape[0], entry.shape[1], width))
}

/// `(columns, total length of the ranges)` of a slice of rows.
pub fn check_rows(entry: &TensorEntry, ranges: &Vec<(usize, usize)>) -> (r: Result<
    (usize, usize),
    String,
>)
    requires
        width_upto(ranges@, ranges@.len()) <= usize::MAX,
    ensures
        match r {
            Ok(s) => {
                &&& entry.shape@.len() == 2
                &&& s.0 == entry.shape@[1]
                &&& s.1 == width_upto(ranges@, ranges@.len())
            },
            Err(e) => entry.shape@.len() != 2 && e@ == "'"@ + entry.name@ + "' is not 2-D"@,
        },
{
    if entry.shape.len() != 2 {
        return Err(not_a_matrix(entry));
    }
    let mut height: usize = 0;
    let mut i: usize = 0;
    while i < ranges.len()
        invariant
            i <= ranges@.len(),
            width_upto(ranges@, ranges@.len()) <= usize::MAX,
            height == width_upto(ranges@, i as nat),
        decreases ranges@.len() - i,
    {
        proof {
            lemma_width_grows(ranges@, (i + 1) as nat, ranges@.len());
        }
        height = height + ranges[i].1;
        i += 1;
    }
    Ok((entry.shape[1], height))
}

/// "'..' is not 2-D".
fn not_a_matrix(entry: &TensorEntry) -> (r: String)
    ensures
        r@ == "'"@ + entry.name@ + "' is not 2-D"@,
{
    let mut m: String = String::new();
    m.append("'");
    m.append(entry.name.as_str());
    m.append("' is not 2-D");
    m
}

/// The first `k` ranges of the run that starts at `base`, one after another.
pub open spec fn ranges_of<T>(v: Seq<T>, base: int, ranges: Seq<(usize, usize)>, k: nat) -> Seq<T>
    decreases k,
{
    if k == 0 {
        Seq::empty()
    } else {
        let range = ranges[k - 1];
        ranges_of(v, base, ranges, (k - 1) as nat) + v.subrange(
            base + range.0,
            base + range.0 + range.1,
        )
    }
}

/// The column ranges of the first `r` rows of a matrix `cols` wide.
pub open spec fn columns_of<T>(
    v: Seq<T>,
    cols: int,
    ranges: Seq<(usize, usize)>,
    r: nat,
) -> Seq<T>
    decreases r,
{
    if r == 0 {
        Seq::empty()
    } else {
        columns_of(v, cols, ranges, (r - 1) as nat) + ranges_of(
            v,
            (r - 1) * cols,
            ranges,
            ranges.len(),
        )
    }
}

/// Do all ranges lie within `len`?
pub open spec fn within(ranges: Seq<(usize, usize)>, len: int) -> bool {
    forall|i: int| 0 <= i < ranges.len() ==> (#[trigger] ranges[i]).0 + ranges[i].1 <= len
}

/// The columns `ranges` of a row-major matrix, one after another in each row.
pub fn slice_cols<T: Copy>(v: &Vec<T>, rows: usize, cols: usize, ranges: &Vec<(usize, usize)>) -> (r:
    Vec<T>)
    requires
        v@.len() == rows * cols,
        within(ranges@, cols as int),
    ensures
        r@ == columns_of(v@, cols as int, ranges@, rows as nat),
{
    let mut out: Vec<T> = Vec::new();
    let mut r: usize = 0;
    while r < rows
        invariant
            r <= rows,
            v@.len() == rows * cols,
            within(ranges@, cols as int),
            out@ == columns_of(v@, cols as int, ranges@, r as nat),
        decreases rows - r,
    {
        proof {
            lemma_mul_inequality(r + 1, rows as int, cols as int);
            assert((r + 1) * cols == r * cols + cols) by (nonlinear_arith);
            assert(0 <= r * cols) by (nonlinear_arith);
            assert(v.len() == v@.len());
        }
        let base: usize = r * cols;
        let ghost before = out@;
        let mut k: usize = 0;
        assert(before + ranges_of(v@, base as int, ranges@, 0) =~= before);
        while k < ranges.len()
            invariant
                k <= ranges@.len(),
                within(ranges@, cols as int),
                base + cols <= v@.len(),
                v@.len() <= usize::MAX,
                out@ == before + ranges_of(v@, base as int, ranges@, k as nat),
            decreases ranges@.len() - k,
        {
            let range: (usize, usize) = ranges[k];
            assert(ranges@[k as int].0 + ranges@[k as int].1 <= cols);
            let start: usize = base + range.0;
            let end: usize = start + range.1;
            let ghost held = out@;
            let mut i: usize = start;
            while i < end
                invariant
                    start <= i <= end <= v@.len(),
                    out@ == held + v@.subrange(start as int, i as int),
                decreases end - i,
            {
                out.push(v[i]);
                assert(v@.subrange(start as int, i + 1) =~= v@.subrange(
                    start as int,
                    i as int,
                ).push(v@[i as int]));
                i += 1;
            }
            proof {
                let a = ranges_of(v@, base as int, ranges@, k as nat);
                let b = v@.subrange(start as int, end as int);
                assert((before + a) + b =~= before + (a + b));
            }
            k += 1;
        }
        r += 1;
    }
    out
}

/// The row ranges of a matrix `cols` wide, one after another.
pub open spec fn rows_of<T>(v: Seq<T>, cols: int, ranges: Seq<(usize, usize)>, k: nat) -> Seq<T>
    decreases k,
{
    if k == 0 {
        Seq::empty()
    } else {
        let range = ranges[k - 1];
        rows_of(v, cols, ranges, (k - 1) as nat) + v.subrange(
            range.0 * cols,
            (range.0 + range.1) * cols,
        )
    }
}

/// The rows `ranges` of a row-major matrix, one after another.
pub fn slice_rows<T: Copy>(v: &Vec<T>, rows: usize, cols: usize, ranges: &Vec<(usize, usize)>) -> (r:
    Vec<T>)
    requires
        v@.len() == rows * cols,
        within(ranges@, rows as int),
    ensures
        r@ == rows_of(v@, cols as int, ranges@, ranges@.len()),
{
    let mut out: Vec<T> = Vec::new();
    let mut k: usize = 0;
    while k < ranges.len()
        invariant
            k <= ranges@.len(),
            v@.len() == rows * cols,
            within(ranges@, rows as int),
            out@ == rows_of(v@, cols as int, ranges@, k as nat),
        decreases ranges@.len() - k,
    {
        let range: (usize, usize) = ranges[k];
        proof {
            assert(ranges@[k as int].0 + ranges@[k as int].1 <= rows);
            lemma_mul_inequality(range.0 + range.1, rows as int, cols as int);
            lemma_mul_inequality(range.0 as int, range.0 + range.1, cols as int);
            assert(0 <= range.0 * cols) by (nonlinear_arith);
            assert(v.len() == v@.len());
        }
        let start: usize = range.0 * cols;
        let end: usize = (range.0 + range.1) * cols;
        let ghost held = out@;
        let mut i: usize = start;
        while i < end
            invariant
                start <= i <= end <= v@.len(),
                out@ == held + v@.subrange(start as int, i as int),
            decreases end - i,
        {
            out.push(v[i]);
            assert(v@.subrange(start as int, i + 1) =~= v@.subrange(start as int, i as int).push(
                v@[i as int],
            ));
            i += 1;
        }
        k += 1;
    }
    out
}

/// The ranges in blocks.
pub open spec fn in_blocks(ranges: Seq<(usize, usize)>) -> Seq<(usize, usize)> {
    ranges.map(|i: int, r: (usize, usize)| ((r.0 / 32) as usize, (r.1 / 32) as usize))
}

/// The columns `ranges` of a quantized matrix, with the scales of their
/// blocks, straight from what is stored.
pub fn tensor_cols(
    values: &Vec<i8>,
    scales: &Vec<u32>,
    rows: usize,
    cols: usize,
    ranges: &Vec<(usize, usize)>,
) -> (r: (Vec<i8>, Vec<u32>))
    requires
        values@.len() == rows * cols,
        scales@.len() == rows * (cols / 32),
        cols % 32 == 0,
        aligned(ranges@),
        within(ranges@, cols as int),
    ensures
        r.0@ == columns_of(values@, cols as int, ranges@, rows as nat),
        r.1@ == columns_of(scales@, cols as int / 32, in_blocks(ranges@), rows as nat),
{
    let mut blocks: Vec<(usize, usize)> = Vec::new();
    let mut i: usize = 0;
    while i < ranges.len()
        invariant
            i <= ranges@.len(),
            blocks@ == in_blocks(ranges@).take(i as int),
        decreases ranges@.len() - i,
    {
        let range: (usize, usize) = ranges[i];
        blocks.push((range.0 / BLOCK, range.1 / BLOCK));
        assert(in_blocks(ranges@).take(i + 1) =~= in_blocks(ranges@).take(i as int).push(
            in_blocks(ranges@)[i as int],
        ));
        i += 1;
    }
    assert(in_blocks(ranges@).take(i as int) =~= in_blocks(ranges@));
    proof {
        assert forall|k: int| 0 <= k < blocks@.len() implies (#[trigger] blocks@[k]).0
            + blocks@[k].1 <= cols / 32 by {
            assert(ranges@[k].0 + ranges@[k].1 <= cols);
            assert(ranges@[k].0 % 32 == 0 && ranges@[k].1 % 32 == 0);
        }
    }
    let v: Vec<i8> = slice_cols(values, rows, cols, ranges);
    let s: Vec<u32> = slice_cols(scales, rows, cols / BLOCK, &blocks);
    (v, s)
}

/// The rows `ranges` of a quantized matrix, with the scales of their blocks.
pub fn tensor_rows(
    values: &Vec<i8>,
    scales: &Vec<u32>,
    rows: usize,
    cols: usize,
    ranges: &Vec<(usize, usize)>,
) -> (r: (Vec<i8>, Vec<u32>))
    requires
        values@.len() == rows * cols,
        scales@.len() == rows * (cols / 32),
        within(ranges@, rows as int),
    ensures
        r.0@ == rows_of(values@, cols as int, ranges@, ranges@.len()),
        r.1@ == rows_of(scales@, cols as int / 32, ranges@, ranges@.len()),
{
    let v: Vec<i8> = slice_rows(values, rows, cols, ranges);
    let s: Vec<u32> = slice_rows(scales, rows, cols / BLOCK, ranges);
    (v, s)
}

/// The column that lands at place `x` of a row of the slice.
pub open spec fn source_column(ranges: Seq<(usize, usize)>, k: nat, x: int) -> int
    decreases k,
{
    if k == 0 {
        0
    } else {
        let before = width_upto(ranges, (k - 1) as nat);
        if x >= before {
            ranges[k - 1].0 + (x - before)
        } else {
            source_column(ranges, (k - 1) as nat, x)
        }
    }
}

/// A row of the slice reads the source columns.
proof fn lemma_ranges_of<T>(v: Seq<T>, base: int, ranges: Seq<(usize, usize)>, k: nat, len: int)
    requires
        k <= ranges.len(),
        within(ranges, len),
        0 <= base,
        base + len <= v.len(),
    ensures
        ranges_of(v, base, ranges, k).len() == width_upto(ranges, k),
        forall|x: int|
            0 <= x < width_upto(ranges, k) ==> #[trigger] ranges_of(v, base, ranges, k)[x]
                == v[base + source_column(ranges, k, x)],
        forall|x: int|
            0 <= x < width_upto(ranges, k) ==> 0 <= #[trigger] source_column(ranges, k, x) < len,
    decreases k,
{
    if k > 0 {
        lemma_ranges_of(v, base, ranges, (k - 1) as nat, len);
        assert(ranges[k - 1].0 + ranges[k - 1].1 <= len);
        let before = width_upto(ranges, (k - 1) as nat);
        assert forall|x: int| 0 <= x < width_upto(ranges, k) implies 0 <= #[trigger] source_column(
            ranges,
            k,
            x,
        ) < len by {
            if x < before {
                assert(0 <= source_column(ranges, (k - 1) as nat, x) < len);
            }
        }
    }
}

/// Each row of the slice stands at its place.
proof fn lemma_columns_of<T>(
    v: Seq<T>,
    cols: int,
    ranges: Seq<(usize, usize)>,
    rows: nat,
    r: int,
    x: int,
)
    requires
        within(ranges, cols),
        0 <= cols,
        v.len() >= rows * cols,
        0 <= r < rows,
        0 <= x < width_upto(ranges, ranges.len()),
    ensures
        columns_of(v, cols, ranges, rows).len() == rows * width_upto(ranges, ranges.len()),
        columns_of(v, cols, ranges, rows)[r * width_upto(ranges, ranges.len()) + x] == v[r * cols
            + source_column(ranges, ranges.len(), x)],
    decreases rows,
{
    let w = width_upto(ranges, ranges.len()) as int;
    let m = (rows - 1) as nat;
    assert(rows * cols == m * cols + cols) by (nonlinear_arith)
        requires
            rows == m + 1,
    ;
    assert(0 <= m * cols) by (nonlinear_arith)
        requires
            0 <= cols,
    ;
    lemma_ranges_of(v, m * cols, ranges, ranges.len(), cols);
    lemma_columns_len(v, cols, ranges, m);
    assert(rows * w == m * w + w) by (nonlinear_arith)
        requires
            rows == m + 1,
    ;
    if r == m {
        assert(columns_of(v, cols, ranges, rows)[m * w + x] == ranges_of(
            v,
            m * cols,
            ranges,
            ranges.len(),
        )[x]);
    } else {
        lemma_columns_of(v, cols, ranges, m, r, x);
        lemma_mul_inequality(r + 1, m as int, w);
        assert((r + 1) * w == r * w + w) by (nonlinear_arith);
        assert(0 <= r * w) by (nonlinear_arith)
            requires
                0 <= r,
                0 <= w,
        ;
        assert(columns_of(v, cols, ranges, rows)[r * w + x] == columns_of(v, cols, ranges, m)[r * w
            + x]);
    }
}

/// The size of a slice.
proof fn lemma_columns_len<T>(v: Seq<T>, cols: int, ranges: Seq<(usize, usize)>, rows: nat)
    requires
        within(ranges, cols),
        0 <= cols,
        v.len() >= rows * cols,
    ensures
        columns_of(v, cols, ranges, rows).len() == rows * width_upto(ranges, ranges.len()),
    decreases rows,
{
    let w = width_upto(ranges, ranges.len()) as int;
    if rows == 0 {
        assert(0 * w == 0) by (nonlinear_arith);
    } else {
        let m = (rows - 1) as nat;
        assert(rows * cols == m * cols + cols) by (nonlinear_arith)
            requires
                rows == m + 1,
        ;
        assert(0 <= m * cols) by (nonlinear_arith)
            requires
                0 <= cols,
        ;
        lemma_columns_len(v, cols, ranges, m);
        lemma_ranges_of(v, m * cols, ranges, ranges.len(), cols);
        assert(rows * w == m * w + w) by (nonlinear_arith)
            requires
                rows == m + 1,
        ;
    }
}

/// In blocks, an aligned slice is the slice of the blocks.
proof fn lemma_blocks(ranges: Seq<(usize, usize)>, k: nat, x: int)
    requires
        k <= ranges.len(),
        aligned(ranges),
    ensures
        width_upto(ranges, k) % 32 == 0,
        width_upto(in_blocks(ranges), k) == width_upto(ranges, k) / 32,
        0 <= x < width_upto(ranges, k) ==> source_column(in_blocks(ranges), k, x / 32)
            == source_column(ranges, k, x) / 32,
    decreases k,
{
    if k > 0 {
        lemma_blocks(ranges, (k - 1) as nat, x);
        assert(ranges[k - 1].0 % 32 == 0 && ranges[k - 1].1 % 32 == 0);
    }
}

/// Slicing columns keeps every value with its scale: the value at place `x`
/// of row `r` of the slice is the source value of one column, and the scale
/// of its block in the slice is the scale of that column's block.
pub proof fn sliced_values_keep_their_scales(
    values: Seq<i8>,
    scales: Seq<u32>,
    rows: nat,
    cols: int,
    ranges: Seq<(usize, usize)>,
    r: int,
    x: int,
)
    requires
        0 <= cols,
        cols % 32 == 0,
        values.len() == rows * cols,
        scales.len() == rows * (cols / 32),
        aligned(ranges),
        within(ranges, cols),
        0 <= r < rows,
        0 <= x < width_upto(ranges, ranges.len()),
    ensures
        ({
            let w = width_upto(ranges, ranges.len());
            let c = source_column(ranges, ranges.len(), x);
            &&& columns_of(values, cols, ranges, rows)[r * w + x] == values[r * cols + c]
            &&& columns_of(scales, cols / 32, in_blocks(ranges), rows)[r * (w / 32) as int + x
                / 32] == scales[r * (cols / 32) + c / 32]
        }),
{
    lemma_columns_of(values, cols, ranges, rows, r, x);
    lemma_blocks(ranges, ranges.len(), x);
    let blocks = in_blocks(ranges);
    assert forall|i: int| 0 <= i < blocks.len() implies (#[trigger] blocks[i]).0 + blocks[i].1
        <= cols / 32 by {
        assert(ranges[i].0 + ranges[i].1 <= cols);
        assert(ranges[i].0 % 32 == 0 && ranges[i].1 % 32 == 0);
    }
    lemma_columns_of(scales, cols / 32, blocks, rows, r, x / 32);
}

/// What rewriting an entry in place comes to: the levels to overwrite, in
/// order, and what stops it, if anything does.
#[derive(Debug)]
pub struct RewritePlan {
    pub writes: Vec<(Precision, Blob)>,
    pub failure: Option<String>,
}

/// The first level from `from` on whose stored size is not that of `n`
/// values.
pub open spec fn first_resized(v: Seq<(Precision, Blob)>, n: nat, from: int) -> Option<int>
    decreases v.len() - from,
{
    if from < 0 || from >= v.len() {
        None
    } else if v[from].1.values_len != value_bytes(v[from].0, n) || v[from].1.scales_len
        != scale_bytes(v[from].0, n) {
        Some(from)
    } else {
        first_resized(v, n, from + 1)
    }
}

/// Overwrite every stored level of an entry from `values` new values of the
/// same shape, in place: same byte sizes, level by level.
pub fn rewrite_entry(entry: &TensorEntry, values: usize) -> (r: RewritePlan)
    requires
        shape_fits(entry.shape@),
        4 * numel(entry.shape@) <= u64::MAX,
    ensures
        ({
            let n = numel(entry.shape@);
            let stored = entry.precisions@;
            if values != n {
                &&& r.writes@.len() == 0
                &&& r.failure matches Some(e) && e@ == "rewrite '"@ + entry.name@ + "': "@
                    + decimal(values as nat) + " values for shape "@ + list_text(
                    wide(entry.shape@),
                )
            } else {
                match first_resized(stored, n, 0) {
                    None => r.failure is None && r.writes@ == stored,
                    Some(i) => {
                        let (p, b) = stored[i];
                        &&& r.writes@ == stored.take(i)
                        &&& r.failure matches Some(e) && e@ == "rewrite '"@ + entry.name@ + "' "@
                            + p.label() + ": size changed ("@ + decimal(value_bytes(p, n))
                            + " / "@ + decimal(scale_bytes(p, n)) + " vs "@ + decimal(
                            b.values_len as nat,
                        ) + " / "@ + decimal(b.scales_len as nat) + ")"@
                    },
                }
            }
        }),
{
    let n: usize = count(&entry.shape);
    let mut writes: Vec<(Precision, Blob)> = Vec::new();
    if values != n {
        let mut m: String = String::new();
        m.append("rewrite '");
        m.append(entry.name.as_str());
        m.append("': ");
        push_decimal(&mut m, values as u64);
        m.append(" values for shape ");
        push_list(&mut m, &widened(&entry.shape));
        return RewritePlan { writes, failure: Some(m) };
    }
    let mut i: usize = 0;
    while i < entry.precisions.len()
        invariant
            i <= entry.precisions@.len(),
            n == numel(entry.shape@),
            values == n,
            4 * n <= u64::MAX,
            writes@ == entry.precisions@.take(i as int),
            first_resized(entry.precisions@, n as nat, 0) == first_resized(
                entry.precisions@,
                n as nat,
                i as int,
            ),
        decreases entry.precisions@.len() - i,
    {
        let p: Precision = entry.precisions[i].0;
        let b: Blob = entry.precisions[i].1;
        let bytes: (u64, u64) = level_bytes(p, n as u64);
        if bytes.0 != b.values_len || bytes.1 != b.scales_len {
            let mut m: String = String::new();
            m.append("rewrite '");
            m.append(entry.name.as_str());
            m.append("' ");
            m.append(p.name());
            m.append(": size changed (");
            push_decimal(&mut m, bytes.0);
            m.append(" / ");
            push_decimal(&mut m, bytes.1);
            m.append(" vs ");
            push_decimal(&mut m, b.values_len);
            m.append(" / ");
            push_decimal(&mut m, b.scales_len);
            m.append(")");
            return RewritePlan { writes, failure: Some(m) };
        }
        writes.push((p, b));
        assert(entry.precisions@.take(i + 1) =~= entry.precisions@.take(i as int).push(
            entry.precisions@[i as int],
        ));
        i += 1;
    }
    assert(entry.precisions@.take(i as int) =~= entry.precisions@);
    RewritePlan { writes, failure: None }
}

/// A shape as a list of 64-bit numbers.
pub open spec fn wide(shape: Seq<usize>) -> Seq<u64> {
    shape.map(|i: int, d: usize| d as u64)
}

/// A shape as a list of 64-bit numbers.
fn widened(shape: &Vec<usize>) -> (r: Vec<u64>)
    ensures
        r@ == wide(shape@),
{
    let mut out: Vec<u64> = Vec::new();
    let mut i: usize = 0;
    while i < shape.len()
        invariant
            i <= shape@.len(),
            out@.len() == i,
            forall|k: int| 0 <= k < i ==> (#[trigger] out@[k]) == shape@[k] as u64,
        decreases shape@.len() - i,
    {
        out.push(shape[i] as u64);
        i += 1;
    }
    assert(out@ =~= wide(shape@));
    out
}

} // verus!
