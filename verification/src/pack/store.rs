//! The bytes that values are stored as, and that reading them gives the values
//! back.

use crate::pack::import::{scale_bytes, value_bytes, write_of, BlobWriter};
use crate::pack::read::{level_values, signed_byte, word_at, words_of};
use crate::pack::{nibbles_round_trip, pack_nibbles, packed, Precision};
use vstd::prelude::*;

verus! {

/// Byte `k` of a word, the lowest first.
pub open spec fn byte_of(word: int, k: int) -> int {
    if k == 0 {
        word % 256
    } else if k == 1 {
        word / 256 % 256
    } else if k == 2 {
        word / 65536 % 256
    } else {
        word / 16777216 % 256
    }
}

/// The little-endian bytes of 32-bit words.
pub open spec fn bytes_of(words: Seq<u32>) -> Seq<u8> {
    Seq::new(4 * words.len(), |i: int| byte_of(words[i / 4] as int, i % 4) as u8)
}

/// The little-endian bytes of 32-bit words.
pub fn le_bytes(words: &Vec<u32>) -> (r: Vec<u8>)
    ensures
        r@ == bytes_of(words@),
{
    let mut out: Vec<u8> = Vec::new();
    let mut i: usize = 0;
    while i < words.len()
        invariant
            i <= words@.len(),
            out@.len() == 4 * i,
            forall|k: int| 0 <= k < 4 * i ==> #[trigger] out@[k] == bytes_of(words@)[k],
        decreases words@.len() - i,
    {
        let w: u32 = words[i];
        out.push((w % 256) as u8);
        out.push((w / 256 % 256) as u8);
        out.push((w / 65536 % 256) as u8);
        out.push((w / 16777216) as u8);
        i += 1;
    }
    assert(out@ =~= bytes_of(words@));
    out
}

/// The little-endian bytes of 16-bit halves.
pub open spec fn half_bytes_of(halves: Seq<u16>) -> Seq<u8> {
    Seq::new(2 * halves.len(), |i: int| byte_of(halves[i / 2] as int, i % 2) as u8)
}

/// The little-endian bytes of 16-bit halves.
pub fn half_bytes(halves: &Vec<u16>) -> (r: Vec<u8>)
    ensures
        r@ == half_bytes_of(halves@),
{
    let mut out: Vec<u8> = Vec::new();
    let mut i: usize = 0;
    while i < halves.len()
        invariant
            i <= halves@.len(),
            out@.len() == 2 * i,
            forall|k: int| 0 <= k < 2 * i ==> #[trigger] out@[k] == half_bytes_of(halves@)[k],
        decreases halves@.len() - i,
    {
        let w: u16 = halves[i];
        out.push((w % 256) as u8);
        out.push((w / 256) as u8);
        i += 1;
    }
    assert(out@ =~= half_bytes_of(halves@));
    out
}

/// The little-endian 16-bit halves of a run of bytes; an odd last byte is
/// dropped.
pub open spec fn halves_of(bytes: Seq<u8>) -> Seq<u16> {
    Seq::new(bytes.len() / 2, |i: int| (bytes[2 * i] + 256 * (bytes[2 * i + 1] as int)) as u16)
}

/// The little-endian 16-bit halves of a run of bytes.
pub fn le_halves(bytes: &Vec<u8>) -> (r: Vec<u16>)
    ensures
        r@ == halves_of(bytes@),
{
    let n: usize = bytes.len() / 2;
    let mut out: Vec<u16> = Vec::new();
    let mut i: usize = 0;
    while i < n
        invariant
            n == bytes@.len() / 2,
            i <= n,
            out@.len() == i,
            forall|k: int| 0 <= k < i ==> #[trigger] out@[k] == halves_of(bytes@)[k],
        decreases n - i,
    {
        assert(2 * i + 1 < bytes.len());
        out.push(bytes[2 * i] as u16 + 256 * bytes[2 * i + 1] as u16);
        i += 1;
    }
    assert(out@ =~= halves_of(bytes@));
    out
}

/// The bytes of a quantized level's values: nibbles, or one byte each.
pub open spec fn quantized_bytes(p: Precision, values: Seq<i8>) -> Seq<u8> {
    if p == Precision::Q4 {
        packed(values)
    } else {
        Seq::new(values.len(), |i: int| (values[i] as int % 256) as u8)
    }
}

/// The bytes of a quantized level's values.
pub fn quantized_values(p: Precision, values: &Vec<i8>) -> (r: Vec<u8>)
    ensures
        r@ == quantized_bytes(p, values@),
{
    if p == Precision::Q4 {
        return pack_nibbles(values);
    }
    let mut out: Vec<u8> = Vec::new();
    let mut i: usize = 0;
    while i < values.len()
        invariant
            i <= values@.len(),
            out@.len() == i,
            forall|k: int| 0 <= k < i ==> #[trigger] out@[k] == (values@[k] as int % 256) as u8,
        decreases values@.len() - i,
    {
        let v: i16 = values[i] as i16;
        let b: u8 = (if v < 0 {
            v + 256
        } else {
            v
        }) as u8;
        assert(b == values@[i as int] as int % 256);
        out.push(b);
        i += 1;
    }
    assert(out@ =~= quantized_bytes(p, values@));
    out
}

/// Words read back from their bytes.
pub proof fn words_read_back(words: Seq<u32>)
    ensures
        words_of(bytes_of(words)) == words,
{
    let bytes = bytes_of(words);
    assert forall|i: int| 0 <= i < words.len() implies #[trigger] words_of(bytes)[i] == words[i] by {
        let w = words[i] as int;
        assert((4 * i) / 4 == i && (4 * i + 1) / 4 == i && (4 * i + 2) / 4 == i && (4 * i + 3) / 4
            == i);
        assert(bytes[4 * i] == w % 256);
        assert(bytes[4 * i + 1] == w / 256 % 256);
        assert(bytes[4 * i + 2] == w / 65536 % 256);
        assert(bytes[4 * i + 3] == w / 16777216 % 256);
        assert(word_at(bytes, 4 * i) == w);
    }
    assert(words_of(bytes) =~= words);
}

/// Halves read back from their bytes.
pub proof fn halves_read_back(halves: Seq<u16>)
    ensures
        halves_of(half_bytes_of(halves)) == halves,
{
    let bytes = half_bytes_of(halves);
    assert forall|i: int| 0 <= i < halves.len() implies #[trigger] halves_of(bytes)[i]
        == halves[i] by {
        let w = halves[i] as int;
        assert((2 * i) / 2 == i && (2 * i + 1) / 2 == i);
        assert(bytes[2 * i] == w % 256);
        assert(bytes[2 * i + 1] == w / 256 % 256);
    }
    assert(halves_of(bytes) =~= halves);
}

/// Quantized values read back from their bytes, as long as nibbles hold them.
pub proof fn quantized_values_read_back(p: Precision, values: Seq<i8>)
    requires
        p == Precision::Q4 ==> forall|i: int|
            0 <= i < values.len() ==> -8 <= #[trigger] values[i] <= 7,
    ensures
        level_values(p, quantized_bytes(p, values), values.len()) == values,
{
    if p == Precision::Q4 {
        nibbles_round_trip(values);
    } else {
        let bytes = quantized_bytes(p, values);
        let back = level_values(p, bytes, values.len());
        assert forall|i: int| 0 <= i < values.len() implies #[trigger] back[i] == values[i] by {
            assert(bytes[i] == values[i] as int % 256);
            assert(signed_byte(bytes[i]) == values[i]);
        }
        assert(back =~= values);
    }
}

/// A run of bytes is found where it was put.
proof fn lemma_found(before: Seq<u8>, run: Seq<u8>, after: Seq<u8>)
    ensures
        (before + run + after).subrange(before.len() as int, (before.len() + run.len()) as int)
            == run,
{
    assert((before + run + after).subrange(
        before.len() as int,
        (before.len() + run.len()) as int,
    ) =~= run);
}

/// What a write says of a quantized tensor reads its values and scales back,
/// whatever was in the blob before and whatever comes after.
pub proof fn a_quantized_level_reads_back(
    p: Precision,
    values: Seq<i8>,
    scales: Seq<u32>,
    before: Seq<u8>,
    after: Seq<u8>,
    w: BlobWriter,
)
    requires
        p.quantized(),
        p == Precision::Q4 ==> forall|i: int|
            0 <= i < values.len() ==> -8 <= #[trigger] values[i] <= 7,
        scales.len() == values.len() / 32,
        before.len() == w.len,
        before.len() + 4 * values.len() <= u64::MAX,
    ensures
        ({
            let file = before + quantized_bytes(p, values) + bytes_of(scales) + after;
            let at = write_of(p, values.len(), w).blob;
            &&& at.values_offset + at.values_len <= file.len()
            &&& at.scales_offset + at.scales_len <= file.len()
            &&& level_values(
                p,
                file.subrange(at.values_offset as int, at.values_offset + at.values_len),
                values.len(),
            ) == values
            &&& words_of(
                file.subrange(at.scales_offset as int, at.scales_offset + at.scales_len),
            ) == scales
        }),
{
    let v = quantized_bytes(p, values);
    let s = bytes_of(scales);
    let at = write_of(p, values.len(), w).blob;
    quantized_values_read_back(p, values);
    words_read_back(scales);
    lemma_found(before, v, s + after);
    lemma_found(before + v, s, after);
    assert(before + v + s + after =~= before + v + (s + after));
    assert(v.len() == value_bytes(p, values.len()));
    assert(s.len() == scale_bytes(p, values.len()));
    assert(at.values_offset == before.len() && at.values_len == v.len());
    assert(at.scales_offset == before.len() + v.len() && at.scales_len == s.len());
}

/// What a write says of a tensor in single precision reads its values back,
/// by bit pattern, whatever was in the blob before and whatever comes after.
pub proof fn a_single_level_reads_back(
    values: Seq<u32>,
    before: Seq<u8>,
    after: Seq<u8>,
    w: BlobWriter,
)
    requires
        before.len() == w.len,
        before.len() + 4 * values.len() <= u64::MAX,
    ensures
        ({
            let file = before + bytes_of(values) + after;
            let at = write_of(Precision::F32, values.len(), w).blob;
            &&& at.values_offset + at.values_len <= file.len()
            &&& words_of(
                file.subrange(at.values_offset as int, at.values_offset + at.values_len),
            ) == values
        }),
{
    words_read_back(values);
    lemma_found(before, bytes_of(values), after);
}

/// The same of a tensor in half precision.
pub proof fn a_half_level_reads_back(
    values: Seq<u16>,
    before: Seq<u8>,
    after: Seq<u8>,
    w: BlobWriter,
)
    requires
        before.len() == w.len,
        before.len() + 4 * values.len() <= u64::MAX,
    ensures
        ({
            let file = before + half_bytes_of(values) + after;
            let at = write_of(Precision::F16, values.len(), w).blob;
            &&& at.values_offset + at.values_len <= file.len()
            &&& halves_of(
                file.subrange(at.values_offset as int, at.values_offset + at.values_len),
            ) == values
        }),
{
    halves_read_back(values);
    lemma_found(before, half_bytes_of(values), after);
}

} // verus!
