//! The packed matrix-vector product over block-quantized weights: which
//! weights and shapes it takes, how a word decodes, how the work is cut into
//! slices and chunks, and which split of the inner dimension wins. The sums
//! themselves are the caller's.

use crate::pack::{field, field_base, fields_read_back, per_word, power, word_of};
use crate::text::{chars_of, lowercase, lowered, parse_size, parsed_size, same_text, spells};
use vstd::arithmetic::div_mod::{
    lemma_fundamental_div_mod, lemma_fundamental_div_mod_converse, lemma_mod_bound,
};
use vstd::prelude::*;

verus! {

/// The widest host batch the packed matrix product accepts: the prefill
/// chunk's default.
pub const FLEX_GEMM_MAX: usize = 1024;

/// The most rows that are served one by one elsewhere.
pub const ROWS_MAX: usize = 64;

/// The value type of a quantized weight.
#[derive(Debug, Clone, Copy, PartialEq, Eq, Structural)]
pub enum QuantValue {
    Q4S,
    Q8S,
    Other,
}

/// How a quantized weight is stored.
#[derive(Debug, Clone, Copy, PartialEq, Eq, Structural)]
pub enum QuantStore {
    /// Words packed along the given dimension from the last.
    PackedU32(usize),
    Native,
    Other,
}

/// The format of a quantized weight.
#[derive(Debug, Clone, Copy, PartialEq, Eq, Structural)]
pub struct QuantScheme {
    pub value: QuantValue,
    /// Values that share a scale, along the last dimension; `None` for any
    /// other sharing.
    pub block: Option<usize>,
    /// Are the scales single precision?
    pub single_scales: bool,
    pub store: QuantStore,
}

/// Is a weight in the one packed format that is read here?
pub open spec fn supported(s: QuantScheme) -> bool {
    &&& (s.value == QuantValue::Q4S || s.value == QuantValue::Q8S)
    &&& s.block == Some(32usize)
    &&& s.single_scales
    &&& (s.store == QuantStore::PackedU32(0) || s.store == QuantStore::Native)
}

/// Is a weight in the one packed format that is read here?
pub fn scheme_supported(s: &QuantScheme) -> (r: bool)
    ensures
        r == supported(*s),
{
    let value: bool = match s.value {
        QuantValue::Q4S | QuantValue::Q8S => true,
        QuantValue::Other => false,
    };
    let block: bool = match s.block {
        Some(b) => b == 32,
        None => false,
    };
    let store: bool = match s.store {
        QuantStore::PackedU32(d) => d == 0,
        QuantStore::Native => true,
        QuantStore::Other => false,
    };
    value && block && s.single_scales && store
}

/// Does the setting leave the packed path on? Unset leaves it on; `0`, `off`
/// and `false` turn it off.
pub open spec fn packed_set(value: Option<Seq<char>>) -> bool {
    match value {
        None => true,
        Some(v) => !(v == "0"@ || lowered(v) == "off"@ || lowered(v) == "false"@),
    }
}

/// Is the packed path on, given its setting?
pub fn packed_gemv_enabled(value: Option<&str>) -> (r: bool)
    ensures
        r == (match value {
            None => true,
            Some(v) => packed_set(Some(v@)),
        }),
{
    match value {
        None => true,
        Some(v) => {
            let chars: Vec<char> = chars_of(v);
            let lower: Vec<char> = lowercase(&chars);
            !(spells(&chars, "0") || spells(&lower, "off") || spells(&lower, "false"))
        },
    }
}

/// How a product is served.
#[derive(Debug, Clone, Copy, PartialEq, Eq, Structural)]
pub enum Route {
    /// One packed matrix-vector product.
    Gemv,
    /// One packed matrix product that streams the weight once.
    Gemm,
    /// One packed matrix-vector product per row.
    Rows,
}

/// How a product of `m` rows is served, `None` by the caller's own product.
pub open spec fn route(enabled: bool, weight: Option<QuantScheme>, m: nat, on_host: bool) -> Option<
    Route,
> {
    if !enabled || weight is None || !supported(weight->0) {
        None
    } else if m == 1 {
        Some(Route::Gemv)
    } else if 2 <= m <= FLEX_GEMM_MAX && on_host {
        Some(Route::Gemm)
    } else if m <= ROWS_MAX {
        Some(Route::Rows)
    } else {
        None
    }
}

/// How a product of `m` rows with a weight is served: `None` means the caller
/// should use its own product. `weight` is the format of a quantized weight.
pub fn try_q4s_gemv(
    enabled: bool,
    weight: Option<QuantScheme>,
    m: usize,
    on_host: bool,
) -> (r: Option<Route>)
    requires
        enabled && weight is Some && supported(weight->0) ==> m >= 1,
    ensures
        r == route(enabled, weight, m as nat, on_host),
{
    if !enabled {
        return None;
    }
    match weight {
        None => {
            return None;
        },
        Some(s) => {
            if !scheme_supported(&s) {
                return None;
            }
        },
    }
    if m == 1 {
        return Some(Route::Gemv);
    }
    if 2 <= m && m <= FLEX_GEMM_MAX && on_host {
        return Some(Route::Gemm);
    }
    if m <= ROWS_MAX {
        return Some(Route::Rows);
    }
    None
}

/// Turning the packed path off, a float weight or an unknown format always
/// falls back, and a single row of a supported weight never does.
pub proof fn the_packed_path_declines_out_of_contract(
    enabled: bool,
    weight: Option<QuantScheme>,
    m: nat,
    on_host: bool,
)
    ensures
        !enabled ==> route(enabled, weight, m, on_host) is None,
        weight is None ==> route(enabled, weight, m, on_host) is None,
        weight is Some && !supported(weight->0) ==> route(enabled, weight, m, on_host) is None,
        enabled && weight is Some && supported(weight->0) ==> route(enabled, weight, 1, on_host)
            == Some(Route::Gemv),
        m > FLEX_GEMM_MAX ==> route(enabled, weight, m, on_host) is None,
{
}

/// Is the bounded head used? It is opted into, on the host, for one row of a
/// 4-bit weight.
pub fn try_q4s_head(
    head_enabled: bool,
    packed_enabled: bool,
    m: usize,
    on_host: bool,
    weight: Option<QuantScheme>,
) -> (r: bool)
    ensures
        r == (head_enabled && packed_enabled && m == 1 && on_host && weight is Some && supported(
            weight->0,
        ) && weight->0.value == QuantValue::Q4S),
{
    if !head_enabled || !packed_enabled {
        return false;
    }
    if m != 1 || !on_host {
        return false;
    }
    match weight {
        None => false,
        Some(s) => scheme_supported(&s) && (match s.value {
            QuantValue::Q4S => true,
            _ => false,
        }),
    }
}

/// Does a weight qualify for the packed host form, whose groups of 32 run
/// along the inner dimension?
pub fn twin_eligible(value: QuantValue, k_len: usize, registry_enabled: bool) -> (r: bool)
    ensures
        r == (value == QuantValue::Q4S && k_len % 32 == 0 && registry_enabled),
{
    (match value {
        QuantValue::Q4S => true,
        _ => false,
    }) && k_len % 32 == 0 && registry_enabled
}

/// The signed value of a field of `base` (16 or 256) codes.
pub open spec fn signed_field(raw: int, base: int) -> int {
    if raw >= base / 2 {
        raw - base
    } else {
        raw
    }
}

/// Value `j` of a word.
pub open spec fn decoded(word: int, base: int, j: nat) -> int {
    signed_field(word / power(base, j) % base, base)
}

/// The values of one word, `bits` (4 or 8) each, the lowest bits first.
pub fn decode_word(word: u32, bits: u32) -> (r: Vec<i8>)
    requires
        bits == 4 || bits == 8,
    ensures
        r@.len() == per_word(bits as nat),
        forall|j: int|
            0 <= j < r@.len() ==> (#[trigger] r@[j]) == decoded(
                word as int,
                field_base(bits as nat),
                j as nat,
            ),
{
    let per: usize = if bits == 4 {
        8
    } else {
        4
    };
    let base: u32 = if bits == 4 {
        16
    } else {
        256
    };
    let mut out: Vec<i8> = Vec::new();
    let mut rest: u32 = word;
    let mut j: usize = 0;
    assert(power(base as int, 0) == 1);
    assert(word as int / 1 == word);
    while j < per
        invariant
            bits == 4 || bits == 8,
            per == per_word(bits as nat),
            base == field_base(bits as nat),
            base == 16 || base == 256,
            j <= per,
            power(base as int, j as nat) > 0,
            rest == word as int / power(base as int, j as nat),
            out@.len() == j,
            forall|i: int|
                0 <= i < j ==> (#[trigger] out@[i]) == decoded(
                    word as int,
                    base as int,
                    i as nat,
                ),
        decreases per - j,
    {
        let raw: u32 = rest % base;
        let signed: i32 = if raw >= base / 2 {
            raw as i32 - base as i32
        } else {
            raw as i32
        };
        assert(-128 <= signed <= 127);
        out.push(signed as i8);
        proof {
            let p = power(base as int, j as nat);
            assert(power(base as int, (j + 1) as nat) == base * p);
            vstd::arithmetic::div_mod::lemma_div_denominator(word as int, p, base as int);
            assert(p * base == base * p) by (nonlinear_arith);
            assert(base * p > 0) by (nonlinear_arith)
                requires
                    base > 0,
                    p > 0,
            ;
        }
        rest = rest / base;
        j += 1;
    }
    out
}

/// A decoded value is the value that was packed: a field's low bits, read as
/// a signed number, give it back for every value the format can hold.
pub proof fn decoding_undoes_packing(v: i8, bits: nat)
    requires
        bits == 4 || bits == 8,
        bits == 4 ==> -8 <= v <= 7,
    ensures
        signed_field(field(v, field_base(bits)), field_base(bits)) == v,
{
    let base = field_base(bits);
    if v >= 0 {
        lemma_fundamental_div_mod_converse(v as int, base, 0, v as int);
    } else {
        lemma_fundamental_div_mod_converse(v as int, base, -1, v as int + base);
    }
}

/// What was packed into a word is what is decoded from it, value by value.
pub proof fn a_packed_word_decodes_to_its_values(
    values: Seq<i8>,
    bits: nat,
    at: int,
    n: nat,
    j: nat,
)
    requires
        bits == 4 || bits == 8,
        j < n,
        bits == 4 ==> -8 <= values[at + j] <= 7,
    ensures
        decoded(word_of(values, field_base(bits), at, n), field_base(bits), j) == values[at + j],
{
    fields_read_back(values, field_base(bits), at, n, j);
    decoding_undoes_packing(values[at + j], bits);
}

/// The forced split of the inner dimension: a number from 1 to 32.
pub open spec fn forced_split(value: Option<Seq<char>>) -> Option<nat> {
    match value {
        None => None,
        Some(v) => match parsed_size(v) {
            Some(n) => if 1 <= n <= 32 {
                Some(n)
            } else {
                None
            },
            None => None,
        },
    }
}

/// The forced split of the inner dimension, given its setting.
pub fn gemv_split_override(value: Option<&str>) -> (r: Option<usize>)
    ensures
        match r {
            Some(n) => value is Some && forced_split(Some(value->0@)) == Some(n as nat),
            None => value is None || forced_split(Some(value->0@)) is None,
        },
{
    match value {
        None => None,
        Some(v) => {
            let chars: Vec<char> = chars_of(v);
            match parse_size(&chars) {
                Some(n) => {
                    if 1 <= n && n <= 32 {
                        Some(n)
                    } else {
                        None
                    }
                },
                None => None,
            }
        },
    }
}

/// Three quarters of a second-level cache of `mib` mebibytes.
pub fn l2_budget(mib: u64) -> (r: u64)
    ensures
        r == mib.wrapping_mul(0x10_0000) / 4 * 3,
{
    mib.wrapping_mul(0x10_0000) / 4 * 3
}

/// The splits worth a try: modest ones for a weight that stays in the cache.
pub open spec fn candidates(weight_bytes: nat, l2_bytes: Option<u64>) -> Seq<usize> {
    if l2_bytes is Some && weight_bytes <= l2_bytes->0 {
        seq![1, 2, 4, 8]
    } else {
        seq![1, 4, 8, 16, 32]
    }
}

/// Candidate splits in the order they are tried. A weight that fits the cache
/// is not starved for memory parallelism; one that misses it streams. This
/// orders the search and never decides it.
pub fn split_candidates(weight_bytes: u64, l2_bytes: Option<u64>) -> (r: Vec<usize>)
    ensures
        r@ == candidates(weight_bytes as nat, l2_bytes),
{
    let resident: bool = match l2_bytes {
        Some(l2) => weight_bytes <= l2,
        None => false,
    };
    let out: Vec<usize> = if resident {
        vec![1, 2, 4, 8]
    } else {
        vec![1, 4, 8, 16, 32]
    };
    assert(out@ =~= candidates(weight_bytes as nat, l2_bytes));
    out
}

/// The candidates that divide the inner dimension.
pub open spec fn dividing(s: Seq<usize>, k_len: nat) -> Seq<usize> {
    s.filter(|c: usize| c > 0 && k_len % (c as nat) == 0)
}

/// The splits that are timed: the candidates that divide the inner dimension,
/// in their order.
pub fn timed_splits(weight_bytes: u64, l2_bytes: Option<u64>, k_len: usize) -> (r: Vec<usize>)
    ensures
        r@ == dividing(candidates(weight_bytes as nat, l2_bytes), k_len as nat),
{
    let all: Vec<usize> = split_candidates(weight_bytes, l2_bytes);
    let mut out: Vec<usize> = Vec::new();
    let mut i: usize = 0;
    proof {
        reveal(Seq::filter);
        assert(all@.take(0) =~= Seq::<usize>::empty());
    }
    while i < all.len()
        invariant
            i <= all@.len(),
            out@ == dividing(all@.take(i as int), k_len as nat),
        decreases all@.len() - i,
    {
        proof {
            reveal(Seq::filter);
            assert(all@.take(i + 1).drop_last() =~= all@.take(i as int));
            assert(all@.take(i + 1).last() == all@[i as int]);
        }
        if all[i] > 0 && k_len % all[i] == 0 {
            out.push(all[i]);
        }
        i += 1;
    }
    assert(all@.take(i as int) =~= all@);
    out
}

/// The place of the first smallest of `times` below `worst`, from `i` on.
pub open spec fn fastest_place(times: Seq<u64>, worst: u64, i: int) -> Option<int>
    decreases times.len() - i,
{
    if i < 0 || i >= times.len() {
        None
    } else if times[i] < worst {
        match fastest_place(times, times[i], i + 1) {
            Some(j) => Some(j),
            None => Some(i),
        }
    } else {
        fastest_place(times, worst, i + 1)
    }
}

/// The order key of an infinite time.
pub const NEVER: u64 = 0x7FF0_0000_0000_0000;

/// The measured best split: the first of the fastest ones, 1 when none
/// finished. Times are bit patterns of non-negative numbers, ordered as they
/// are.
pub fn fastest_split(splits: &Vec<usize>, times: &Vec<u64>) -> (r: usize)
    requires
        splits@.len() == times@.len(),
    ensures
        r == (match fastest_place(times@, NEVER, 0) {
            Some(i) => splits@[i],
            None => 1,
        }),
{
    let mut best: usize = 1;
    let mut time: u64 = NEVER;
    let mut i: usize = 0;
    let ghost mut at: Option<int> = None;
    while i < times.len()
        invariant
            splits@.len() == times@.len(),
            i <= times@.len(),
            fastest_place(times@, NEVER, 0) == (match fastest_place(times@, time, i as int) {
                Some(j) => Some(j),
                None => at,
            }),
            best == (match at {
                Some(j) => splits@[j],
                None => 1,
            }),
        decreases times@.len() - i,
    {
        if times[i] < time {
            best = splits[i];
            time = times[i];
            proof {
                at = Some(i as int);
            }
        }
        i += 1;
    }
    best
}

/// No timed split was faster than the chosen one.
pub proof fn the_fastest_split_wins(times: Seq<u64>, worst: u64, i: int, k: int)
    requires
        0 <= i <= k < times.len(),
    ensures
        match fastest_place(times, worst, i) {
            Some(j) => i <= j < times.len() && times[j] < worst && times[j] <= times[k],
            None => times[k] >= worst,
        },
    decreases times.len() - i,
{
    if times[i] < worst {
        if k > i {
            the_fastest_split_wins(times, times[i], i + 1, k);
        } else if i + 1 < times.len() {
            the_fastest_split_wins(times, times[i], i + 1, i + 1);
        }
    } else if k > i {
        the_fastest_split_wins(times, worst, i + 1, k);
    } else if i + 1 < times.len() {
        the_fastest_split_wins(times, worst, i + 1, i + 1);
    }
}

/// The split measured for one device, shape and packing.
pub struct SplitEntry {
    pub device: String,
    pub n: usize,
    pub k_len: usize,
    pub per_word: usize,
    pub split: usize,
}

impl SplitEntry {
    /// Is this the entry of that device, shape and packing?
    pub open spec fn is_for(self, device: Seq<char>, n: usize, k_len: usize, per_word: usize) -> bool {
        self.device@ == device && self.n == n && self.k_len == k_len && self.per_word == per_word
    }
}

/// The splits measured so far.
pub struct SplitCache {
    pub entries: Vec<SplitEntry>,
}

/// The place of the first entry for a key, from `i` on.
pub open spec fn place_for(
    s: Seq<SplitEntry>,
    device: Seq<char>,
    n: usize,
    k_len: usize,
    per_word: usize,
    i: int,
) -> Option<int>
    decreases s.len() - i,
{
    if i < 0 || i >= s.len() {
        None
    } else if s[i].is_for(device, n, k_len, per_word) {
        Some(i)
    } else {
        place_for(s, device, n, k_len, per_word, i + 1)
    }
}

/// The split of the first entry for a key, from `i` on.
pub open spec fn entry_for(
    s: Seq<SplitEntry>,
    device: Seq<char>,
    n: usize,
    k_len: usize,
    per_word: usize,
    i: int,
) -> Option<usize>
    decreases s.len() - i,
{
    if i < 0 || i >= s.len() {
        None
    } else if s[i].is_for(device, n, k_len, per_word) {
        Some(s[i].split)
    } else {
        entry_for(s, device, n, k_len, per_word, i + 1)
    }
}

impl SplitCache {
    /// Nothing measured yet.
    pub fn new() -> (r: Self)
        ensures
            r.entries@.len() == 0,
    {
        SplitCache { entries: Vec::new() }
    }

    /// The split to use without measuring: a forced one, or the one measured
    /// before for the same device, shape and packing.
    pub fn gemv_split_for(
        &self,
        forced: Option<usize>,
        device: &str,
        n: usize,
        k_len: usize,
        per_word: usize,
    ) -> (r: Option<usize>)
        ensures
            r == (match forced {
                Some(f) => Some(f),
                None => entry_for(self.entries@, device@, n, k_len, per_word, 0),
            }),
    {
        match forced {
            Some(f) => {
                return Some(f);
            },
            None => {},
        }
        let mut i: usize = 0;
        while i < self.entries.len()
            invariant
                forced is None,
                i <= self.entries@.len(),
                entry_for(self.entries@, device@, n, k_len, per_word, 0) == entry_for(
                    self.entries@,
                    device@,
                    n,
                    k_len,
                    per_word,
                    i as int,
                ),
            decreases self.entries@.len() - i,
        {
            let e: &SplitEntry = &self.entries[i];
            if e.n == n && e.k_len == k_len && e.per_word == per_word && same_text(
                e.device.as_str(),
                device,
            ) {
                return Some(e.split);
            }
            i += 1;
        }
        None
    }

    /// Keep a measured split, in place of one measured before.
    pub fn insert(&mut self, device: &str, n: usize, k_len: usize, per_word: usize, split: usize)
        ensures
            match place_for(old(self).entries@, device@, n, k_len, per_word, 0) {
                Some(i) => {
                    &&& 0 <= i < old(self).entries@.len()
                    &&& final(self).entries@ == old(self).entries@.update(
                        i,
                        final(self).entries@[i],
                    )
                    &&& final(self).entries@[i].is_for(device@, n, k_len, per_word)
                    &&& final(self).entries@[i].split == split
                },
                None => {
                    &&& final(self).entries@.len() == old(self).entries@.len() + 1
                    &&& final(self).entries@.drop_last() == old(self).entries@
                    &&& final(self).entries@.last().is_for(device@, n, k_len, per_word)
                    &&& final(self).entries@.last().split == split
                },
            },
            entry_for(final(self).entries@, device@, n, k_len, per_word, 0) == Some(split),
    {
        let ghost before = self.entries@;
        let entry: SplitEntry = SplitEntry {
            device: device.to_owned(),
            n,
            k_len,
            per_word,
            split,
        };
        let mut i: usize = 0;
        while i < self.entries.len()
            invariant
                i <= self.entries@.len(),
                self.entries@ == before,
                before == old(self).entries@,
                entry.is_for(device@, n, k_len, per_word),
                entry.split == split,
                place_for(before, device@, n, k_len, per_word, 0) == place_for(
                    before,
                    device@,
                    n,
                    k_len,
                    per_word,
                    i as int,
                ),
                forall|k: int| 0 <= k < i ==> !(#[trigger] before[k]).is_for(
                    device@,
                    n,
                    k_len,
                    per_word,
                ),
            decreases self.entries@.len() - i,
        {
            let e: &SplitEntry = &self.entries[i];
            if e.n == n && e.k_len == k_len && e.per_word == per_word && same_text(
                e.device.as_str(),
                device,
            ) {
                self.entries.set(i, entry);
                proof {
                    assert(self.entries@ =~= before.update(i as int, entry));
                    lemma_first_entry(self.entries@, device@, n, k_len, per_word, i as int, 0);
                }
                return;
            }
            i += 1;
        }
        self.entries.push(entry);
        proof {
            assert(self.entries@.drop_last() =~= before);
            lemma_first_entry(
                self.entries@,
                device@,
                n,
                k_len,
                per_word,
                before.len() as int,
                0,
            );
        }
    }
}

/// The first entry of a key is the one that is found.
proof fn lemma_first_entry(
    s: Seq<SplitEntry>,
    device: Seq<char>,
    n: usize,
    k_len: usize,
    per_word: usize,
    at: int,
    i: int,
)
    requires
        0 <= i <= at < s.len(),
        s[at].is_for(device, n, k_len, per_word),
        forall|k: int| i <= k < at ==> !(#[trigger] s[k]).is_for(device, n, k_len, per_word),
    ensures
        entry_for(s, device, n, k_len, per_word, i) == Some(s[at].split),
    decreases at - i,
{
    if i < at {
        lemma_first_entry(s, device, n, k_len, per_word, at, i + 1);
    }
}

/// The split a launch uses: 1 where the chosen one does not divide the inner
/// dimension.
pub open spec fn settled(split: nat, k_len: nat) -> nat {
    if split == 0 || k_len % split != 0 {
        1
    } else {
        split
    }
}

/// The shape of a launch.
#[derive(Debug, Clone, Copy, PartialEq, Eq, Structural)]
pub struct Launch {
    /// Workgroups of 32 word columns.
    pub cubes: usize,
    /// Slices of the inner dimension per workgroup.
    pub split: usize,
    /// Steps each slice walks.
    pub steps: usize,
}

/// The shape of a launch over `n_words` word columns: enough workgroups of 32
/// columns, and slices that divide the inner dimension evenly.
pub fn launch(n_words: usize, k_len: usize, split: usize) -> (r: Launch)
    ensures
        r.split == settled(split as nat, k_len as nat),
        r.steps * r.split == k_len,
        r.cubes == (n_words + 31) / 32,
        r.split >= 1,
{
    let s: usize = if split == 0 || k_len % split != 0 {
        1
    } else {
        split
    };
    let cubes: usize = if n_words % 32 == 0 {
        n_words / 32
    } else {
        n_words / 32 + 1
    };
    proof {
        lemma_fundamental_div_mod(k_len as int, s as int);
        assert((k_len as int / s as int) * s == s * (k_len as int / s as int)) by (nonlinear_arith);
        assert(s == 1 ==> k_len as int % s as int == 0) by {
            if s == 1 {
                lemma_fundamental_div_mod_converse(k_len as int, 1, k_len as int, 0);
            }
        }
    }
    Launch { cubes, split: s, steps: k_len / s }
}

/// Every step of the inner dimension is walked by exactly one slice: slice
/// `k / steps` at its own step `k % steps`, and by no other.
pub proof fn every_step_is_walked_once(l: Launch, k_len: int, k: int, slice: int, step: int)
    requires
        l.steps * l.split == k_len,
        0 <= k < k_len,
    ensures
        l.steps > 0,
        0 <= k / l.steps as int,
        k / (l.steps as int) < l.split,
        (k / l.steps as int) * l.steps + k % l.steps as int == k,
        0 <= slice < l.split && 0 <= step < l.steps && slice * l.steps + step == k ==> slice == k
            / l.steps as int && step == k % l.steps as int,
{
    let steps = l.steps as int;
    assert(steps > 0) by (nonlinear_arith)
        requires
            0 <= k < steps * l.split,
            steps >= 0,
    ;
    lemma_fundamental_div_mod(k, steps);
    lemma_mod_bound(k, steps);
    let q = k / steps;
    assert(0 <= q < l.split) by (nonlinear_arith)
        requires
            k == steps * q + k % steps,
            0 <= k % steps < steps,
            0 <= k < steps * l.split,
            steps > 0,
    ;
    assert(q * steps == steps * q) by (nonlinear_arith);
    if 0 <= slice < l.split && 0 <= step < l.steps && slice * l.steps + step == k {
        lemma_fundamental_div_mod_converse(k, steps, slice, step);
    }
}

/// Blocks of 32 outputs per host task: an even share of them, at least 4.
pub fn host_chunk_blocks(n: usize, threads: usize) -> (r: usize)
    ensures
        ({
            let blocks = n as int / 32;
            let t = if threads == 0 {
                1
            } else {
                threads as int
            };
            let share = (blocks + t - 1) / t;
            r == if share < 4 {
                4
            } else {
                share
            }
        }),
{
    let blocks: usize = n / 32;
    let t: usize = if threads == 0 {
        1
    } else {
        threads
    };
    let share: usize = if blocks % t == 0 {
        blocks / t
    } else {
        blocks / t + 1
    };
    proof {
        let b = blocks as int;
        let d = t as int;
        lemma_fundamental_div_mod(b, d);
        lemma_mod_bound(b, d);
        let q = b / d;
        assert(d * q == q * d) by (nonlinear_arith);
        if b % d == 0 {
            lemma_fundamental_div_mod_converse(b + d - 1, d, q, d - 1);
        } else {
            assert((q + 1) * d == q * d + d) by (nonlinear_arith);
            lemma_fundamental_div_mod_converse(b + d - 1, d, q + 1, b % d - 1);
        }
    }
    if share < 4 {
        4
    } else {
        share
    }
}

/// Bytes the dense host product streams for `m` rows.
pub fn dense_bytes(k_len: usize, n: usize, scales: usize, m: usize) -> (r: usize)
    requires
        k_len * n <= usize::MAX,
        scales * 4 <= usize::MAX,
        k_len * n + scales * 4 <= usize::MAX,
        (k_len * n + scales * 4) * m <= usize::MAX,
    ensures
        r == (k_len * n + scales * 4) * m,
{
    (k_len * n + scales * 4) * m
}

/// Bytes of a weight on the device: its words and its scales.
pub fn weight_bytes(n_words: u64, k_len: u64, scales: u64) -> (r: u64)
    requires
        n_words * k_len <= u64::MAX,
        n_words * k_len * 4 + scales * 4 <= u64::MAX,
    ensures
        r == n_words * k_len * 4 + scales * 4,
{
    n_words * k_len * 4 + scales * 4
}

/// Bytes the bounded head streamed, given that it evaluated `rows` of `n`.
pub fn evaluated_bytes(streamed: u64, rows: u64, n: u64) -> (r: u64)
    requires
        rows <= n,
    ensures
        n > 0 ==> r == (streamed * rows) as int / n as int,
        n == 0 ==> r == 0,
{
    if n == 0 {
        return 0;
    }
    proof {
        assert(0 <= streamed * rows && streamed * rows <= u64::MAX * u64::MAX) by (nonlinear_arith)
            requires
                0 <= streamed <= u64::MAX,
                0 <= rows <= u64::MAX,
        ;
        assert(streamed * rows <= streamed * n) by (nonlinear_arith)
            requires
                rows <= n,
                streamed >= 0,
        ;
        vstd::arithmetic::div_mod::lemma_div_is_ordered(
            streamed * rows,
            streamed * n,
            n as int,
        );
        vstd::arithmetic::div_mod::lemma_div_multiples_vanish(streamed as int, n as int);
        assert(streamed * n == n * streamed) by (nonlinear_arith);
        vstd::arithmetic::div_mod::lemma_div_pos_is_pos(streamed * rows, n as int);
    }
    let share: u128 = streamed as u128 * rows as u128 / n as u128;
    share as u64
}

/// The logits of a bounded head: `filler` everywhere but at the evaluated
/// rows, a later value for the same row winning.
pub open spec fn scattered(n: nat, filler: u32, ids: Seq<u32>, vals: Seq<u32>) -> Seq<u32>
    decreases ids.len(),
{
    if ids.len() == 0 || vals.len() == 0 {
        Seq::new(n, |i: int| filler)
    } else {
        scattered(n, filler, ids.drop_last(), vals.drop_last()).update(
            ids.last() as int,
            vals.last(),
        )
    }
}

/// The logits of a bounded head by bit pattern.
pub fn scatter_top(n: usize, filler: u32, ids: &Vec<u32>, vals: &Vec<u32>) -> (r: Vec<u32>)
    requires
        ids@.len() == vals@.len(),
        forall|i: int| 0 <= i < ids@.len() ==> (#[trigger] ids@[i]) < n,
    ensures
        r@ == scattered(n as nat, filler, ids@, vals@),
{
    let mut out: Vec<u32> = Vec::new();
    let mut i: usize = 0;
    while i < n
        invariant
            i <= n,
            out@.len() == i,
            forall|k: int| 0 <= k < i ==> (#[trigger] out@[k]) == filler,
        decreases n - i,
    {
        out.push(filler);
        i += 1;
    }
    let mut j: usize = 0;
    assert(out@ =~= scattered(n as nat, filler, ids@.take(0), vals@.take(0)));
    while j < ids.len()
        invariant
            ids@.len() == vals@.len(),
            forall|i: int| 0 <= i < ids@.len() ==> (#[trigger] ids@[i]) < n,
            j <= ids@.len(),
            out@.len() == n,
            out@ == scattered(n as nat, filler, ids@.take(j as int), vals@.take(j as int)),
        decreases ids@.len() - j,
    {
        let id: usize = ids[j] as usize;
        proof {
            assert(ids@[j as int] < n);
            assert(ids@.take(j + 1).drop_last() =~= ids@.take(j as int));
            assert(vals@.take(j + 1).drop_last() =~= vals@.take(j as int));
        }
        out.set(id, vals[j]);
        j += 1;
    }
    assert(ids@.take(j as int) =~= ids@);
    assert(vals@.take(j as int) =~= vals@);
    out
}

} // verus!
