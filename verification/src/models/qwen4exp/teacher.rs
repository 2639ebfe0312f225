//! Teacher-forced comparison against a dump of reference tensors: reading the
//! dump's index, finding a tensor's file and values, and placing the
//! reference over the forward's own values. The index has one row per tensor,
//! tab-separated: `seq name occurrence type ne0 ne1 ne2 ne3`; the values are
//! raw little-endian in the order the forward uses.

use crate::pack::read::{le_words, words_of};
use crate::text::{
    char_lists, chars_of, debug_text, decimal, parse_size, parsed_size, pieces, push_debug,
    push_decimal, same_text, split_at, string_of,
};
use vstd::prelude::*;

verus! {

/// A dumped tensor.
pub struct Entry {
    pub name: String,
    pub occurrence: usize,
    pub seq: usize,
    pub elems: usize,
    pub dtype: String,
}

/// What an entry says.
#[verifier::ext_equal]
pub struct EntryModel {
    pub name: Seq<char>,
    pub occurrence: nat,
    pub seq: nat,
    pub elems: nat,
    pub dtype: Seq<char>,
}

impl View for Entry {
    type V = EntryModel;

    open spec fn view(&self) -> EntryModel {
        EntryModel {
            name: self.name@,
            occurrence: self.occurrence as nat,
            seq: self.seq as nat,
            elems: self.elems as nat,
            dtype: self.dtype@,
        }
    }
}

/// What a list of entries says.
pub open spec fn entry_views(s: Seq<Entry>) -> Seq<EntryModel> {
    s.map(|i: int, e: Entry| e@)
}

/// The lines of a text: cut at line feeds, a carriage return before one
/// belonging to it.
pub open spec fn lines(s: Seq<char>) -> Seq<Seq<char>> {
    let p = pieces(s, '\n');
    Seq::new(
        p.len(),
        |i: int|
            if i + 1 < p.len() && p[i].len() > 0 && p[i].last() == '\r' {
                p[i].drop_last()
            } else {
                p[i]
            },
    )
}

/// The lines of a text.
fn lines_of(s: &Vec<char>) -> (r: Vec<Vec<char>>)
    ensures
        char_lists(r@) == lines(s@),
{
    let cut: Vec<Vec<char>> = split_at(s, '\n');
    let n: usize = cut.len();
    let ghost p = pieces(s@, '\n');
    assert forall|k: int| 0 <= k < cut@.len() implies (#[trigger] cut@[k])@ == p[k] by {
        assert(char_lists(cut@)[k] == cut@[k]@);
    }
    let mut out: Vec<Vec<char>> = Vec::new();
    let mut i: usize = 0;
    while i < n
        invariant
            n == cut@.len(),
            p == pieces(s@, '\n'),
            p.len() == n,
            forall|k: int| 0 <= k < cut@.len() ==> (#[trigger] cut@[k])@ == p[k],
            i <= n,
            out@.len() == i,
            forall|k: int| 0 <= k < i ==> (#[trigger] out@[k])@ == lines(s@)[k],
        decreases n - i,
    {
        let piece: &Vec<char> = &cut[i];
        let len: usize = piece.len();
        let mut keep: usize = len;
        if i + 1 < n && len > 0 && piece[len - 1] == '\r' {
            keep = len - 1;
        }
        let line: Vec<char> = crate::text::run_of(piece, 0, keep);
        assert(line@ =~= lines(s@)[i as int]);
        out.push(line);
        i += 1;
    }
    assert(char_lists(out@) =~= lines(s@));
    out
}

/// The product of the sizes in fields `i` to 8, times `acc`.
pub open spec fn size_product(f: Seq<Seq<char>>, i: int, acc: nat) -> Result<nat, Seq<char>>
    decreases 8 - i,
{
    if i < 0 || i >= 8 {
        Ok(acc)
    } else {
        match parsed_size(f[i]) {
            None => Err("teacher index number"@),
            Some(n) => if acc * n > usize::MAX {
                Err("attempt to multiply with overflow"@)
            } else {
                size_product(f, i + 1, acc * n)
            },
        }
    }
}

/// The entry of an index row, or what is wrong with it.
pub open spec fn parsed_row(line: Seq<char>) -> Result<EntryModel, Seq<char>> {
    let f = pieces(line, '\t');
    if f.len() != 8 {
        Err("teacher index row "@ + debug_text(line))
    } else {
        match size_product(f, 4, 1) {
            Err(e) => Err(e),
            Ok(elems) => match (parsed_size(f[2]), parsed_size(f[0])) {
                (Some(occurrence), Some(seq)) => Ok(
                    EntryModel { name: f[1], occurrence, seq, elems, dtype: f[3] },
                ),
                _ => Err("teacher index number"@),
            },
        }
    }
}

/// Read an index row.
fn parse_row(line: &Vec<char>) -> (r: Result<Entry, String>)
    ensures
        match r {
            Ok(e) => parsed_row(line@) == Ok::<EntryModel, Seq<char>>(e@),
            Err(m) => parsed_row(line@) == Err::<EntryModel, Seq<char>>(m@),
        },
{
    let f: Vec<Vec<char>> = split_at(line, '\t');
    let ghost p = pieces(line@, '\t');
    assert forall|k: int| 0 <= k < f@.len() implies (#[trigger] f@[k])@ == p[k] by {
        assert(char_lists(f@)[k] == f@[k]@);
    }
    assert(f@.len() == p.len());
    if f.len() != 8 {
        let mut m: String = String::new();
        m.append("teacher index row ");
        let text: String = string_of(line);
        push_debug(&mut m, text.as_str());
        return Err(m);
    }
    let mut elems: usize = 1;
    let mut i: usize = 4;
    while i < 8
        invariant
            f@.len() == 8,
            p.len() == 8,
            p == pieces(line@, '\t'),
            forall|k: int| 0 <= k < f@.len() ==> (#[trigger] f@[k])@ == p[k],
            4 <= i <= 8,
            size_product(p, 4, 1) == size_product(p, i as int, elems as nat),
        decreases 8 - i,
    {
        match parse_size(&f[i]) {
            None => {
                return Err("teacher index number".to_owned());
            },
            Some(n) => {
                assert(elems * n == elems as nat * n as nat);
                match elems.checked_mul(n) {
                    None => {
                        return Err("attempt to multiply with overflow".to_owned());
                    },
                    Some(product) => {
                        elems = product;
                    },
                }
            },
        }
        i += 1;
    }
    match parse_size(&f[2]) {
        None => Err("teacher index number".to_owned()),
        Some(occurrence) => match parse_size(&f[0]) {
            None => Err("teacher index number".to_owned()),
            Some(seq) => {
                let name: String = string_of(&f[1]);
                let dtype: String = string_of(&f[3]);
                Ok(Entry { name, occurrence, seq, elems, dtype })
            },
        },
    }
}

/// The first entry for an evaluation of a tensor, from `i` on.
pub open spec fn entry_at(s: Seq<EntryModel>, name: Seq<char>, occurrence: nat, i: int) -> Option<
    int,
>
    decreases s.len() - i,
{
    if i < 0 || i >= s.len() {
        None
    } else if s[i].name == name && s[i].occurrence == occurrence {
        Some(i)
    } else {
        entry_at(s, name, occurrence, i + 1)
    }
}

/// The entries with one more: a later row for the same evaluation of the same
/// tensor takes the place of the earlier one.
pub open spec fn with_entry(s: Seq<EntryModel>, e: EntryModel) -> Seq<EntryModel> {
    match entry_at(s, e.name, e.occurrence, 0) {
        Some(i) => s.update(i, e),
        None => s.push(e),
    }
}

/// The entries after the rows from `i` on, or what is wrong with the first
/// bad one. Empty rows are skipped.
pub open spec fn indexed(rows: Seq<Seq<char>>, i: int, acc: Seq<EntryModel>) -> Result<
    Seq<EntryModel>,
    Seq<char>,
>
    decreases rows.len() - i,
{
    if i < 0 || i >= rows.len() {
        Ok(acc)
    } else if rows[i].len() == 0 {
        indexed(rows, i + 1, acc)
    } else {
        match parsed_row(rows[i]) {
            Err(e) => Err(e),
            Ok(e) => indexed(rows, i + 1, with_entry(acc, e)),
        }
    }
}

/// A dump of reference tensors.
pub struct Teacher {
    pub entries: Vec<Entry>,
    /// Does the reference replace the forward's own values?
    pub force: bool,
}

/// Where an entry stands.
fn find_entry(entries: &Vec<Entry>, name: &str, occurrence: usize) -> (r: Option<usize>)
    ensures
        match r {
            Some(i) => i < entries@.len() && entry_at(
                entry_views(entries@),
                name@,
                occurrence as nat,
                0,
            ) == Some(i as int),
            None => entry_at(entry_views(entries@), name@, occurrence as nat, 0) is None,
        },
{
    let mut i: usize = 0;
    while i < entries.len()
        invariant
            i <= entries@.len(),
            entry_at(entry_views(entries@), name@, occurrence as nat, 0) == entry_at(
                entry_views(entries@),
                name@,
                occurrence as nat,
                i as int,
            ),
        decreases entries@.len() - i,
    {
        let e: &Entry = &entries[i];
        assert(entry_views(entries@)[i as int] == e@);
        if e.occurrence == occurrence && same_text(e.name.as_str(), name) {
            return Some(i);
        }
        i += 1;
    }
    None
}

impl Teacher {
    /// What the entries say.
    pub open spec fn index(self) -> Seq<EntryModel> {
        entry_views(self.entries@)
    }

    /// Read a dump's index. `force` is the setting that replaces values: `0`
    /// turns it off.
    pub fn new(text: &str, force: Option<&str>) -> (r: Result<Self, String>)
        ensures
            match r {
                Ok(t) => indexed(lines(text@), 0, Seq::empty()) == Ok::<
                    Seq<EntryModel>,
                    Seq<char>,
                >(t.index()) && t.force == (match force {
                    Some(v) => v@ != "0"@,
                    None => true,
                }),
                Err(e) => indexed(lines(text@), 0, Seq::empty()) == Err::<
                    Seq<EntryModel>,
                    Seq<char>,
                >(e@),
            },
    {
        let chars: Vec<char> = chars_of(text);
        let rows: Vec<Vec<char>> = lines_of(&chars);
        let ghost all = lines(text@);
        assert forall|k: int| 0 <= k < rows@.len() implies (#[trigger] rows@[k])@ == all[k] by {
            assert(char_lists(rows@)[k] == rows@[k]@);
        }
        assert(rows@.len() == all.len());
        let mut entries: Vec<Entry> = Vec::new();
        assert(entry_views(entries@) =~= Seq::<EntryModel>::empty());
        let mut i: usize = 0;
        while i < rows.len()
            invariant
                all == lines(text@),
                rows@.len() == all.len(),
                forall|k: int| 0 <= k < rows@.len() ==> (#[trigger] rows@[k])@ == all[k],
                i <= rows@.len(),
                indexed(all, 0, Seq::empty()) == indexed(all, i as int, entry_views(entries@)),
            decreases rows@.len() - i,
        {
            let row: &Vec<char> = &rows[i];
            assert(row@ == all[i as int]);
            if row.len() > 0 {
                match parse_row(row) {
                    Err(m) => {
                        return Err(m);
                    },
                    Ok(e) => {
                        let ghost before = entry_views(entries@);
                        let ghost model = e@;
                        match find_entry(&entries, e.name.as_str(), e.occurrence) {
                            Some(at) => {
                                entries.set(at, e);
                                assert(entry_views(entries@) =~= before.update(at as int, model));
                            },
                            None => {
                                entries.push(e);
                                assert(entry_views(entries@) =~= before.push(model));
                            },
                        }
                        assert(entry_views(entries@) == with_entry(before, model));
                    },
                }
            }
            i += 1;
        }
        let on: bool = match force {
            Some(v) => !same_text(v, "0"),
            None => true,
        };
        Ok(Teacher { entries, force: on })
    }

    /// The entry of an evaluation of a tensor, where the dump has its values
    /// in single precision.
    pub open spec fn source(self, name: Seq<char>, occurrence: nat) -> Option<EntryModel> {
        match entry_at(self.index(), name, occurrence, 0) {
            Some(i) => if self.index()[i].dtype == "f32"@ {
                Some(self.index()[i])
            } else {
                None
            },
            None => None,
        }
    }

    /// The file of an evaluation of a tensor and how many values it holds.
    pub fn file_of(&self, name: &str, occurrence: usize) -> (r: Option<(String, usize)>)
        ensures
            match r {
                Some(f) => self.source(name@, occurrence as nat) matches Some(e) && f.0@
                    == dump_name(e.seq) && f.1 == e.elems,
                None => self.source(name@, occurrence as nat) is None,
            },
    {
        match find_entry(&self.entries, name, occurrence) {
            None => None,
            Some(i) => {
                let e: &Entry = &self.entries[i];
                assert(self.index()[i as int] == e@);
                if !same_text(e.dtype.as_str(), "f32") {
                    return None;
                }
                Some((dump_file(e.seq), e.elems))
            },
        }
    }
}

/// Leading zeros up to five digits.
pub open spec fn zeros(n: nat) -> Seq<char> {
    if n < 10 {
        "0000"@
    } else if n < 100 {
        "000"@
    } else if n < 1000 {
        "00"@
    } else if n < 10000 {
        "0"@
    } else {
        ""@
    }
}

/// The name of a dump file: its number with at least five digits.
pub open spec fn dump_name(seq: nat) -> Seq<char> {
    zeros(seq) + decimal(seq) + ".bin"@
}

/// The name of a dump file.
fn dump_file(seq: usize) -> (r: String)
    ensures
        r@ == dump_name(seq as nat),
{
    let mut m: String = if seq < 10 {
        "0000".to_owned()
    } else if seq < 100 {
        "000".to_owned()
    } else if seq < 1000 {
        "00".to_owned()
    } else if seq < 10000 {
        "0".to_owned()
    } else {
        "".to_owned()
    };
    push_decimal(&mut m, seq as u64);
    m.append(".bin");
    m
}

/// A later row for the same evaluation is the one that counts, and rows for
/// anything else are not touched.
pub proof fn the_last_row_counts(s: Seq<EntryModel>, e: EntryModel, name: Seq<char>, occ: nat)
    ensures
        ({
            let t = with_entry(s, e);
            let at = entry_at(t, e.name, e.occurrence, 0);
            at is Some && 0 <= at->0 < t.len() && t[at->0] == e
        }),
        (name != e.name || occ != e.occurrence) ==> ({
            let t = with_entry(s, e);
            match entry_at(s, name, occ, 0) {
                Some(i) => entry_at(t, name, occ, 0) == Some(i) && 0 <= i < s.len() && t[i]
                    == s[i],
                None => entry_at(t, name, occ, 0) is None,
            }
        }),
{
    lemma_entry_at(s, e.name, e.occurrence, 0);
    lemma_with_entry(s, e, e.name, e.occurrence, 0);
    lemma_entry_at(s, name, occ, 0);
    lemma_with_entry(s, e, name, occ, 0);
}

/// A found entry is in range and the one looked for.
proof fn lemma_entry_at(s: Seq<EntryModel>, name: Seq<char>, occ: nat, i: int)
    requires
        0 <= i <= s.len(),
    ensures
        match entry_at(s, name, occ, i) {
            Some(j) => i <= j < s.len() && s[j].name == name && s[j].occurrence == occ,
            None => forall|k: int|
                i <= k < s.len() ==> !(#[trigger] s[k].name == name && s[k].occurrence == occ),
        },
    decreases s.len() - i,
{
    if i < s.len() {
        lemma_entry_at(s, name, occ, i + 1);
    }
}

/// Looking past `i` after an entry was put in.
proof fn lemma_with_entry(s: Seq<EntryModel>, e: EntryModel, name: Seq<char>, occ: nat, i: int)
    requires
        0 <= i <= s.len(),
    ensures
        ({
            let t = with_entry(s, e);
            let own = name == e.name && occ == e.occurrence;
            &&& !own ==> entry_at(t, name, occ, i) == entry_at(s, name, occ, i)
            &&& own && entry_at(s, name, occ, 0) is Some && i <= entry_at(s, name, occ, 0)->0
                ==> entry_at(t, name, occ, i) == entry_at(s, name, occ, 0)
            &&& own && entry_at(s, name, occ, 0) is None ==> entry_at(t, name, occ, i) == Some(
                s.len() as int,
            )
        }),
    decreases s.len() - i,
{
    lemma_entry_at(s, name, occ, 0);
    lemma_entry_at(s, e.name, e.occurrence, 0);
    if i < s.len() {
        lemma_with_entry(s, e, name, occ, i + 1);
        if entry_at(s, name, occ, 0) is Some && i < entry_at(s, name, occ, 0)->0 {
            lemma_before(s, name, occ, 0, i);
        }
    }
}

/// No entry before the first one is the one looked for.
proof fn lemma_before(s: Seq<EntryModel>, name: Seq<char>, occ: nat, from: int, k: int)
    requires
        0 <= from <= k,
        entry_at(s, name, occ, from) matches Some(j) && k < j < s.len(),
    ensures
        !(s[k].name == name && s[k].occurrence == occ),
    decreases k - from,
{
    if from < k {
        lemma_before(s, name, occ, from + 1, k);
    }
}

/// The dumped values of a tensor by bit pattern, or the complaint that the
/// file has another length.
pub fn values(name: &str, elems: usize, bytes: &Vec<u8>) -> (r: Result<Vec<u32>, String>)
    ensures
        match r {
            Ok(v) => bytes@.len() == elems * 4 && v@ == words_of(bytes@),
            Err(e) => bytes@.len() != elems * 4 && e@ == "teacher "@ + name@ + ": byte count"@,
        },
{
    if bytes.len() % 4 != 0 || bytes.len() / 4 != elems {
        let mut m: String = String::new();
        m.append("teacher ");
        m.append(name);
        m.append(": byte count");
        return Err(m);
    }
    Ok(le_words(bytes))
}

/// Where a reference of `reference` values lies over `ours` values of rows
/// `w` wide: over all of them, or over the last row when the reference kept
/// only that.
pub open spec fn overlap(ours: nat, reference: nat, rows: nat, w: nat) -> Option<int> {
    if reference == ours {
        Some(0)
    } else if reference == w && rows > 1 {
        Some(ours - w)
    } else {
        None
    }
}

/// Where a reference lies over our values `[b, tokens, w]`; `None` skips the
/// comparison.
pub fn teach_start(reference: usize, b: usize, tokens: usize, w: usize) -> (r: Option<usize>)
    requires
        b * tokens <= usize::MAX,
        b * tokens * w <= usize::MAX,
    ensures
        match r {
            Some(s) => overlap(
                (b * tokens * w) as nat,
                reference as nat,
                (b * tokens) as nat,
                w as nat,
            ) == Some(s as int),
            None => overlap(
                (b * tokens * w) as nat,
                reference as nat,
                (b * tokens) as nat,
                w as nat,
            ) is None,
        },
        r matches Some(s) ==> s + reference == b * tokens * w,
{
    let rows: usize = b * tokens;
    let ours: usize = rows * w;
    if reference == ours {
        Some(0)
    } else if reference == w && rows > 1 {
        assert(w <= ours) by (nonlinear_arith)
            requires
                rows > 1,
                ours == rows * w,
        ;
        Some(ours - w)
    } else {
        None
    }
}

/// Our values with the reference placed over them from `start` on, when
/// values are replaced.
pub fn teach_values(force: bool, ours: &Vec<u32>, reference: &Vec<u32>, start: usize) -> (r: Vec<
    u32,
>)
    requires
        start + reference@.len() == ours@.len(),
    ensures
        r@ == if force {
            ours@.take(start as int) + reference@
        } else {
            ours@
        },
{
    let n: usize = ours.len();
    let mut out: Vec<u32> = Vec::new();
    let mut i: usize = 0;
    let ghost want = if force {
        ours@.take(start as int) + reference@
    } else {
        ours@
    };
    while i < n
        invariant
            n == ours@.len(),
            start + reference@.len() == ours@.len(),
            want == (if force {
                ours@.take(start as int) + reference@
            } else {
                ours@
            }),
            i <= n,
            out@.len() == i,
            forall|k: int| 0 <= k < i ==> (#[trigger] out@[k]) == want[k],
        decreases n - i,
    {
        if force && i >= start {
            out.push(reference[i - start]);
        } else {
            out.push(ours[i]);
        }
        i += 1;
    }
    assert(out@ =~= want);
    out
}

/// The names of the three tensors whose sum is a block's output: the previous
/// layer's residual, the gated value and the convolution.
pub open spec fn ple_out_names(layer: nat) -> (Seq<char>, Seq<char>, Seq<char>) {
    (
        if layer == 0 {
            "hc_init"@
        } else {
            "l_last-"@ + decimal((layer - 1) as nat)
        },
        "ple_gated_value-"@ + decimal(layer),
        "ple_conv_out-"@ + decimal(layer),
    )
}

/// The names of the three tensors whose sum is a block's output.
pub fn teach_ple_out(layer: usize) -> (r: (String, String, String))
    ensures
        (r.0@, r.1@, r.2@) == ple_out_names(layer as nat),
{
    let mut hidden: String = String::new();
    if layer == 0 {
        hidden.append("hc_init");
    } else {
        hidden.append("l_last-");
        push_decimal(&mut hidden, (layer - 1) as u64);
    }
    let mut gated: String = String::new();
    gated.append("ple_gated_value-");
    push_decimal(&mut gated, layer as u64);
    let mut conv: String = String::new();
    conv.append("ple_conv_out-");
    push_decimal(&mut conv, layer as u64);
    (hidden, gated, conv)
}

} // verus!
