//! The Hadamard weight basis: the activation-side half of a rotation folded
//! into stored weights.
//!
//! A checkpoint can store each linear weight in a rotated basis. The rotation
//! is blockwise: the input axis is cut into blocks, each multiplied by a fixed
//! sign per position and then by the normalized Sylvester Walsh-Hadamard
//! matrix, whose entry `(i, j)` is negative exactly when `i` and `j` share an
//! odd number of set bits.
//!
//! The header declares the contract under `prism.hadamard.*`. An unknown or
//! unverifiable contract is a load error, never a silently unrotated forward.

use crate::gguf::{non_negative, non_negative_of, GgufFile, GgufValue};
use crate::order::texts;
use crate::text::{
    debug_text, decimal, decimal_signed, occurs_at, push_debug, push_decimal, push_decimal_signed,
    same_text, starts_with_text,
};
use vstd::arithmetic::div_mod::{
    lemma_fundamental_div_mod, lemma_fundamental_div_mod_converse, lemma_mod_bound,
};
use vstd::arithmetic::mul::lemma_mul_inequality;
use vstd::prelude::*;

verus! {

/// The only contract version that is implemented.
pub const VERSION: u64 = 1;

/// The full metadata key for `k`.
pub open spec fn key_of(k: Seq<char>) -> Seq<char> {
    "prism.hadamard."@ + k
}

/// The full metadata key for `k`.
fn key(k: &str) -> (r: String)
    ensures
        r@ == key_of(k@),
{
    let mut s: String = String::new();
    s.append("prism.hadamard.");
    s.append(k);
    s
}

/// "prism.hadamard.`k`" and a complaint.
fn complain(k: &str, complaint: &str) -> (r: String)
    ensures
        r@ == key_of(k@) + complaint@,
{
    let mut s: String = key(k);
    s.append(complaint);
    s
}

/// `prism.hadamard.<k>` as a string.
pub open spec fn str_of(f: GgufFile, k: Seq<char>) -> Result<Seq<char>, Seq<char>> {
    match f.value(key_of(k)) {
        Some(v) => match v.text() {
            Some(s) => Ok(s),
            None => Err(key_of(k) + " missing or not a string"@),
        },
        None => Err(key_of(k) + " missing or not a string"@),
    }
}

/// `prism.hadamard.<k>` as a string.
fn str_key<'a>(f: &'a GgufFile, k: &str) -> (r: Result<&'a str, String>)
    ensures
        match r {
            Ok(s) => str_of(*f, k@) == Ok::<_, Seq<char>>(s@),
            Err(e) => str_of(*f, k@) == Err::<Seq<char>, _>(e@),
        },
{
    match f.get(key(k).as_str()) {
        Some(v) => match v.as_str() {
            Some(s) => Ok(s),
            None => Err(complain(k, " missing or not a string")),
        },
        None => Err(complain(k, " missing or not a string")),
    }
}

/// `prism.hadamard.<k>` as an unsigned integer (a non-negative signed value
/// counts).
pub open spec fn uint_of(f: GgufFile, k: Seq<char>) -> Result<u64, Seq<char>> {
    match f.value(key_of(k)) {
        None => Err(key_of(k) + " missing"@),
        Some(v) => match non_negative_of(v) {
            Some(u) => Ok(u),
            None => Err(key_of(k) + " is not an integer"@),
        },
    }
}

/// `prism.hadamard.<k>` as an unsigned integer.
fn uint_key(f: &GgufFile, k: &str) -> (r: Result<u64, String>)
    ensures
        match r {
            Ok(u) => uint_of(*f, k@) == Ok::<_, Seq<char>>(u),
            Err(e) => uint_of(*f, k@) == Err::<u64, _>(e@),
        },
{
    match f.get(key(k).as_str()) {
        None => Err(complain(k, " missing")),
        Some(v) => match non_negative(v) {
            Some(u) => Ok(u),
            None => Err(complain(k, " is not an integer")),
        },
    }
}

/// Is every element a string?
pub open spec fn all_texts(vals: Seq<GgufValue>) -> bool {
    forall|i: int| 0 <= i < vals.len() ==> (#[trigger] vals[i]).text() is Some
}

/// The strings of a list of string elements.
pub open spec fn texts_of(vals: Seq<GgufValue>) -> Seq<Seq<char>> {
    Seq::new(vals.len(), |i: int| vals[i].text()->0)
}

/// `prism.hadamard.<k>` as a string array; an absent key is empty unless
/// `required`.
pub open spec fn strs_of(f: GgufFile, k: Seq<char>, required: bool) -> Result<
    Seq<Seq<char>>,
    Seq<char>,
> {
    match f.value(key_of(k)) {
        None => if required {
            Err(key_of(k) + " missing"@)
        } else {
            Ok(Seq::empty())
        },
        Some(v) => match v.elements() {
            None => Err(key_of(k) + " is not an array"@),
            Some(vals) => if all_texts(vals) {
                Ok(texts_of(vals))
            } else {
                Err(key_of(k) + " holds a non-string"@)
            },
        },
    }
}

/// `prism.hadamard.<k>` as a string array.
fn str_array(f: &GgufFile, k: &str, required: bool) -> (r: Result<Vec<String>, String>)
    ensures
        match r {
            Ok(v) => strs_of(*f, k@, required) == Ok::<_, Seq<char>>(texts(v@)),
            Err(e) => strs_of(*f, k@, required) == Err::<Seq<Seq<char>>, _>(e@),
        },
{
    let mut out: Vec<String> = Vec::new();
    let v: &GgufValue = match f.get(key(k).as_str()) {
        None => {
            if required {
                return Err(complain(k, " missing"));
            }
            assert(texts(out@) =~= Seq::<Seq<char>>::empty());
            return Ok(out);
        },
        Some(v) => v,
    };
    let vals: &Vec<GgufValue> = match v.as_array() {
        None => {
            return Err(complain(k, " is not an array"));
        },
        Some(a) => a,
    };
    let mut i: usize = 0;
    while i < vals.len()
        invariant
            i <= vals@.len(),
            f.value(key_of(k@)) == Some(*v),
            v.elements() == Some(vals@),
            out@.len() == i,
            forall|q: int| 0 <= q < i ==> (#[trigger] vals@[q]).text() is Some,
            forall|q: int| 0 <= q < i ==> (#[trigger] out@[q])@ == vals@[q].text()->0,
        decreases vals@.len() - i,
    {
        match vals[i].as_str() {
            Some(s) => {
                out.push(s.to_owned());
            },
            None => {
                assert(!all_texts(vals@));
                return Err(complain(k, " holds a non-string"));
            },
        }
        i += 1;
    }
    assert(texts(out@) =~= texts_of(vals@));
    Ok(out)
}

/// An integer element as a signed integer.
pub open spec fn int_of(v: GgufValue) -> Option<i64> {
    match v.signed() {
        Some(i) => Some(i),
        None => match v.unsigned() {
            Some(u) => if u <= i64::MAX {
                Some(u as i64)
            } else {
                None
            },
            None => None,
        },
    }
}

/// An integer element as a signed integer.
fn int_value(v: &GgufValue) -> (r: Option<i64>)
    ensures
        r == int_of(*v),
{
    match v.as_i64() {
        Some(i) => Some(i),
        None => match v.as_u64() {
            Some(u) => if u <= i64::MAX as u64 {
                Some(u as i64)
            } else {
                None
            },
            None => None,
        },
    }
}

/// Is every element an integer?
pub open spec fn all_ints(vals: Seq<GgufValue>) -> bool {
    forall|i: int| 0 <= i < vals.len() ==> int_of(#[trigger] vals[i]) is Some
}

/// `prism.hadamard.<k>` as an integer array.
pub open spec fn ints_of(f: GgufFile, k: Seq<char>) -> Result<Seq<i64>, Seq<char>> {
    match f.value(key_of(k)) {
        None => Err(key_of(k) + " missing"@),
        Some(v) => match v.elements() {
            None => Err(key_of(k) + " is not an array"@),
            Some(vals) => if all_ints(vals) {
                Ok(Seq::new(vals.len(), |i: int| int_of(vals[i])->0))
            } else {
                Err(key_of(k) + " holds a non-integer"@)
            },
        },
    }
}

/// `prism.hadamard.<k>` as an integer array.
fn int_array(f: &GgufFile, k: &str) -> (r: Result<Vec<i64>, String>)
    ensures
        match r {
            Ok(v) => ints_of(*f, k@) == Ok::<_, Seq<char>>(v@),
            Err(e) => ints_of(*f, k@) == Err::<Seq<i64>, _>(e@),
        },
{
    let v: &GgufValue = match f.get(key(k).as_str()) {
        None => {
            return Err(complain(k, " missing"));
        },
        Some(v) => v,
    };
    let vals: &Vec<GgufValue> = match v.as_array() {
        None => {
            return Err(complain(k, " is not an array"));
        },
        Some(a) => a,
    };
    let mut out: Vec<i64> = Vec::new();
    let mut i: usize = 0;
    while i < vals.len()
        invariant
            i <= vals@.len(),
            f.value(key_of(k@)) == Some(*v),
            v.elements() == Some(vals@),
            out@.len() == i,
            forall|q: int| 0 <= q < i ==> int_of(#[trigger] vals@[q]) is Some,
            forall|q: int| 0 <= q < i ==> (#[trigger] out@[q]) == int_of(vals@[q])->0,
        decreases vals@.len() - i,
    {
        match int_value(&vals[i]) {
            Some(n) => {
                out.push(n);
            },
            None => {
                assert(!all_ints(vals@));
                return Err(complain(k, " holds a non-integer"));
            },
        }
        i += 1;
    }
    assert(out@ =~= Seq::new(vals@.len(), |q: int| int_of(vals@[q])->0));
    Ok(out)
}

/// The signs of one input width: 1 or -1 per position.
#[derive(Debug)]
pub struct SignRow {
    pub width: usize,
    pub signs: Vec<i8>,
}

/// A row of signs by content.
#[verifier::ext_equal]
pub struct SignModel {
    pub width: usize,
    pub signs: Seq<i8>,
}

/// The content of a list of sign rows.
pub open spec fn sign_models(v: Seq<SignRow>) -> Seq<SignModel> {
    v.map(|i: int, r: SignRow| SignModel { width: r.width, signs: r.signs@ })
}

/// Is there a row of this width?
pub open spec fn has_width(rows: Seq<SignModel>, width: usize) -> bool {
    exists|i: int| 0 <= i < rows.len() && (#[trigger] rows[i]).width == width
}

/// Row `i` is the row of a width.
pub open spec fn is_row_of(rows: Seq<SignModel>, width: usize, i: int) -> bool {
    &&& 0 <= i < rows.len()
    &&& rows[i].width == width
    &&& forall|k: int| 0 <= k < i ==> (#[trigger] rows[k]).width != width
}

/// The first value from `at` on, before `end`, that is no sign.
pub open spec fn first_unsigned(values: Seq<i64>, at: int, end: int) -> Option<int>
    decreases end - at,
{
    if at < 0 || at >= end || at >= values.len() {
        None
    } else if values[at] != 1 && values[at] != -1 {
        Some(at)
    } else {
        first_unsigned(values, at + 1, end)
    }
}

/// The sign table from width `i` and value `off` on, after the rows `got`.
pub open spec fn signs_from(
    widths: Seq<i64>,
    values: Seq<i64>,
    block: nat,
    i: int,
    off: int,
    got: Seq<SignModel>,
) -> Result<Seq<SignModel>, Seq<char>>
    decreases widths.len() - i,
{
    if i < 0 || i >= widths.len() {
        if off != values.len() {
            Err("prism.hadamard.sign_values length does not match sign_widths"@)
        } else {
            Ok(got)
        }
    } else {
        let w = widths[i];
        let end = off + w;
        if w <= 0 || w > usize::MAX || w as int % block as int != 0 {
            Err(
                "prism.hadamard sign width "@ + decimal_signed(w as int)
                    + " is not a positive multiple of the block "@ + decimal(block),
            )
        } else if end > values.len() {
            Err("prism.hadamard.sign_values is shorter than sign_widths declares"@)
        } else if let Some(bad) = first_unsigned(values, off, end) {
            Err(
                "prism.hadamard sign value "@ + decimal_signed(values[bad] as int)
                    + " is not ±1"@,
            )
        } else if has_width(got, w as usize) {
            Err("prism.hadamard declares width "@ + decimal(w as nat) + " twice"@)
        } else {
            signs_from(
                widths,
                values,
                block,
                i + 1,
                end,
                got.push(
                    SignModel {
                        width: w as usize,
                        signs: Seq::new(w as nat, |k: int| values[off + k] as i8),
                    },
                ),
            )
        }
    }
}

/// The explicit sign table: the values cut into one row of signs per width.
pub open spec fn sign_table(widths: Seq<i64>, values: Seq<i64>, block: nat) -> Result<
    Seq<SignModel>,
    Seq<char>,
> {
    if widths.len() == 0 {
        Err("prism.hadamard.sign_mode is explicit but sign_widths is empty"@)
    } else {
        signs_from(widths, values, block, 0, 0, Seq::empty())
    }
}

/// The explicit sign table: `values` cut into one row of signs per width,
/// each width a positive multiple of `block`.
pub fn explicit_signs(widths: &Vec<i64>, values: &Vec<i64>, block: usize) -> (r: Result<
    Vec<SignRow>,
    String,
>)
    requires
        block > 0,
    ensures
        match r {
            Ok(v) => sign_table(widths@, values@, block as nat) == Ok::<_, Seq<char>>(
                sign_models(v@),
            ),
            Err(e) => sign_table(widths@, values@, block as nat) == Err::<Seq<SignModel>, _>(e@),
        },
{
    if widths.len() == 0 {
        return Err("prism.hadamard.sign_mode is explicit but sign_widths is empty".to_owned());
    }
    let ghost goal = sign_table(widths@, values@, block as nat);
    let mut rows: Vec<SignRow> = Vec::new();
    let mut off: usize = 0;
    let mut i: usize = 0;
    assert(sign_models(rows@) =~= Seq::<SignModel>::empty());
    while i < widths.len()
        invariant
            block > 0,
            widths@.len() > 0,
            goal == sign_table(widths@, values@, block as nat),
            i <= widths@.len(),
            off <= values@.len(),
            goal == signs_from(
                widths@,
                values@,
                block as nat,
                i as int,
                off as int,
                sign_models(rows@),
            ),
        decreases widths@.len() - i,
    {
        let w: i64 = widths[i];
        let fits: bool = w > 0 && w as u64 <= usize::MAX as u64 && (w as usize) % block == 0;
        if !fits {
            let mut m: String = String::new();
            m.append("prism.hadamard sign width ");
            push_decimal_signed(&mut m, w);
            m.append(" is not a positive multiple of the block ");
            push_decimal(&mut m, block as u64);
            return Err(m);
        }
        let width: usize = w as usize;
        if width > values.len() - off {
            return Err(
                "prism.hadamard.sign_values is shorter than sign_widths declares".to_owned(),
            );
        }
        let end: usize = off + width;
        let mut signs: Vec<i8> = Vec::new();
        let mut k: usize = off;
        while k < end
            invariant
                off <= k <= end <= values@.len(),
                end == off + width,
                signs@.len() == k - off,
                forall|q: int| 0 <= q < signs@.len() ==> (#[trigger] signs@[q]) == values@[off
                    + q] as i8,
                first_unsigned(values@, off as int, end as int) == first_unsigned(
                    values@,
                    k as int,
                    end as int,
                ),
                goal == signs_from(
                    widths@,
                    values@,
                    block as nat,
                    i as int,
                    off as int,
                    sign_models(rows@),
                ),
                goal == sign_table(widths@, values@, block as nat),
                i < widths@.len(),
                w == widths@[i as int],
                w == width,
                w > 0,
                w as int % block as int == 0,
            decreases end - k,
        {
            let v: i64 = values[k];
            if v == 1 {
                signs.push(1);
            } else if v == -1 {
                signs.push(-1);
            } else {
                let mut m: String = String::new();
                m.append("prism.hadamard sign value ");
                push_decimal_signed(&mut m, v);
                m.append(" is not ±1");
                return Err(m);
            }
            k += 1;
        }
        if find_width(&rows, width).is_some() {
            let mut m: String = String::new();
            m.append("prism.hadamard declares width ");
            push_decimal(&mut m, width as u64);
            m.append(" twice");
            return Err(m);
        }
        let ghost before = sign_models(rows@);
        let ghost row = SignModel {
            width,
            signs: Seq::new(w as nat, |q: int| values@[off + q] as i8),
        };
        proof {
            assert(signs@ =~= row.signs);
        }
        rows.push(SignRow { width, signs });
        assert(sign_models(rows@) =~= before.push(row));
        off = end;
        i += 1;
    }
    if off != values.len() {
        return Err("prism.hadamard.sign_values length does not match sign_widths".to_owned());
    }
    Ok(rows)
}

/// The place of the row of a width.
fn find_width(rows: &Vec<SignRow>, width: usize) -> (r: Option<usize>)
    ensures
        match r {
            Some(i) => is_row_of(sign_models(rows@), width, i as int) && has_width(
                sign_models(rows@),
                width,
            ),
            None => !has_width(sign_models(rows@), width),
        },
{
    let mut i: usize = 0;
    while i < rows.len()
        invariant
            i <= rows@.len(),
            forall|k: int| 0 <= k < i ==> (#[trigger] rows@[k]).width != width,
        decreases rows@.len() - i,
    {
        if rows[i].width == width {
            assert(sign_models(rows@)[i as int].width == width);
            assert forall|k: int| 0 <= k < i implies (
            #[trigger] sign_models(rows@)[k]).width != width by {
                assert(rows@[k].width != width);
            }
            return Some(i);
        }
        i += 1;
    }
    proof {
        if has_width(sign_models(rows@), width) {
            let k = choose|k: int|
                0 <= k < sign_models(rows@).len() && (#[trigger] sign_models(rows@)[k]).width
                    == width;
            assert(rows@[k].width == width);
        }
    }
    None
}

/// Is the number a power of two?
pub open spec fn power_of_two(n: nat) -> bool
    decreases n,
{
    n == 1 || (n > 1 && n % 2 == 0 && power_of_two(n / 2))
}

/// Is the number a power of two?
pub fn is_power_of_two(n: usize) -> (r: bool)
    ensures
        r == power_of_two(n as nat),
{
    let mut k: usize = n;
    while k > 1 && k % 2 == 0
        invariant
            power_of_two(n as nat) == power_of_two(k as nat),
        decreases k,
    {
        k = k / 2;
    }
    k == 1
}

/// The first name from `i` on that stands among the names before it.
pub open spec fn first_repeat(v: Seq<Seq<char>>, i: int) -> Option<int>
    decreases v.len() - i,
{
    if i < 0 || i >= v.len() {
        None
    } else if v.take(i).contains(v[i]) {
        Some(i)
    } else {
        first_repeat(v, i + 1)
    }
}

/// The first name from `i` on that is listed among `weights` or stands among
/// the names before it.
pub open spec fn first_clash(weights: Seq<Seq<char>>, v: Seq<Seq<char>>, i: int) -> Option<int>
    decreases v.len() - i,
{
    if i < 0 || i >= v.len() {
        None
    } else if weights.contains(v[i]) || v.take(i).contains(v[i]) {
        Some(i)
    } else {
        first_clash(weights, v, i + 1)
    }
}

/// Does a name stand among the first `n`?
fn named_before(v: &Vec<String>, n: usize, name: &str) -> (r: bool)
    requires
        n <= v@.len(),
    ensures
        r == texts(v@).take(n as int).contains(name@),
{
    let mut i: usize = 0;
    while i < n
        invariant
            i <= n <= v@.len(),
            forall|k: int| 0 <= k < i ==> (#[trigger] v@[k])@ != name@,
        decreases n - i,
    {
        if same_text(v[i].as_str(), name) {
            assert(texts(v@).take(n as int)[i as int] == name@);
            return true;
        }
        i += 1;
    }
    proof {
        let t = texts(v@).take(n as int);
        if t.contains(name@) {
            let k = choose|k: int| 0 <= k < t.len() && t[k] == name@;
            assert(v@[k]@ == name@);
        }
    }
    false
}

/// The value of the grouped-heads flag, or why it is refused.
pub open spec fn grouped_flag(f: GgufFile) -> Result<bool, Seq<char>> {
    match f.value(key_of("gdn_v_grouped"@)) {
        None => Ok(false),
        Some(GgufValue::Bool(b)) => Ok(b),
        Some(v) => match v.unsigned() {
            Some(u) => Ok(u != 0),
            None => match v.signed() {
                Some(i) => Ok(i != 0),
                None => Err("prism.hadamard.gdn_v_grouped is not a bool"@),
            },
        },
    }
}

/// The contract as a header declares it.
#[derive(Debug)]
pub struct HadamardSpec {
    /// Width of one rotated block along the input axis (a power of two).
    pub block: usize,
    /// Per input width, the signs applied before the transform. Empty in
    /// identity mode.
    pub signs: Vec<SignRow>,
    /// Names of the folded weights: their matmul input is transformed.
    pub weights: Vec<String>,
    /// Names of lookup tables stored rotated: the lookup result is
    /// inverse-transformed.
    pub inverses: Vec<String>,
    /// The output fold was computed over grouped value heads.
    pub gdn_v_grouped: bool,
}

/// The contract by content.
#[verifier::ext_equal]
pub struct ContractModel {
    pub block: usize,
    pub signs: Seq<SignModel>,
    pub weights: Seq<Seq<char>>,
    pub inverses: Seq<Seq<char>>,
    pub gdn_v_grouped: bool,
}

impl View for HadamardSpec {
    type V = ContractModel;

    open spec fn view(&self) -> ContractModel {
        ContractModel {
            block: self.block,
            signs: sign_models(self.signs@),
            weights: texts(self.weights@),
            inverses: texts(self.inverses@),
            gdn_v_grouped: self.gdn_v_grouped,
        }
    }
}

/// The signs a header declares.
pub open spec fn declared_signs(f: GgufFile, block: nat) -> Result<Seq<SignModel>, Seq<char>> {
    match str_of(f, "sign_mode"@) {
        Err(e) => Err(e),
        Ok(mode) => if mode == "identity"@ {
            Ok(Seq::empty())
        } else if mode == "explicit"@ {
            match ints_of(f, "sign_widths"@) {
                Err(e) => Err(e),
                Ok(widths) => match ints_of(f, "sign_values"@) {
                    Err(e) => Err(e),
                    Ok(values) => sign_table(widths, values, block),
                },
            }
        } else {
            Err(
                "prism.hadamard.sign_mode "@ + debug_text(mode)
                    + " is not supported (identity or explicit)"@,
            )
        },
    }
}

/// `(folded weights, rotated tables)` a header declares.
pub open spec fn declared_names(f: GgufFile) -> Result<
    (Seq<Seq<char>>, Seq<Seq<char>>),
    Seq<char>,
> {
    match strs_of(f, "weight_names"@, true) {
        Err(e) => Err(e),
        Ok(weights) => if weights.len() == 0 {
            Err("prism.hadamard.weight_names is empty"@)
        } else {
            match first_repeat(weights, 0) {
                Some(i) => Err(
                    "prism.hadamard.weight_names lists "@ + debug_text(weights[i]) + " twice"@,
                ),
                None => match strs_of(f, "inverse_weight_names"@, false) {
                    Err(e) => Err(e),
                    Ok(inverses) => match first_clash(weights, inverses, 0) {
                        Some(i) => Err(
                            "prism.hadamard lists "@ + debug_text(inverses[i]) + " twice"@,
                        ),
                        None => Ok((weights, inverses)),
                    },
                },
            }
        },
    }
}

/// The block a header declares, with the version, transform and axis it must
/// name.
pub open spec fn declared_block(f: GgufFile) -> Result<usize, Seq<char>> {
    match uint_of(f, "version"@) {
        Err(e) => Err(e),
        Ok(version) => if version != VERSION {
            Err(
                "prism.hadamard.version "@ + decimal(version as nat)
                    + " is not supported (this runtime implements "@ + decimal(VERSION as nat)
                    + ")"@,
            )
        } else {
            match uint_of(f, "block_size"@) {
                Err(e) => Err(e),
                Ok(block) => if block > usize::MAX {
                    Err("block_size too large"@)
                } else if !power_of_two(block as nat) {
                    Err(
                        "prism.hadamard.block_size "@ + decimal(block as nat)
                            + " is not a power of two"@,
                    )
                } else {
                    match str_of(f, "transform"@) {
                        Err(e) => Err(e),
                        Ok(t) => if t != "normalized-sylvester-walsh-hadamard"@ {
                            Err(
                                "prism.hadamard.transform "@ + debug_text(t)
                                    + " is not supported (only normalized-sylvester-walsh-hadamard)"@,
                            )
                        } else {
                            match str_of(f, "axis"@) {
                                Err(e) => Err(e),
                                Ok(a) => if a != "input-last-dimension"@ {
                                    Err(
                                        "prism.hadamard.axis "@ + debug_text(a)
                                            + " is not supported (only input-last-dimension)"@,
                                    )
                                } else {
                                    Ok(block as usize)
                                },
                            }
                        },
                    }
                },
            }
        },
    }
}

/// Does a header hold any key of the contract?
pub open spec fn declares(f: GgufFile) -> bool {
    exists|i: int| 0 <= i < f.metadata@.len() && is_key(#[trigger] f.metadata@[i])
}

/// Is this metadata part of the contract?
pub open spec fn is_key(entry: (String, GgufValue)) -> bool {
    occurs_at(entry.0@, "prism.hadamard."@, 0)
}

/// The contract a header declares: none at all, one that can be honoured, or
/// why it cannot.
pub open spec fn declared(f: GgufFile) -> Result<Option<ContractModel>, Seq<char>> {
    if !declares(f) {
        Ok(None)
    } else {
        match declared_block(f) {
            Err(e) => Err(e),
            Ok(block) => match declared_signs(f, block as nat) {
                Err(e) => Err(e),
                Ok(signs) => match declared_names(f) {
                    Err(e) => Err(e),
                    Ok(names) => match grouped_flag(f) {
                        Err(e) => Err(e),
                        Ok(gdn_v_grouped) => Ok(
                            Some(
                                ContractModel {
                                    block,
                                    signs,
                                    weights: names.0,
                                    inverses: names.1,
                                    gdn_v_grouped,
                                },
                            ),
                        ),
                    },
                },
            },
        }
    }
}

/// Does a header hold any key of the contract?
fn declared_in(f: &GgufFile) -> (r: bool)
    ensures
        r == declares(*f),
{
    let mut i: usize = 0;
    while i < f.metadata.len()
        invariant
            i <= f.metadata@.len(),
            forall|k: int| 0 <= k < i ==> !is_key(#[trigger] f.metadata@[k]),
        decreases f.metadata@.len() - i,
    {
        if starts_with_text(f.metadata[i].0.as_str(), "prism.hadamard.") {
            assert(is_key(f.metadata@[i as int]));
            return true;
        }
        i += 1;
    }
    false
}

/// A refusal that quotes what was found.
fn unsupported(head: &str, found: &str, tail: &str) -> (r: String)
    ensures
        r@ == head@ + debug_text(found@) + tail@,
{
    let mut m: String = head.to_owned();
    push_debug(&mut m, found);
    m.append(tail);
    m
}

/// Read the block, with the version, transform and axis.
fn read_block(f: &GgufFile) -> (r: Result<usize, String>)
    ensures
        match r {
            Ok(b) => declared_block(*f) == Ok::<_, Seq<char>>(b) && power_of_two(b as nat),
            Err(e) => declared_block(*f) == Err::<usize, _>(e@),
        },
{
    let version: u64 = match uint_key(f, "version") {
        Ok(v) => v,
        Err(e) => {
            return Err(e);
        },
    };
    if version != VERSION {
        let mut m: String = String::new();
        m.append("prism.hadamard.version ");
        push_decimal(&mut m, version);
        m.append(" is not supported (this runtime implements ");
        push_decimal(&mut m, VERSION);
        m.append(")");
        return Err(m);
    }
    let size: u64 = match uint_key(f, "block_size") {
        Ok(v) => v,
        Err(e) => {
            return Err(e);
        },
    };
    if size > usize::MAX as u64 {
        return Err("block_size too large".to_owned());
    }
    let block: usize = size as usize;
    if !is_power_of_two(block) {
        let mut m: String = String::new();
        m.append("prism.hadamard.block_size ");
        push_decimal(&mut m, size);
        m.append(" is not a power of two");
        return Err(m);
    }
    let transform: &str = match str_key(f, "transform") {
        Ok(s) => s,
        Err(e) => {
            return Err(e);
        },
    };
    if !same_text(transform, "normalized-sylvester-walsh-hadamard") {
        return Err(
            unsupported(
                "prism.hadamard.transform ",
                transform,
                " is not supported (only normalized-sylvester-walsh-hadamard)",
            ),
        );
    }
    let axis: &str = match str_key(f, "axis") {
        Ok(s) => s,
        Err(e) => {
            return Err(e);
        },
    };
    if !same_text(axis, "input-last-dimension") {
        return Err(
            unsupported(
                "prism.hadamard.axis ",
                axis,
                " is not supported (only input-last-dimension)",
            ),
        );
    }
    Ok(block)
}

/// Read the signs.
fn read_signs(f: &GgufFile, block: usize) -> (r: Result<Vec<SignRow>, String>)
    requires
        block > 0,
    ensures
        match r {
            Ok(v) => declared_signs(*f, block as nat) == Ok::<_, Seq<char>>(sign_models(v@)),
            Err(e) => declared_signs(*f, block as nat) == Err::<Seq<SignModel>, _>(e@),
        },
{
    let mode: &str = match str_key(f, "sign_mode") {
        Ok(s) => s,
        Err(e) => {
            return Err(e);
        },
    };
    if same_text(mode, "identity") {
        let none: Vec<SignRow> = Vec::new();
        assert(sign_models(none@) =~= Seq::<SignModel>::empty());
        return Ok(none);
    }
    if !same_text(mode, "explicit") {
        return Err(
            unsupported(
                "prism.hadamard.sign_mode ",
                mode,
                " is not supported (identity or explicit)",
            ),
        );
    }
    let widths: Vec<i64> = match int_array(f, "sign_widths") {
        Ok(v) => v,
        Err(e) => {
            return Err(e);
        },
    };
    let values: Vec<i64> = match int_array(f, "sign_values") {
        Ok(v) => v,
        Err(e) => {
            return Err(e);
        },
    };
    explicit_signs(&widths, &values, block)
}

/// Read the names.
fn read_names(f: &GgufFile) -> (r: Result<(Vec<String>, Vec<String>), String>)
    ensures
        match r {
            Ok(p) => declared_names(*f) == Ok::<_, Seq<char>>((texts(p.0@), texts(p.1@))),
            Err(e) => declared_names(*f) == Err::<(Seq<Seq<char>>, Seq<Seq<char>>), _>(e@),
        },
{
    let weights: Vec<String> = match str_array(f, "weight_names", true) {
        Ok(v) => v,
        Err(e) => {
            return Err(e);
        },
    };
    if weights.len() == 0 {
        return Err("prism.hadamard.weight_names is empty".to_owned());
    }
    let ghost listed = texts(weights@);
    let mut i: usize = 0;
    while i < weights.len()
        invariant
            i <= weights@.len(),
            weights@.len() > 0,
            listed == texts(weights@),
            strs_of(*f, "weight_names"@, true) == Ok::<_, Seq<char>>(listed),
            first_repeat(listed, 0) == first_repeat(listed, i as int),
        decreases weights@.len() - i,
    {
        assert(listed[i as int] == weights@[i as int]@);
        if named_before(&weights, i, weights[i].as_str()) {
            return Err(
                unsupported(
                    "prism.hadamard.weight_names lists ",
                    weights[i].as_str(),
                    " twice",
                ),
            );
        }
        i += 1;
    }
    let inverses: Vec<String> = match str_array(f, "inverse_weight_names", false) {
        Ok(v) => v,
        Err(e) => {
            return Err(e);
        },
    };
    let ghost tables = texts(inverses@);
    let mut k: usize = 0;
    while k < inverses.len()
        invariant
            k <= inverses@.len(),
            weights@.len() > 0,
            listed == texts(weights@),
            tables == texts(inverses@),
            strs_of(*f, "weight_names"@, true) == Ok::<_, Seq<char>>(listed),
            strs_of(*f, "inverse_weight_names"@, false) == Ok::<_, Seq<char>>(tables),
            first_repeat(listed, 0) is None,
            first_clash(listed, tables, 0) == first_clash(listed, tables, k as int),
        decreases inverses@.len() - k,
    {
        assert(tables[k as int] == inverses@[k as int]@);
        assert(listed.take(weights@.len() as int) =~= listed);
        if named_before(&weights, weights.len(), inverses[k].as_str()) || named_before(
            &inverses,
            k,
            inverses[k].as_str(),
        ) {
            return Err(
                unsupported("prism.hadamard lists ", inverses[k].as_str(), " twice"),
            );
        }
        k += 1;
    }
    Ok((weights, inverses))
}

impl HadamardSpec {
    /// Parse the contract from a header; `None` when the file holds no key of
    /// one. A contract with a key missing is refused, never left unapplied.
    pub fn from_gguf(f: &GgufFile) -> (r: Result<Option<Self>, String>)
        ensures
            match r {
                Ok(Some(s)) => declared(*f) == Ok::<_, Seq<char>>(Some(s@)),
                Ok(None) => declared(*f) == Ok::<Option<ContractModel>, Seq<char>>(None),
                Err(e) => declared(*f) == Err::<Option<ContractModel>, _>(e@),
            },
    {
        if !declared_in(f) {
            return Ok(None);
        }
        let block: usize = match read_block(f) {
            Ok(b) => b,
            Err(e) => {
                return Err(e);
            },
        };
        let signs: Vec<SignRow> = match read_signs(f, block) {
            Ok(s) => s,
            Err(e) => {
                return Err(e);
            },
        };
        let names: (Vec<String>, Vec<String>) = match read_names(f) {
            Ok(n) => n,
            Err(e) => {
                return Err(e);
            },
        };
        let gdn_v_grouped: bool = match f.get(key("gdn_v_grouped").as_str()) {
            None => false,
            Some(v) => match v.as_bool() {
                Some(b) => b,
                None => match v.as_u64() {
                    Some(u) => u != 0,
                    None => match v.as_i64() {
                        Some(i) => i != 0,
                        None => {
                            return Err("prism.hadamard.gdn_v_grouped is not a bool".to_owned());
                        },
                    },
                },
            },
        };
        Ok(
            Some(
                HadamardSpec {
                    block,
                    signs,
                    weights: names.0,
                    inverses: names.1,
                    gdn_v_grouped,
                },
            ),
        )
    }

    /// Is `name`'s matmul input transformed?
    pub fn folds(&self, name: &str) -> (r: bool)
        ensures
            r == self@.weights.contains(name@),
    {
        assert(texts(self.weights@).take(self.weights@.len() as int) =~= texts(self.weights@));
        named_before(&self.weights, self.weights.len(), name)
    }

    /// Is `name` a rotated lookup table (inverse after the gather)?
    pub fn inverts(&self, name: &str) -> (r: bool)
        ensures
            r == self@.inverses.contains(name@),
    {
        assert(texts(self.inverses@).take(self.inverses@.len() as int) =~= texts(self.inverses@));
        named_before(&self.inverses, self.inverses.len(), name)
    }

    /// The signs of an input width: `None` in identity mode; in explicit mode
    /// a width without signs is refused, because the fold would run with the
    /// wrong ones.
    pub fn signs_for(&self, width: usize) -> (r: Result<Option<&Vec<i8>>, String>)
        ensures
            match r {
                Ok(None) => self@.signs.len() == 0,
                Ok(Some(v)) => exists|i: int| #[trigger]
                    is_row_of(self@.signs, width, i) && self@.signs[i].signs == v@,
                Err(e) => self@.signs.len() > 0 && !has_width(self@.signs, width) && e@
                    == "prism.hadamard has no sign vector for width "@ + decimal(width as nat),
            },
    {
        if self.signs.len() == 0 {
            return Ok(None);
        }
        match find_width(&self.signs, width) {
            Some(i) => {
                assert(is_row_of(self@.signs, width, i as int));
                Ok(Some(&self.signs[i].signs))
            },
            None => {
                let mut m: String = String::new();
                m.append("prism.hadamard has no sign vector for width ");
                push_decimal(&mut m, width as u64);
                Err(m)
            },
        }
    }

    /// Why a row of `width` values cannot be transformed.
    pub open spec fn forward_refusal(self, width: nat) -> Option<Seq<char>> {
        if width as int % self.block as int != 0 {
            Some(
                "prism.hadamard block "@ + decimal(self.block as nat) + " does not divide width "@
                    + decimal(width),
            )
        } else if self@.signs.len() > 0 && !has_width(self@.signs, width as usize) {
            Some("prism.hadamard has no sign vector for width "@ + decimal(width))
        } else {
            None
        }
    }

    /// The signs to apply to a row of `width` values before its blocks are
    /// transformed.
    pub fn forward_host(&self, width: usize) -> (r: Result<Option<&Vec<i8>>, String>)
        requires
            self.block > 0,
        ensures
            match r {
                Err(e) => self.forward_refusal(width as nat) == Some(e@),
                Ok(None) => self.forward_refusal(width as nat) is None && self@.signs.len() == 0,
                Ok(Some(v)) => self.forward_refusal(width as nat) is None && exists|i: int| #[trigger]
                    is_row_of(self@.signs, width, i) && self@.signs[i].signs == v@,
            },
    {
        if width % self.block != 0 {
            let mut m: String = String::new();
            m.append("prism.hadamard block ");
            push_decimal(&mut m, self.block as u64);
            m.append(" does not divide width ");
            push_decimal(&mut m, width as u64);
            return Err(m);
        }
        self.signs_for(width)
    }
}

/// Do `i` and `j` share an odd number of set bits?
pub open spec fn odd_overlap(i: nat, j: nat) -> bool
    decreases i,
{
    if i == 0 {
        false
    } else {
        (i % 2 == 1 && j % 2 == 1) != odd_overlap(i / 2, j / 2)
    }
}

/// Do `i` and `j` share an odd number of set bits?
fn shares_oddly(i: usize, j: usize) -> (r: bool)
    ensures
        r == odd_overlap(i as nat, j as nat),
{
    let mut a: usize = i;
    let mut b: usize = j;
    let mut odd: bool = false;
    while a > 0
        invariant
            odd_overlap(i as nat, j as nat) == (odd != odd_overlap(a as nat, b as nat)),
        decreases a,
    {
        if a % 2 == 1 && b % 2 == 1 {
            odd = !odd;
        }
        a = a / 2;
        b = b / 2;
    }
    odd
}

/// Which entries of the Sylvester matrix of order `n` are negative, row-major:
/// entry `(i, j)` is exactly when `i` and `j` share an odd number of set bits.
/// Every entry has the magnitude `1 / sqrt(n)`.
pub fn sylvester_matrix(n: usize) -> (r: Vec<bool>)
    requires
        power_of_two(n as nat),
        n * n <= usize::MAX,
    ensures
        r@.len() == n * n,
        forall|i: int, j: int|
            0 <= i < n && 0 <= j < n ==> #[trigger] entry(r@, n as int, i, j) == odd_overlap(
                i as nat,
                j as nat,
            ),
{
    let mut h: Vec<bool> = Vec::new();
    let mut i: usize = 0;
    assert(0 * n == 0) by (nonlinear_arith);
    while i < n
        invariant
            i <= n,
            n * n <= usize::MAX,
            h@.len() == i * n,
            forall|a: int, b: int|
                0 <= a < i && 0 <= b < n ==> #[trigger] entry(h@, n as int, a, b) == odd_overlap(
                    a as nat,
                    b as nat,
                ),
        decreases n - i,
    {
        let ghost before = h@;
        let mut j: usize = 0;
        while j < n
            invariant
                i < n,
                j <= n,
                before.len() == i * n,
                h@.len() == i * n + j,
                forall|q: int| 0 <= q < before.len() ==> h@[q] == before[q],
                forall|b: int| 0 <= b < j ==> #[trigger] h@[i * n + b] == odd_overlap(
                    i as nat,
                    b as nat,
                ),
            decreases n - j,
        {
            h.push(shares_oddly(i, j));
            j += 1;
        }
        proof {
            assert((i + 1) * n == i * n + n) by (nonlinear_arith);
            assert forall|a: int, b: int|
                0 <= a < i + 1 && 0 <= b < n implies #[trigger] entry(h@, n as int, a, b)
                == odd_overlap(a as nat, b as nat) by {
                if a < i {
                    lemma_mul_inequality(a + 1, i as int, n as int);
                    assert((a + 1) * n == a * n + n) by (nonlinear_arith);
                    assert(0 <= a * n) by (nonlinear_arith)
                        requires
                            0 <= a,
                    ;
                    assert(entry(before, n as int, a, b) == odd_overlap(a as nat, b as nat));
                }
            }
        }
        i += 1;
    }
    h
}

/// Entry `(i, j)` of a row-major matrix `n` wide.
pub open spec fn entry(h: Seq<bool>, n: int, i: int, j: int) -> bool {
    h[i * n + j]
}

/// The sign of entry `(i, j)`.
pub open spec fn sign(i: nat, j: nat) -> int {
    if odd_overlap(i, j) {
        -1
    } else {
        1
    }
}

/// The matrix is symmetric.
pub proof fn the_matrix_is_symmetric(i: nat, j: nat)
    ensures
        sign(i, j) == sign(j, i),
{
    lemma_overlap_symmetric(i, j);
}

/// Sharing is mutual.
proof fn lemma_overlap_symmetric(i: nat, j: nat)
    ensures
        odd_overlap(i, j) == odd_overlap(j, i),
    decreases i + j,
{
    if i > 0 && j > 0 {
        lemma_overlap_symmetric(i / 2, j / 2);
    } else if i > 0 {
        lemma_overlap_zero(i);
    } else if j > 0 {
        lemma_overlap_zero(j);
    }
}

/// Nothing is shared with zero.
proof fn lemma_overlap_zero(i: nat)
    ensures
        !odd_overlap(i, 0),
        !odd_overlap(0, i),
    decreases i,
{
    if i > 0 {
        lemma_overlap_zero(i / 2);
    }
}

/// The dot product of rows `i` and `j` over the first `n` columns, in signs.
pub open spec fn row_dot(i: nat, j: nat, n: nat) -> int
    decreases n,
{
    if n == 0 {
        0
    } else {
        row_dot(i, j, (n - 1) as nat) + sign(i, (n - 1) as nat) * sign(j, (n - 1) as nat)
    }
}

/// A column of one twice as wide: its parity bit, and half of it.
proof fn lemma_sign_halves(i: nat, k: nat, b: nat)
    requires
        b < 2,
    ensures
        sign(i, 2 * k + b) == (if i % 2 == 1 && b == 1 {
            -sign(i / 2, k)
        } else {
            sign(i / 2, k)
        }),
{
    let c = (2 * k + b) as nat;
    assert(c / 2 == k && c % 2 == b);
    if i == 0 {
        assert(i / 2 == 0);
    }
}

/// Twice as many columns: rows of different parity cancel, rows of the same
/// parity count their halves twice.
proof fn lemma_dot_halves(i: nat, j: nat, n: nat)
    ensures
        row_dot(i, j, 2 * n) == (if i % 2 == j % 2 {
            2 * row_dot(i / 2, j / 2, n)
        } else {
            0
        }),
    decreases n,
{
    if n > 0 {
        let k = (n - 1) as nat;
        lemma_dot_halves(i, j, k);
        lemma_sign_halves(i, k, 0);
        lemma_sign_halves(i, k, 1);
        lemma_sign_halves(j, k, 0);
        lemma_sign_halves(j, k, 1);
        let last = (2 * n - 1) as nat;
        assert(last == 2 * k + 1);
        assert(row_dot(i, j, 2 * n) == row_dot(i, j, last) + sign(i, last) * sign(j, last));
        assert(row_dot(i, j, last) == row_dot(i, j, 2 * k) + sign(i, 2 * k) * sign(j, 2 * k));
        let a = sign(i / 2, k);
        let b = sign(j / 2, k);
        assert((-a) * b == -(a * b)) by (nonlinear_arith);
        assert(a * (-b) == -(a * b)) by (nonlinear_arith);
        assert((-a) * (-b) == a * b) by (nonlinear_arith);
    }
}

/// The matrix is orthonormal and its own inverse: two rows of an order `n`
/// that is a power of two have the dot product `n` when they are the same row
/// and zero otherwise.
pub proof fn rows_are_orthogonal(i: nat, j: nat, n: nat)
    requires
        power_of_two(n),
        i < n,
        j < n,
    ensures
        row_dot(i, j, n) == (if i == j {
            n as int
        } else {
            0
        }),
    decreases n,
{
    if n == 1 {
        assert(i == 0 && j == 0);
        reveal_with_fuel(row_dot, 2);
    } else {
        let half = n / 2;
        assert(n == 2 * half);
        rows_are_orthogonal(i / 2, j / 2, half);
        lemma_dot_halves(i, j, half);
        assert((i == j) == (i / 2 == j / 2 && i % 2 == j % 2));
    }
}

/// Where value `x` of the grouped order stands in the tiled order.
pub open spec fn tiled_place(x: int, n_k: int, rep: int, hd: int) -> int {
    let head = x / hd;
    let d = x % hd;
    ((head % rep) * n_k + head / rep) * hd + d
}

/// The tiled place of a value is one of the row.
proof fn lemma_tiled_place(x: int, n_k: int, rep: int, hd: int)
    requires
        n_k > 0,
        rep > 0,
        hd > 0,
        0 <= x < n_k * rep * hd,
    ensures
        0 <= x / hd < n_k * rep,
        0 <= x % hd < hd,
        0 <= (x / hd) % rep < rep,
        0 <= (x / hd) / rep < n_k,
        0 <= tiled_place(x, n_k, rep, hd) < n_k * rep * hd,
        0 <= (x / hd % rep) * n_k + x / hd / rep < n_k * rep,
{
    let head = x / hd;
    let d = x % hd;
    lemma_fundamental_div_mod(x, hd);
    lemma_mod_bound(x, hd);
    let heads = n_k * rep;
    assert(0 <= head < heads) by (nonlinear_arith)
        requires
            x == hd * head + d,
            0 <= d < hd,
            0 <= x < heads * hd,
            hd > 0,
    ;
    lemma_fundamental_div_mod(head, rep);
    lemma_mod_bound(head, rep);
    let r = head % rep;
    let k = head / rep;
    assert(0 <= k < n_k) by (nonlinear_arith)
        requires
            head == rep * k + r,
            0 <= r < rep,
            0 <= head < n_k * rep,
            rep > 0,
    ;
    assert(0 <= r * n_k + k < heads) by (nonlinear_arith)
        requires
            0 <= r < rep,
            0 <= k < n_k,
            heads == n_k * rep,
    ;
    let t = r * n_k + k;
    assert(0 <= t * hd + d < heads * hd) by (nonlinear_arith)
        requires
            0 <= t < heads,
            0 <= d < hd,
    ;
}

/// A row in the grouped head order.
pub open spec fn grouped(x: Seq<u32>, n_k: int, rep: int, hd: int) -> Seq<u32> {
    Seq::new(x.len(), |i: int| x[tiled_place(i, n_k, rep, hd)])
}

/// Reorder a row of `n_v` value heads of `hd` values from tiled head order
/// (head `h` reads key head `h % n_k`) to grouped head order (head `h` reads
/// key head `h / rep`).
pub fn tiled_to_grouped_host(x: &Vec<u32>, n_k: usize, n_v: usize, hd: usize) -> (r: Vec<u32>)
    requires
        n_k > 0,
        n_v % n_k == 0,
        x@.len() == n_v * hd,
    ensures
        r@ == grouped(x@, n_k as int, n_v as int / n_k as int, hd as int),
{
    let rep: usize = n_v / n_k;
    let total: usize = x.len();
    let mut out: Vec<u32> = Vec::new();
    let mut i: usize = 0;
    proof {
        lemma_fundamental_div_mod(n_v as int, n_k as int);
        assert(n_k * rep == n_v);
    }
    while i < total
        invariant
            total == x@.len(),
            n_k > 0,
            n_k * rep == n_v,
            rep == n_v / n_k,
            x@.len() == n_v * hd,
            i <= total,
            out@.len() == i,
            forall|q: int|
                0 <= q < i ==> (#[trigger] out@[q]) == x@[tiled_place(
                    q,
                    n_k as int,
                    rep as int,
                    hd as int,
                )],
        decreases total - i,
    {
        proof {
            assert(hd > 0) by (nonlinear_arith)
                requires
                    0 <= i < n_v * hd,
                    hd >= 0,
                    n_v >= 0,
            ;
            assert(rep > 0) by (nonlinear_arith)
                requires
                    0 <= i < (n_k * rep) * hd,
                    hd >= 0,
                    rep >= 0,
                    n_k >= 0,
            ;
            lemma_tiled_place(i as int, n_k as int, rep as int, hd as int);
            assert(x.len() == x@.len());
            let t = (i as int / hd as int % rep as int) * n_k + i as int / hd as int / rep as int;
            assert(t * hd <= t * hd + i as int % hd as int);
            assert(0 <= (i as int / hd as int % rep as int) * n_k) by (nonlinear_arith)
                requires
                    0 <= i as int / hd as int % rep as int,
                    n_k > 0,
            ;
            assert(n_k * rep <= (n_k * rep) * hd) by (nonlinear_arith)
                requires
                    hd >= 1,
                    n_k >= 0,
                    rep >= 0,
            ;
            assert(0 <= t * hd) by (nonlinear_arith)
                requires
                    0 <= t,
                    hd > 0,
            ;
        }
        let head: usize = i / hd;
        let source: usize = ((head % rep) * n_k + head / rep) * hd + i % hd;
        out.push(x[source]);
        i += 1;
    }
    assert(out@ =~= grouped(x@, n_k as int, rep as int, hd as int));
    out
}

/// Grouping undoes itself with the two head counts exchanged: what was tiled
/// over `n_k` key heads comes back.
pub proof fn grouping_is_undone(x: Seq<u32>, n_k: int, rep: int, hd: int)
    requires
        n_k > 0,
        rep > 0,
        hd > 0,
        x.len() == n_k * rep * hd,
    ensures
        grouped(grouped(x, n_k, rep, hd), rep, n_k, hd) == x,
{
    let once = grouped(x, n_k, rep, hd);
    let twice = grouped(once, rep, n_k, hd);
    assert(rep * n_k == n_k * rep) by (nonlinear_arith);
    assert forall|i: int| 0 <= i < x.len() implies twice[i] == x[i] by {
        lemma_tiled_place(i, rep, n_k, hd);
        let p = tiled_place(i, rep, n_k, hd);
        lemma_tiled_place(p, n_k, rep, hd);
        let head = i / hd;
        let d = i % hd;
        // i == ((k' * ...)): head = q * n_k + s with s = head % n_k
        let s = head % n_k;
        let q = head / n_k;
        let t = s * rep + q;
        assert(p == t * hd + d);
        lemma_fundamental_div_mod(i, hd);
        lemma_fundamental_div_mod(head, n_k);
        lemma_fundamental_div_mod_converse(p, hd, t, d);
        assert(p / hd == t && p % hd == d);
        lemma_fundamental_div_mod_converse(t, rep, s, q);
        assert(t / rep == s && t % rep == q);
        assert(q * n_k == n_k * q) by (nonlinear_arith);
        assert(tiled_place(p, n_k, rep, hd) == (q * n_k + s) * hd + d);
        assert((q * n_k + s) * hd == hd * head) by (nonlinear_arith)
            requires
                head == n_k * q + s,
        ;
    }
    assert(twice =~= x);
}

} // verus!
