//! Rotary position embeddings in the duplicated-half layout: each frequency
//! is written to both halves of the head, so that rotating halves lines up.

use crate::nn::attention::{at, span_complaint, span_flaw};
use crate::text::{decimal, list_text, push_decimal, push_list};
use vstd::arithmetic::div_mod::{lemma_fundamental_div_mod, lemma_mod_bound};
use vstd::arithmetic::mul::lemma_mul_inequality;
use vstd::prelude::*;

verus! {

/// What is wrong with tables for these positions.
pub open spec fn tables_flaw(t: nat, past: nat, head_dim: nat) -> Option<Seq<char>> {
    if t < 1 {
        Some("rope_tables: need at least one position, got t=0"@)
    } else if head_dim < 2 || head_dim % 2 != 0 {
        Some("rope_tables: head_dim must be even and >= 2, got "@ + decimal(head_dim))
    } else {
        span_flaw("rope_tables"@, t, past)
    }
}

/// What is wrong with tables for these positions.
pub fn tables_complaint(t: usize, past: usize, head_dim: usize) -> (r: Option<String>)
    ensures
        match r {
            Some(m) => tables_flaw(t as nat, past as nat, head_dim as nat) == Some(m@),
            None => tables_flaw(t as nat, past as nat, head_dim as nat) is None,
        },
{
    if t < 1 {
        return Some("rope_tables: need at least one position, got t=0".to_owned());
    }
    if head_dim < 2 || head_dim % 2 != 0 {
        let mut m: String = String::new();
        m.append("rope_tables: head_dim must be even and >= 2, got ");
        push_decimal(&mut m, head_dim as u64);
        return Some(m);
    }
    span_complaint("rope_tables", t, past)
}

/// A table `head_dim` wide whose rows hold the `head_dim / 2` values of each
/// position twice.
pub open spec fn duplicated(half_rows: Seq<u32>, t: int, head_dim: int) -> Seq<u32> {
    Seq::new(
        (t * head_dim) as nat,
        |x: int| half_rows[(x / head_dim) * (head_dim / 2) + (x % head_dim) % (head_dim / 2)],
    )
}

/// A place of the table reads a place of the half rows.
proof fn lemma_duplicated_place(x: int, t: int, head_dim: int)
    requires
        t >= 0,
        head_dim >= 2,
        head_dim % 2 == 0,
        0 <= x < t * head_dim,
    ensures
        0 <= x / head_dim < t,
        0 <= (x % head_dim) % (head_dim / 2) < head_dim / 2,
        0 <= (x / head_dim) * (head_dim / 2),
        0 <= (x / head_dim) * (head_dim / 2) + (x % head_dim) % (head_dim / 2) < t * (head_dim
            / 2),
{
    let half = head_dim / 2;
    lemma_fundamental_div_mod(x, head_dim);
    lemma_mod_bound(x, head_dim);
    lemma_mod_bound(x % head_dim, half);
    let i = x / head_dim;
    assert(0 <= i < t) by (nonlinear_arith)
        requires
            x == head_dim * i + x % head_dim,
            0 <= x % head_dim < head_dim,
            0 <= x < t * head_dim,
            head_dim > 0,
    ;
    assert(0 <= i * half && i * half + (x % head_dim) % half < t * half) by (nonlinear_arith)
        requires
            0 <= i < t,
            0 <= (x % head_dim) % half < half,
    ;
}

/// Lay out the cosines or sines of `t` positions, `head_dim / 2` per
/// position, in the duplicated-half layout.
pub fn rope_tables(half_rows: &Vec<u32>, t: usize, past: usize, head_dim: usize) -> (r: Vec<u32>)
    requires
        tables_flaw(t as nat, past as nat, head_dim as nat) is None,
        half_rows@.len() == t * (head_dim as int / 2),
        t * head_dim <= usize::MAX,
    ensures
        r@ == duplicated(half_rows@, t as int, head_dim as int),
{
    let half: usize = head_dim / 2;
    assert(0 <= t * head_dim) by (nonlinear_arith);
    let total: usize = t * head_dim;
    let mut out: Vec<u32> = Vec::new();
    let mut x: usize = 0;
    while x < total
        invariant
            head_dim >= 2,
            head_dim % 2 == 0,
            half == head_dim / 2,
            half_rows@.len() == t * (head_dim as int / 2),
            total == t * head_dim,
            x <= total,
            out@.len() == x,
            forall|k: int|
                0 <= k < x ==> (#[trigger] out@[k]) == duplicated(
                    half_rows@,
                    t as int,
                    head_dim as int,
                )[k],
        decreases total - x,
    {
        proof {
            lemma_duplicated_place(x as int, t as int, head_dim as int);
            assert(half_rows.len() == half_rows@.len());
        }
        out.push(half_rows[(x / head_dim) * half + (x % head_dim) % half]);
        x += 1;
    }
    assert(out@ =~= duplicated(half_rows@, t as int, head_dim as int));
    out
}

/// The two halves of every row of a table are the same.
pub proof fn both_halves_agree(half_rows: Seq<u32>, t: int, head_dim: int, i: int, k: int)
    requires
        head_dim >= 2,
        head_dim % 2 == 0,
        0 <= i < t,
        0 <= k < head_dim / 2,
    ensures
        at(duplicated(half_rows, t, head_dim), head_dim, i, k) == half_rows[i * (head_dim / 2)
            + k],
        at(duplicated(half_rows, t, head_dim), head_dim, i, k + head_dim / 2) == half_rows[i * (
        head_dim / 2) + k],
{
    let half = head_dim / 2;
    let a = i * head_dim + k;
    let b = i * head_dim + (k + half);
    lemma_mul_inequality(i + 1, t, head_dim);
    assert((i + 1) * head_dim == i * head_dim + head_dim) by (nonlinear_arith);
    assert(0 <= i * head_dim) by (nonlinear_arith)
        requires
            0 <= i,
            0 <= head_dim,
    ;
    vstd::arithmetic::div_mod::lemma_fundamental_div_mod_converse(a, head_dim, i, k);
    vstd::arithmetic::div_mod::lemma_fundamental_div_mod_converse(b, head_dim, i, k + half);
    assert(k % half == k) by (nonlinear_arith)
        requires
            0 <= k < half,
    ;
    vstd::arithmetic::div_mod::lemma_fundamental_div_mod_converse(k + half, half, 1, k);
    assert((k + half) % half == k);
}

/// The bit pattern of the negated value.
pub open spec fn negated(b: u32) -> u32 {
    if b >= 0x8000_0000 {
        (b - 0x8000_0000) as u32
    } else {
        (b + 0x8000_0000) as u32
    }
}

/// The bit pattern of the negated value.
fn negate(b: u32) -> (r: u32)
    ensures
        r == negated(b),
{
    if b >= 0x8000_0000 {
        b - 0x8000_0000
    } else {
        b + 0x8000_0000
    }
}

/// Rows of `dim` values with the second half negated and moved in front of
/// the first.
pub open spec fn half_rotated(x: Seq<u32>, dim: int) -> Seq<u32> {
    Seq::new(
        x.len(),
        |i: int|
            if i % dim < dim / 2 {
                negated(x[i + dim / 2])
            } else {
                x[i - dim / 2]
            },
    )
}

/// The other half of a row's place is in the same row.
proof fn lemma_other_half(i: int, rows: int, dim: int)
    requires
        dim >= 2,
        dim % 2 == 0,
        0 <= i < rows * dim,
    ensures
        i % dim < dim / 2 ==> i + dim / 2 < rows * dim && (i + dim / 2) % dim == i % dim + dim / 2
            && (i + dim / 2) / dim == i / dim,
        i % dim >= dim / 2 ==> i - dim / 2 >= 0 && (i - dim / 2) % dim == i % dim - dim / 2 && (i
            - dim / 2) / dim == i / dim,
{
    let half = dim / 2;
    lemma_fundamental_div_mod(i, dim);
    lemma_mod_bound(i, dim);
    let q = i / dim;
    let r = i % dim;
    assert(0 <= q < rows) by (nonlinear_arith)
        requires
            i == dim * q + r,
            0 <= r < dim,
            0 <= i < rows * dim,
            dim > 0,
    ;
    assert(q * dim == dim * q) by (nonlinear_arith);
    assert(q * dim + dim <= rows * dim) by (nonlinear_arith)
        requires
            q < rows,
            dim > 0,
    ;
    assert(0 <= q * dim) by (nonlinear_arith)
        requires
            0 <= q,
            0 <= dim,
    ;
    if r < half {
        vstd::arithmetic::div_mod::lemma_fundamental_div_mod_converse(i + half, dim, q, r + half);
    } else {
        vstd::arithmetic::div_mod::lemma_fundamental_div_mod_converse(i - half, dim, q, r - half);
    }
}

/// What is wrong with rotating halves of rows of `dim` values.
pub open spec fn rotate_flaw(dim: nat) -> Option<Seq<char>> {
    if dim % 2 != 0 || dim < 2 {
        Some("rotate_half: last dim must be even and >= 2, got "@ + decimal(dim))
    } else {
        None
    }
}

/// What is wrong with rotating halves of rows of `dim` values.
pub fn rotate_complaint(dim: usize) -> (r: Option<String>)
    ensures
        match r {
            Some(m) => rotate_flaw(dim as nat) == Some(m@),
            None => rotate_flaw(dim as nat) is None,
        },
{
    if dim % 2 != 0 || dim < 2 {
        let mut m: String = String::new();
        m.append("rotate_half: last dim must be even and >= 2, got ");
        push_decimal(&mut m, dim as u64);
        return Some(m);
    }
    None
}

/// Split each row of `dim` values in two, and put the negated second half in
/// front of the first.
pub fn rotate_half(x: &Vec<u32>, rows: usize, dim: usize) -> (r: Vec<u32>)
    requires
        rotate_flaw(dim as nat) is None,
        x@.len() == rows * dim,
    ensures
        r@ == half_rotated(x@, dim as int),
{
    let half: usize = dim / 2;
    let total: usize = x.len();
    let mut out: Vec<u32> = Vec::new();
    let mut i: usize = 0;
    while i < total
        invariant
            dim >= 2,
            dim % 2 == 0,
            half == dim / 2,
            total == x@.len(),
            x@.len() == rows * dim,
            i <= total,
            out@.len() == i,
            forall|k: int| 0 <= k < i ==> (#[trigger] out@[k]) == half_rotated(x@, dim as int)[k],
        decreases total - i,
    {
        proof {
            lemma_other_half(i as int, rows as int, dim as int);
            assert(x.len() == x@.len());
        }
        if i % dim < half {
            out.push(negate(x[i + half]));
        } else {
            out.push(x[i - half]);
        }
        i += 1;
    }
    assert(out@ =~= half_rotated(x@, dim as int));
    out
}

/// Rotating halves twice negates every value.
pub proof fn rotating_twice_negates(x: Seq<u32>, rows: int, dim: int)
    requires
        dim >= 2,
        dim % 2 == 0,
        x.len() == rows * dim,
    ensures
        forall|i: int|
            0 <= i < x.len() ==> #[trigger] half_rotated(half_rotated(x, dim), dim)[i] == negated(
                x[i],
            ),
{
    let once = half_rotated(x, dim);
    let twice = half_rotated(once, dim);
    assert forall|i: int| 0 <= i < x.len() implies #[trigger] twice[i] == negated(x[i]) by {
        lemma_other_half(i, rows, dim);
        lemma_mod_bound(i, dim);
    }
}

/// What is wrong with applying tables of one shape to values of another.
pub open spec fn apply_flaw(x: Seq<u64>, tables: Seq<u64>) -> Option<Seq<char>> {
    if x[2] != tables[2] || x[3] != tables[3] {
        Some(
            "apply_rope: x "@ + list_text(x) + " and tables "@ + list_text(tables)
                + " disagree on [t, head_dim]"@,
        )
    } else {
        None
    }
}

/// What is wrong with applying tables of one shape to values of another.
pub fn apply_complaint(x: &Vec<u64>, tables: &Vec<u64>) -> (r: Option<String>)
    requires
        x@.len() == 4,
        tables@.len() == 4,
    ensures
        match r {
            Some(m) => apply_flaw(x@, tables@) == Some(m@),
            None => apply_flaw(x@, tables@) is None,
        },
{
    if x[2] != tables[2] || x[3] != tables[3] {
        let mut m: String = String::new();
        m.append("apply_rope: x ");
        push_list(&mut m, x);
        m.append(" and tables ");
        push_list(&mut m, tables);
        m.append(" disagree on [t, head_dim]");
        return Some(m);
    }
    None
}

} // verus!
