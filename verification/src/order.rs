//! The order of texts by code point, and sorting by it.

use crate::text::chars_of;
use vstd::prelude::*;

verus! {

/// Does `a` come before `b`: at the first difference the smaller character
/// decides, and a proper prefix comes first?
pub open spec fn text_lt(a: Seq<char>, b: Seq<char>) -> bool
    decreases a.len(),
{
    if b.len() == 0 {
        false
    } else if a.len() == 0 {
        true
    } else if a[0] != b[0] {
        (a[0] as u32) < (b[0] as u32)
    } else {
        text_lt(a.skip(1), b.skip(1))
    }
}

/// Does `a` come before `b`, or is it the same text?
pub open spec fn text_le(a: Seq<char>, b: Seq<char>) -> bool {
    a == b || text_lt(a, b)
}

/// No text comes before itself.
pub proof fn text_lt_irreflexive(a: Seq<char>)
    ensures
        !text_lt(a, a),
    decreases a.len(),
{
    if a.len() > 0 {
        text_lt_irreflexive(a.skip(1));
    }
}

/// The order is transitive.
pub proof fn text_lt_transitive(a: Seq<char>, b: Seq<char>, c: Seq<char>)
    requires
        text_lt(a, b),
        text_lt(b, c),
    ensures
        text_lt(a, c),
    decreases a.len(),
{
    if a.len() > 0 && a[0] == b[0] && b[0] == c[0] {
        text_lt_transitive(a.skip(1), b.skip(1), c.skip(1));
    }
}

/// Different characters have different codes.
proof fn lemma_char_codes(a: char, b: char)
    requires
        a != b,
    ensures
        a as u32 != b as u32,
{
    assert(a as u32 == a as int);
    assert(b as u32 == b as int);
}

/// Of two different texts one comes first.
pub proof fn text_lt_total(a: Seq<char>, b: Seq<char>)
    ensures
        text_lt(a, b) || text_lt(b, a) || a == b,
    decreases a.len(),
{
    if a.len() > 0 && b.len() > 0 {
        if a[0] == b[0] {
            text_lt_total(a.skip(1), b.skip(1));
            if a.skip(1) == b.skip(1) {
                assert forall|i: int| 0 <= i < a.len() implies a[i] == b[i] by {
                    if i > 0 {
                        assert(a.skip(1)[i - 1] == b.skip(1)[i - 1]);
                    }
                }
                assert(a.len() == a.skip(1).len() + 1);
                assert(b.len() == b.skip(1).len() + 1);
                assert(a =~= b);
            }
        } else {
            lemma_char_codes(a[0], b[0]);
        }
    } else if a.len() == 0 && b.len() == 0 {
        assert(a =~= b);
    }
}

/// Does `a` come before `b`?
pub fn comes_before(a: &str, b: &str) -> (r: bool)
    ensures
        r == text_lt(a@, b@),
{
    let x: Vec<char> = chars_of(a);
    let y: Vec<char> = chars_of(b);
    let mut i: usize = 0;
    assert(a@.skip(0) =~= a@);
    assert(b@.skip(0) =~= b@);
    loop
        invariant
            x@ == a@,
            y@ == b@,
            i <= x@.len(),
            i <= y@.len(),
            text_lt(a@, b@) == text_lt(a@.skip(i as int), b@.skip(i as int)),
        decreases x@.len() - i,
    {
        if i == y.len() {
            return false;
        }
        if i == x.len() {
            return true;
        }
        if x[i] != y[i] {
            return (x[i] as u32) < (y[i] as u32);
        }
        proof {
            assert(a@.skip(i as int).skip(1) =~= a@.skip(i + 1));
            assert(b@.skip(i as int).skip(1) =~= b@.skip(i + 1));
        }
        i += 1;
    }
}

/// The characters of each text.
pub open spec fn texts(v: Seq<String>) -> Seq<Seq<char>> {
    Seq::new(v.len(), |i: int| v[i]@)
}

/// Is a list of texts in order?
pub open spec fn in_order(v: Seq<Seq<char>>) -> bool {
    forall|i: int, j: int| 0 <= i < j < v.len() ==> text_le(#[trigger] v[i], #[trigger] v[j])
}

/// Insert `x` into a list in order, keeping it in order.
fn insert_in_order(v: &mut Vec<String>, x: String)
    requires
        in_order(texts(old(v)@)),
    ensures
        in_order(texts(final(v)@)),
        texts(final(v)@).to_multiset() == texts(old(v)@).to_multiset().insert(x@),
        final(v)@.len() == old(v)@.len() + 1,
{
    let mut i: usize = 0;
    while i < v.len() && comes_before(v[i].as_str(), x.as_str())
        invariant
            i <= v@.len(),
            v@ == old(v)@,
            forall|k: int| 0 <= k < i ==> text_lt(#[trigger] texts(v@)[k], x@),
        decreases v@.len() - i,
    {
        i += 1;
    }
    let ghost before = texts(v@);
    proof {
        assert forall|k: int| i <= k < before.len() implies text_le(x@, #[trigger] before[k]) by {
            text_lt_total(before[i as int], x@);
            if k > i {
                assert(text_le(before[i as int], before[k]));
                if x@ != before[i as int] && before[i as int] != before[k] {
                    text_lt_transitive(x@, before[i as int], before[k]);
                }
            }
        }
    }
    v.insert(i, x);
    proof {
        assert(texts(v@) =~= before.insert(i as int, x@));
        before.to_multiset_ensures();
        broadcast use vstd::seq_lib::group_to_multiset_ensures;

        assert(before.insert(i as int, x@).to_multiset() =~= before.to_multiset().insert(x@));
        let after = texts(v@);
        assert forall|a: int, b: int| 0 <= a < b < after.len() implies text_le(
            #[trigger] after[a],
            #[trigger] after[b],
        ) by {
            let pa = if a < i {
                a
            } else {
                a - 1
            };
            let pb = if b < i {
                b
            } else {
                b - 1
            };
            if a == i {
                assert(after[b] == before[b - 1]);
            } else if b == i {
                assert(after[a] == before[a]);
            } else {
                assert(after[a] == before[pa]);
                assert(after[b] == before[pb]);
            }
        }
    }
}

/// Sort texts.
pub fn sort_texts(v: Vec<String>) -> (r: Vec<String>)
    ensures
        in_order(texts(r@)),
        texts(r@).to_multiset() == texts(v@).to_multiset(),
        r@.len() == v@.len(),
{
    let mut out: Vec<String> = Vec::new();
    let mut i: usize = 0;
    assert(texts(out@) =~= texts(v@.take(0)));
    while i < v.len()
        invariant
            i <= v@.len(),
            in_order(texts(out@)),
            out@.len() == i,
            texts(out@).to_multiset() == texts(v@.take(i as int)).to_multiset(),
        decreases v@.len() - i,
    {
        insert_in_order(&mut out, v[i].clone());
        proof {
            let a = texts(v@.take(i as int));
            let b = texts(v@.take(i + 1));
            assert(b =~= a.push(v@[i as int]@));
            a.to_multiset_ensures();
            broadcast use vstd::seq_lib::group_to_multiset_ensures;

        }
        i += 1;
    }
    assert(v@.take(i as int) =~= v@);
    out
}

/// A list of names in double quotes.
pub open spec fn quoted_items(v: Seq<Seq<char>>) -> Seq<char>
    decreases v.len(),
{
    if v.len() == 0 {
        Seq::empty()
    } else if v.len() == 1 {
        "\""@ + v[0] + "\""@
    } else {
        quoted_items(v.drop_last()) + ", "@ + "\""@ + v.last() + "\""@
    }
}

/// A list of names in square brackets.
pub open spec fn quoted_list(v: Seq<Seq<char>>) -> Seq<char> {
    "["@ + quoted_items(v) + "]"@
}

/// Append a list of names in square brackets.
pub fn push_quoted_list(out: &mut String, v: &Vec<String>)
    ensures
        final(out)@ == old(out)@ + quoted_list(texts(v@)),
{
    out.append("[");
    let mut i: usize = 0;
    assert(texts(v@).take(0) =~= Seq::<Seq<char>>::empty());
    while i < v.len()
        invariant
            i <= v@.len(),
            out@ == old(out)@ + "["@ + quoted_items(texts(v@).take(i as int)),
        decreases v@.len() - i,
    {
        if i > 0 {
            out.append(", ");
        }
        out.append("\"");
        out.append(v[i].as_str());
        out.append("\"");
        proof {
            let next = texts(v@).take(i + 1);
            assert(next.drop_last() =~= texts(v@).take(i as int));
            assert(next.last() == v@[i as int]@);
        }
        i += 1;
    }
    assert(texts(v@).take(i as int) =~= texts(v@));
    out.append("]");
}

} // verus!
