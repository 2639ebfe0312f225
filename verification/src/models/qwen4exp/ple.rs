//! PLE row ids: the n-gram hash that selects the rows of the per-layer
//! embedding table.
//!
//! Every token hashes its n-grams (with a window that an EOS resets) into
//! `(n_gram-1)·per_gram` rows of one shared table: the heads of the bigram
//! first, then those of the trigram, and so on.

use crate::gguf::{
    missing, missing_text, non_negative, non_negative_of, outcome, read_uint_array, uint_array,
    GgufFile,
};
use crate::models::qwen4exp::header::carries_number;
use crate::text::{decimal, push_decimal};
use vstd::arithmetic::div_mod::{
    lemma_fundamental_div_mod, lemma_fundamental_div_mod_converse, lemma_mod_bound,
};
use vstd::arithmetic::mul::lemma_mul_inequality;
use vstd::prelude::*;

verus! {

/// Largest n-gram the hash supports.
pub const MAX_NGRAM: usize = 16;

/// Upper bound on header hash arrays: a corrupt header must not drive an
/// unbounded allocation.
pub const MAX_PLE_HEADS: usize = 1024;

/// The hash's parameters as borrowed slices. [`PleHash`] owns validated
/// copies and hands them over per call.
#[derive(Debug, Clone, Copy)]
pub struct PleHashParams<'a> {
    /// One multiplier per n-gram position, so `n_gram` is its length.
    pub multipliers: &'a [u64],
    /// Vocabulary (a distinct prime) per head, head order.
    pub head_vocab_sizes: &'a [u64],
    /// Start of each head's slice of the table.
    pub head_offsets: &'a [u64],
    /// Heads per n-gram order.
    pub per_gram: usize,
    /// The window-reset token.
    pub eos: u32,
}

/// The token `back` positions before the current one; a position outside
/// `prev` is before the sequence start.
pub open spec fn predecessor(prev: Seq<Option<u32>>, back: int) -> Option<u32> {
    if 1 <= back <= prev.len() {
        prev[back - 1]
    } else {
        None
    }
}

/// Is there an EOS or the sequence start among the `back` nearest
/// predecessors?
pub open spec fn window_cut(prev: Seq<Option<u32>>, eos: u32, back: int) -> bool {
    exists|s: int|
        1 <= s <= back && ((#[trigger] predecessor(prev, s)) is None || predecessor(prev, s)
            == Some(eos))
}

/// The token the hash sees `back` positions before the current one: itself
/// at 0, then its predecessors, and EOS from the first EOS or missing
/// predecessor on.
pub open spec fn window_token(token: u32, prev: Seq<Option<u32>>, eos: u32, back: int) -> u32 {
    if back <= 0 {
        token
    } else if window_cut(prev, eos, back) {
        eos
    } else {
        predecessor(prev, back)->0
    }
}

/// The mixed n-gram of the `n` nearest tokens: the xor of the wrapping
/// products of each token with its position's multiplier.
pub open spec fn mixed(
    token: u32,
    prev: Seq<Option<u32>>,
    multipliers: Seq<u64>,
    eos: u32,
    n: nat,
) -> u64
    decreases n,
{
    if n <= 1 {
        (token as u64).wrapping_mul(multipliers[0])
    } else {
        mixed(token, prev, multipliers, eos, (n - 1) as nat) ^ (window_token(
            token,
            prev,
            eos,
            n - 1,
        ) as u64).wrapping_mul(multipliers[n - 1])
    }
}

impl<'a> PleHashParams<'a> {
    /// Are the slices consistent with one another?
    pub open spec fn consistent(self) -> bool {
        &&& 2 <= self.multipliers@.len() <= MAX_NGRAM
        &&& self.head_vocab_sizes@.len() == (self.multipliers@.len() - 1) * self.per_gram
        &&& self.head_offsets@.len() == self.head_vocab_sizes@.len()
        &&& forall|h: int|
            0 <= h < self.head_vocab_sizes@.len() ==> #[trigger] self.head_vocab_sizes@[h] > 0
    }

    /// The table row of head `h`: the mixed n-gram of that head's order,
    /// reduced to the head's vocabulary and placed in its slice.
    pub open spec fn row(self, token: u32, prev: Seq<Option<u32>>, h: int) -> int {
        mixed(
            token,
            prev,
            self.multipliers@,
            self.eos,
            (h / self.per_gram as int + 2) as nat,
        ) % self.head_vocab_sizes@[h] + self.head_offsets@[h]
    }
}

/// The n-gram order of head `base + g` is the one of its block of heads.
proof fn lemma_head_order(per_gram: int, order: int, g: int)
    requires
        0 <= g < per_gram,
        0 <= order,
    ensures
        (order * per_gram + g) / per_gram == order,
        (order * per_gram + g) % per_gram == g,
{
    lemma_fundamental_div_mod_converse(order * per_gram + g, per_gram, order, g);
}

/// The PLE table rows for one token, written to `out`
/// (`(n_gram-1)·per_gram` entries, head order).
///
/// `prev[s-1]` is the token `s` positions back in the sequence, `None` or
/// absent when that position is before the sequence start. The current token
/// being EOS does not cut its own context.
pub fn ple_row_ids(
    token: u32,
    prev: &[Option<u32>],
    params: &PleHashParams<'_>,
    out: &mut [u64],
)
    requires
        params.consistent(),
        old(out)@.len() == params.head_vocab_sizes@.len(),
        forall|h: int|
            0 <= h < params.head_vocab_sizes@.len() ==> #[trigger] params.row(token, prev@, h)
                <= u64::MAX,
    ensures
        final(out)@.len() == old(out)@.len(),
        forall|h: int|
            0 <= h < final(out)@.len() ==> (#[trigger] final(out)@[h]) == params.row(
                token,
                prev@,
                h,
            ),
{
    let n_gram: usize = params.multipliers.len();
    let per_gram: usize = params.per_gram;
    let eos: u32 = params.eos;
    let mut ctx: Vec<u64> = Vec::new();
    ctx.push(token as u64);
    let mut cut: bool = false;
    let mut back: usize = 1;
    while back < n_gram
        invariant
            1 <= back <= n_gram,
            ctx@.len() == back,
            eos == params.eos,
            cut == window_cut(prev@, eos, back - 1),
            forall|s: int|
                0 <= s < back ==> (#[trigger] ctx@[s]) == window_token(token, prev@, eos, s),
        decreases n_gram - back,
    {
        let t: Option<u32> = if cut {
            None
        } else if back - 1 < prev.len() {
            prev[back - 1]
        } else {
            None
        };
        let missing: bool = match t {
            Some(v) => v == eos,
            None => true,
        };
        proof {
            let here = predecessor(prev@, back as int);
            if cut {
                let s = choose|s: int|
                    1 <= s <= back - 1 && ((#[trigger] predecessor(prev@, s)) is None
                        || predecessor(prev@, s) == Some(eos));
                assert(1 <= s <= back && (predecessor(prev@, s) is None || predecessor(prev@, s)
                    == Some(eos)));
                assert(window_cut(prev@, eos, back as int));
            } else if missing {
                assert(here is None || here == Some(eos));
                assert(window_cut(prev@, eos, back as int));
            } else {
                assert(here == t && here is Some && here != Some(eos));
                assert(!window_cut(prev@, eos, back as int));
            }
        }
        cut = cut || missing;
        let seen: u32 = match t {
            Some(v) => if cut {
                eos
            } else {
                v
            },
            None => eos,
        };
        ctx.push(seen as u64);
        back += 1;
    }

    let mut acc: u64 = ctx[0].wrapping_mul(params.multipliers[0]);
    let mut n: usize = 2;
    assert(0 * per_gram == 0) by (nonlinear_arith);
    while n <= n_gram
        invariant
            2 <= n <= n_gram + 1,
            n_gram == params.multipliers@.len(),
            n_gram <= MAX_NGRAM,
            per_gram == params.per_gram,
            eos == params.eos,
            params.consistent(),
            ctx@.len() == n_gram,
            forall|s: int|
                0 <= s < n_gram ==> (#[trigger] ctx@[s]) == window_token(token, prev@, eos, s),
            acc == mixed(token, prev@, params.multipliers@, eos, (n - 1) as nat),
            out@.len() == params.head_vocab_sizes@.len(),
            out@.len() == old(out)@.len(),
            forall|h: int|
                0 <= h < params.head_vocab_sizes@.len() ==> #[trigger] params.row(
                    token,
                    prev@,
                    h,
                ) <= u64::MAX,
            forall|h: int|
                0 <= h < (n - 2) * per_gram ==> (#[trigger] out@[h]) == params.row(
                    token,
                    prev@,
                    h,
                ),
        decreases n_gram + 1 - n,
    {
        acc = acc ^ ctx[n - 1].wrapping_mul(params.multipliers[n - 1]);
        proof {
            assert((n - 2) * per_gram + per_gram == (n - 1) * per_gram) by (nonlinear_arith)
                requires
                    2 <= n,
            ;
            lemma_mul_inequality(n - 1, n_gram - 1, per_gram as int);
            lemma_mul_inequality(n - 2, n_gram - 1, per_gram as int);
            assert(params.head_vocab_sizes.len() == params.head_vocab_sizes@.len());
            assert(0 <= (n - 2) * per_gram) by (nonlinear_arith)
                requires
                    2 <= n,
            ;
        }
        let base: usize = (n - 2) * per_gram;
        let mut g: usize = 0;
        while g < per_gram
            invariant
                2 <= n <= n_gram,
                g <= per_gram,
                n_gram == params.multipliers@.len(),
                per_gram == params.per_gram,
                eos == params.eos,
                params.consistent(),
                base == (n - 2) * per_gram,
                base + per_gram <= params.head_vocab_sizes@.len(),
                acc == mixed(token, prev@, params.multipliers@, eos, n as nat),
                out@.len() == params.head_vocab_sizes@.len(),
                out@.len() == old(out)@.len(),
                forall|h: int|
                    0 <= h < params.head_vocab_sizes@.len() ==> #[trigger] params.row(
                        token,
                        prev@,
                        h,
                    ) <= u64::MAX,
                forall|h: int|
                    0 <= h < base + g ==> (#[trigger] out@[h]) == params.row(token, prev@, h),
            decreases per_gram - g,
        {
            let h: usize = base + g;
            proof {
                lemma_head_order(per_gram as int, n - 2, g as int);
                assert(params.row(token, prev@, h as int) <= u64::MAX);
                assert(params.head_vocab_sizes@[h as int] > 0);
            }
            let vocab: u64 = params.head_vocab_sizes[h];
            out[h] = acc % vocab + params.head_offsets[h];
            g += 1;
        }
        n += 1;
    }
}

/// The sum of the head vocabularies.
pub open spec fn vocab_sum(v: Seq<u64>) -> nat
    decreases v.len(),
{
    if v.len() == 0 {
        0
    } else {
        vocab_sum(v.drop_last()) + v.last() as nat
    }
}

/// A leading sum is at most the whole sum.
pub proof fn vocab_sum_prefix(v: Seq<u64>, k: int)
    requires
        0 <= k <= v.len(),
    ensures
        vocab_sum(v.take(k)) <= vocab_sum(v),
    decreases v.len(),
{
    if k == v.len() {
        assert(v.take(k) =~= v);
    } else {
        vocab_sum_prefix(v.drop_last(), k);
        assert(v.drop_last().take(k) =~= v.take(k));
    }
}

/// The first head from `from` on whose vocabulary is empty.
pub open spec fn first_empty(v: Seq<u64>, from: int) -> Option<int>
    decreases v.len() - from,
{
    if from < 0 || from >= v.len() {
        None
    } else if v[from] == 0 {
        Some(from)
    } else {
        first_empty(v, from + 1)
    }
}

/// The first head from `from` on whose slice runs past `total` rows.
pub open spec fn first_overrun(offsets: Seq<u64>, v: Seq<u64>, total: int, from: int) -> Option<int>
    decreases v.len() - from,
{
    if from < 0 || from >= v.len() {
        None
    } else if offsets[from] + v[from] > total {
        Some(from)
    } else {
        first_overrun(offsets, v, total, from + 1)
    }
}

/// Why a set of hash parameters is refused (the first rule broken, in
/// order), or `None` when it is accepted.
pub open spec fn hash_refusal(
    ngram_size: nat,
    heads_per_ngram: nat,
    multipliers: Seq<u64>,
    vocabs: Seq<u64>,
    offsets: Seq<u64>,
) -> Option<Seq<char>> {
    let n_heads = ((ngram_size - 1) * heads_per_ngram) as nat;
    if !(2 <= ngram_size <= MAX_NGRAM) {
        Some("PLE ngram_size "@ + decimal(ngram_size) + " outside 2..=16"@)
    } else if multipliers.len() != ngram_size {
        Some(
            "PLE has "@ + decimal(multipliers.len()) + " multipliers for ngram_size "@ + decimal(
                ngram_size,
            ),
        )
    } else if !(0 < n_heads <= MAX_PLE_HEADS) {
        Some(
            "PLE head count ("@ + decimal(ngram_size) + "-1)*"@ + decimal(heads_per_ngram)
                + " is out of range"@,
        )
    } else if vocabs.len() != n_heads || offsets.len() != n_heads {
        Some(
            "PLE expects "@ + decimal(n_heads) + " heads, header has "@ + decimal(vocabs.len())
                + " vocab sizes and "@ + decimal(offsets.len()) + " offsets"@,
        )
    } else if first_empty(vocabs, 0) is Some {
        Some(
            "PLE head "@ + decimal(first_empty(vocabs, 0)->0 as nat)
                + " has an empty vocabulary"@,
        )
    } else if vocab_sum(vocabs) > u64::MAX {
        Some("PLE head vocabularies overflow u64"@)
    } else if first_overrun(offsets, vocabs, vocab_sum(vocabs) as int, 0) is Some {
        let h = first_overrun(offsets, vocabs, vocab_sum(vocabs) as int, 0)->0;
        Some(
            "PLE head "@ + decimal(h as nat) + " slice "@ + decimal(offsets[h] as nat) + "+"@
                + decimal(vocabs[h] as nat) + " runs past the "@ + decimal(vocab_sum(vocabs))
                + "-row table"@,
        )
    } else {
        None
    }
}

/// The PLE hash parameters, validated once.
#[derive(Debug)]
pub struct PleHash {
    /// `n_gram`: the largest n-gram hashed.
    pub ngram_size: usize,
    /// Heads per n-gram order.
    pub heads_per_ngram: usize,
    /// One multiplier per n-gram position.
    pub multipliers: Vec<u64>,
    /// Vocabulary (a distinct prime) per head, head order.
    pub head_vocab_sizes: Vec<u64>,
    /// Start of each head's slice of the table.
    pub head_offsets: Vec<u64>,
    /// The window-reset token.
    pub eos: u32,
}

/// Every head checked so far holds rows and stays in the table.
proof fn lemma_no_refusal_bounds(vocabs: Seq<u64>, offsets: Seq<u64>, total: int, from: int)
    requires
        0 <= from,
        first_empty(vocabs, from) is None,
        first_overrun(offsets, vocabs, total, from) is None,
    ensures
        forall|h: int|
            from <= h < vocabs.len() ==> (#[trigger] vocabs[h]) > 0 && offsets[h] + vocabs[h]
                <= total,
    decreases vocabs.len() - from,
{
    if from < vocabs.len() {
        lemma_no_refusal_bounds(vocabs, offsets, total, from + 1);
    }
}

/// Fail with the first-empty-head message.
fn empty_vocab_message(h: usize) -> (r: String)
    ensures
        r@ == "PLE head "@ + decimal(h as nat) + " has an empty vocabulary"@,
{
    let mut m: String = String::new();
    m.append("PLE head ");
    push_decimal(&mut m, h as u64);
    m.append(" has an empty vocabulary");
    m
}

impl PleHash {
    /// Do the parameters satisfy every rule [`PleHash::new`] checks?
    pub open spec fn wf(self) -> bool {
        hash_refusal(
            self.ngram_size as nat,
            self.heads_per_ngram as nat,
            self.multipliers@,
            self.head_vocab_sizes@,
            self.head_offsets@,
        ) is None
    }

    /// The table row of head `h` for `token`, which follows the tokens
    /// `before` (oldest first).
    pub open spec fn row_after(self, before: Seq<u32>, token: u32, h: int) -> int {
        mixed(
            token,
            predecessors(before, (self.ngram_size - 1) as nat),
            self.multipliers@,
            self.eos,
            (h / self.heads_per_ngram as int + 2) as nat,
        ) % self.head_vocab_sizes@[h] + self.head_offsets@[h]
    }

    /// The rows of a span of `tokens` that follows `history`, token-major.
    pub open spec fn span_rows(self, history: Seq<u32>, tokens: Seq<u32>) -> Seq<int> {
        let n = self.head_vocab_sizes@.len() as int;
        Seq::new(
            (tokens.len() * n) as nat,
            |k: int| self.row_after(history + tokens.take(k / n), tokens[k / n], k % n),
        )
    }

    /// The history kept after `tokens` were appended: the last
    /// `ngram_size - 1` tokens.
    pub open spec fn advanced(self, history: Seq<u32>, tokens: Seq<u32>) -> Seq<u32> {
        last_of(history + tokens, (self.ngram_size - 1) as nat)
    }

    /// Well-formed parameters satisfy the bounds the hash relies on.
    pub proof fn wf_bounds(self)
        requires
            self.wf(),
        ensures
            2 <= self.ngram_size <= MAX_NGRAM,
            self.multipliers@.len() == self.ngram_size,
            0 < self.head_vocab_sizes@.len() <= MAX_PLE_HEADS,
            self.head_vocab_sizes@.len() == (self.ngram_size - 1) * self.heads_per_ngram,
            self.head_offsets@.len() == self.head_vocab_sizes@.len(),
            0 < self.heads_per_ngram,
            vocab_sum(self.head_vocab_sizes@) <= u64::MAX,
            forall|h: int|
                0 <= h < self.head_vocab_sizes@.len() ==> (#[trigger] self.head_vocab_sizes@[h])
                    > 0 && self.head_offsets@[h] + self.head_vocab_sizes@[h] <= vocab_sum(
                    self.head_vocab_sizes@,
                ),
    {
        lemma_no_refusal_bounds(
            self.head_vocab_sizes@,
            self.head_offsets@,
            vocab_sum(self.head_vocab_sizes@) as int,
            0,
        );
        if self.heads_per_ngram == 0 {
            assert((self.ngram_size - 1) * 0 == 0) by (nonlinear_arith);
        }
    }

    /// Validate and build. The parameters are refused for the first rule
    /// they break, in the order of [`hash_refusal`].
    pub fn new(
        ngram_size: usize,
        heads_per_ngram: usize,
        multipliers: Vec<u64>,
        head_vocab_sizes: Vec<u64>,
        head_offsets: Vec<u64>,
        eos: u32,
    ) -> (r: Result<Self, String>)
        ensures
            match r {
                Ok(hash) => hash.wf() && hash == (PleHash {
                    ngram_size,
                    heads_per_ngram,
                    multipliers,
                    head_vocab_sizes,
                    head_offsets,
                    eos,
                }),
                Err(e) => hash_refusal(
                    ngram_size as nat,
                    heads_per_ngram as nat,
                    multipliers@,
                    head_vocab_sizes@,
                    head_offsets@,
                ) == Some(e@),
            },
    {
        if ngram_size < 2 || ngram_size > MAX_NGRAM {
            let mut m: String = String::new();
            m.append("PLE ngram_size ");
            push_decimal(&mut m, ngram_size as u64);
            m.append(" outside 2..=16");
            return Err(m);
        }
        if multipliers.len() != ngram_size {
            let mut m: String = String::new();
            m.append("PLE has ");
            push_decimal(&mut m, multipliers.len() as u64);
            m.append(" multipliers for ngram_size ");
            push_decimal(&mut m, ngram_size as u64);
            return Err(m);
        }
        let in_range: Option<usize> = match (ngram_size - 1).checked_mul(heads_per_ngram) {
            Some(n) => if n > 0 && n <= MAX_PLE_HEADS {
                Some(n)
            } else {
                None
            },
            None => None,
        };
        let n_heads: usize = match in_range {
            Some(n) => n,
            None => {
                let mut m: String = String::new();
                m.append("PLE head count (");
                push_decimal(&mut m, ngram_size as u64);
                m.append("-1)*");
                push_decimal(&mut m, heads_per_ngram as u64);
                m.append(" is out of range");
                return Err(m);
            },
        };
        if head_vocab_sizes.len() != n_heads || head_offsets.len() != n_heads {
            let mut m: String = String::new();
            m.append("PLE expects ");
            push_decimal(&mut m, n_heads as u64);
            m.append(" heads, header has ");
            push_decimal(&mut m, head_vocab_sizes.len() as u64);
            m.append(" vocab sizes and ");
            push_decimal(&mut m, head_offsets.len() as u64);
            m.append(" offsets");
            return Err(m);
        }
        let mut h: usize = 0;
        while h < head_vocab_sizes.len()
            invariant
                h <= head_vocab_sizes@.len(),
                first_empty(head_vocab_sizes@, 0) == first_empty(head_vocab_sizes@, h as int),
                2 <= ngram_size <= MAX_NGRAM,
                multipliers@.len() == ngram_size,
                n_heads == (ngram_size - 1) * heads_per_ngram,
                0 < n_heads <= MAX_PLE_HEADS,
                head_vocab_sizes@.len() == n_heads,
                head_offsets@.len() == n_heads,
            decreases head_vocab_sizes@.len() - h,
        {
            if head_vocab_sizes[h] == 0 {
                return Err(empty_vocab_message(h));
            }
            h += 1;
        }
        let mut total: u64 = 0;
        let mut i: usize = 0;
        assert(head_vocab_sizes@.take(0) =~= Seq::<u64>::empty());
        while i < head_vocab_sizes.len()
            invariant
                i <= head_vocab_sizes@.len(),
                first_empty(head_vocab_sizes@, 0) is None,
                total == vocab_sum(head_vocab_sizes@.take(i as int)),
                2 <= ngram_size <= MAX_NGRAM,
                multipliers@.len() == ngram_size,
                n_heads == (ngram_size - 1) * heads_per_ngram,
                0 < n_heads <= MAX_PLE_HEADS,
                head_vocab_sizes@.len() == n_heads,
                head_offsets@.len() == n_heads,
            decreases head_vocab_sizes@.len() - i,
        {
            proof {
                let next = head_vocab_sizes@.take(i + 1);
                assert(next.drop_last() =~= head_vocab_sizes@.take(i as int));
                vocab_sum_prefix(head_vocab_sizes@, i + 1);
            }
            match total.checked_add(head_vocab_sizes[i]) {
                Some(t) => {
                    total = t;
                },
                None => {
                    return Err("PLE head vocabularies overflow u64".to_owned());
                },
            }
            i += 1;
        }
        assert(head_vocab_sizes@.take(i as int) =~= head_vocab_sizes@);
        let mut k: usize = 0;
        while k < head_vocab_sizes.len()
            invariant
                k <= head_vocab_sizes@.len(),
                first_empty(head_vocab_sizes@, 0) is None,
                total == vocab_sum(head_vocab_sizes@),
                first_overrun(head_offsets@, head_vocab_sizes@, total as int, 0) == first_overrun(
                    head_offsets@,
                    head_vocab_sizes@,
                    total as int,
                    k as int,
                ),
                2 <= ngram_size <= MAX_NGRAM,
                multipliers@.len() == ngram_size,
                n_heads == (ngram_size - 1) * heads_per_ngram,
                0 < n_heads <= MAX_PLE_HEADS,
                head_vocab_sizes@.len() == n_heads,
                head_offsets@.len() == n_heads,
            decreases head_vocab_sizes@.len() - k,
        {
            let off: u64 = head_offsets[k];
            let v: u64 = head_vocab_sizes[k];
            let past: bool = match off.checked_add(v) {
                Some(end) => end > total,
                None => true,
            };
            if past {
                let mut m: String = String::new();
                m.append("PLE head ");
                push_decimal(&mut m, k as u64);
                m.append(" slice ");
                push_decimal(&mut m, off);
                m.append("+");
                push_decimal(&mut m, v);
                m.append(" runs past the ");
                push_decimal(&mut m, total);
                m.append("-row table");
                return Err(m);
            }
            k += 1;
        }
        Ok(
            PleHash {
                ngram_size,
                heads_per_ngram,
                multipliers,
                head_vocab_sizes,
                head_offsets,
                eos,
            },
        )
    }
}

/// The last `keep` tokens of a sequence (all of it when it is shorter).
pub open spec fn last_of(s: Seq<u32>, keep: nat) -> Seq<u32> {
    if s.len() > keep {
        s.skip(s.len() - keep)
    } else {
        s
    }
}

/// The `n` predecessors that follow `before`, nearest first; positions
/// before the sequence start are `None`.
pub open spec fn predecessors(before: Seq<u32>, n: nat) -> Seq<Option<u32>> {
    Seq::new(
        n,
        |s: int|
            if s < before.len() {
                Some(before[before.len() - 1 - s])
            } else {
                None
            },
    )
}

impl PleHash {
    /// Rows gathered per token.
    pub fn n_heads(&self) -> (r: usize)
        ensures
            r == self.head_vocab_sizes@.len(),
    {
        self.head_vocab_sizes.len()
    }

    /// Predecessor tokens the hash reads: what a cache must keep between
    /// calls.
    pub fn context_len(&self) -> (r: usize)
        requires
            self.ngram_size > 0,
        ensures
            r == self.ngram_size - 1,
    {
        self.ngram_size - 1
    }

    /// Rows a lookup may address: the summed head vocabularies.
    pub fn total_rows(&self) -> (r: u64)
        requires
            vocab_sum(self.head_vocab_sizes@) <= u64::MAX,
        ensures
            r == vocab_sum(self.head_vocab_sizes@),
    {
        let mut total: u64 = 0;
        let mut i: usize = 0;
        assert(self.head_vocab_sizes@.take(0) =~= Seq::<u64>::empty());
        while i < self.head_vocab_sizes.len()
            invariant
                i <= self.head_vocab_sizes@.len(),
                total == vocab_sum(self.head_vocab_sizes@.take(i as int)),
                vocab_sum(self.head_vocab_sizes@) <= u64::MAX,
            decreases self.head_vocab_sizes@.len() - i,
        {
            proof {
                let next = self.head_vocab_sizes@.take(i + 1);
                assert(next.drop_last() =~= self.head_vocab_sizes@.take(i as int));
                vocab_sum_prefix(self.head_vocab_sizes@, i + 1);
            }
            total = total + self.head_vocab_sizes[i];
            i += 1;
        }
        assert(self.head_vocab_sizes@.take(i as int) =~= self.head_vocab_sizes@);
        total
    }

    /// These parameters as the borrowed bundle [`ple_row_ids`] reads.
    pub fn params(&self) -> (r: PleHashParams<'_>)
        ensures
            r.multipliers@ == self.multipliers@,
            r.head_vocab_sizes@ == self.head_vocab_sizes@,
            r.head_offsets@ == self.head_offsets@,
            r.per_gram == self.heads_per_ngram,
            r.eos == self.eos,
    {
        PleHashParams {
            multipliers: self.multipliers.as_slice(),
            head_vocab_sizes: self.head_vocab_sizes.as_slice(),
            head_offsets: self.head_offsets.as_slice(),
            per_gram: self.heads_per_ngram,
            eos: self.eos,
        }
    }

    /// [`ple_row_ids`] with these parameters.
    pub fn row_ids(&self, token: u32, prev: &[Option<u32>], out: &mut [u64])
        requires
            self.wf(),
            old(out)@.len() == self.head_vocab_sizes@.len(),
        ensures
            final(out)@.len() == old(out)@.len(),
            forall|h: int|
                0 <= h < final(out)@.len() ==> (#[trigger] final(out)@[h]) == mixed(
                    token,
                    prev@,
                    self.multipliers@,
                    self.eos,
                    (h / self.heads_per_ngram as int + 2) as nat,
                ) % self.head_vocab_sizes@[h] + self.head_offsets@[h],
    {
        let params: PleHashParams<'_> = self.params();
        proof {
            self.wf_bounds();
            assert forall|h: int| 0 <= h < params.head_vocab_sizes@.len() implies (
            #[trigger] params.row(token, prev@, h)) <= u64::MAX by {
                assert(self.head_vocab_sizes@[h] > 0);
            }
        }
        ple_row_ids(token, prev, &params, out);
    }

    /// Rows for a span of `tokens` that follows `history` (the sequence's
    /// earlier tokens, oldest first). Returns `tokens.len() · n_heads` rows,
    /// token-major: position `i` sees the same predecessors whether they sit
    /// in `tokens` or in `history`.
    pub fn rows_for_span(&self, history: &[u32], tokens: &[u32]) -> (r: Vec<u64>)
        requires
            self.wf(),
        ensures
            r@.len() == tokens@.len() * self.head_vocab_sizes@.len(),
            forall|k: int|
                0 <= k < r@.len() ==> (#[trigger] r@[k]) == self.span_rows(history@, tokens@)[k],
    {
        let n_heads: usize = self.n_heads();
        proof {
            self.wf_bounds();
        }
        let ctx: usize = self.context_len();
        let mut out: Vec<u64> = Vec::new();
        let mut i: usize = 0;
        assert(0 * n_heads == 0) by (nonlinear_arith);
        while i < tokens.len()
            invariant
                self.wf(),
                i <= tokens@.len(),
                n_heads == self.head_vocab_sizes@.len(),
                0 < n_heads,
                ctx == self.ngram_size - 1,
                out@.len() == i * n_heads,
                forall|k: int|
                    0 <= k < out@.len() ==> (#[trigger] out@[k]) == self.span_rows(
                        history@,
                        tokens@,
                    )[k],
            decreases tokens@.len() - i,
        {
            let mut prev: Vec<Option<u32>> = Vec::new();
            let mut s: usize = 1;
            while s <= ctx
                invariant
                    1 <= s <= ctx + 1,
                    i < tokens@.len(),
                    ctx == self.ngram_size - 1,
                    prev@.len() == s - 1,
                    forall|j: int|
                        0 <= j < prev@.len() ==> (#[trigger] prev@[j]) == predecessors(
                            history@ + tokens@.take(i as int),
                            ctx as nat,
                        )[j],
                decreases ctx + 1 - s,
            {
                let p: Option<u32> = if s <= i {
                    Some(tokens[i - s])
                } else if history.len() >= s - i {
                    Some(history[history.len() - (s - i)])
                } else {
                    None
                };
                prev.push(p);
                s += 1;
            }
            let mut row: Vec<u64> = Vec::new();
            let mut z: usize = 0;
            while z < n_heads
                invariant
                    z <= n_heads,
                    row@.len() == z,
                decreases n_heads - z,
            {
                row.push(0);
                z += 1;
            }
            let ghost before = history@ + tokens@.take(i as int);
            assert(prev@ =~= predecessors(before, ctx as nat));
            let token: u32 = tokens[i];
            self.row_ids(token, prev.as_slice(), row.as_mut_slice());
            proof {
                assert((i + 1) * n_heads == i * n_heads + n_heads) by (nonlinear_arith);
                lemma_mul_inequality(i + 1, tokens@.len() as int, n_heads as int);
                let whole = self.span_rows(history@, tokens@);
                assert forall|h: int| 0 <= h < n_heads implies (#[trigger] row@[h]) == whole[i
                    * n_heads + h] by {
                    lemma_head_order(n_heads as int, i as int, h);
                    assert(0 <= i * n_heads + h) by (nonlinear_arith)
                        requires
                            0 <= h,
                    ;
                }
            }
            let ghost filled = out@;
            out.append(&mut row);
            proof {
                let whole = self.span_rows(history@, tokens@);
                assert forall|k: int| 0 <= k < out@.len() implies (#[trigger] out@[k])
                    == whole[k] by {
                    if k >= filled.len() {
                        assert(out@[k] == whole[i * n_heads + (k - filled.len())]);
                    } else {
                        assert(out@[k] == filled[k]);
                    }
                }
            }
            i += 1;
        }
        out
    }

    /// Append `tokens` to a rolling `history`, keeping only the last
    /// [`Self::context_len`] ids the hash can ever read.
    pub fn advance_history(&self, history: &mut Vec<u32>, tokens: &[u32])
        requires
            self.ngram_size > 0,
        ensures
            final(history)@ == self.advanced(old(history)@, tokens@),
    {
        history.extend_from_slice(tokens);
        proof {
            assert(history@ =~= old(history)@ + tokens@);
        }
        let keep: usize = self.context_len();
        if history.len() > keep {
            let drop: usize = history.len() - keep;
            let ghost all = history@;
            let kept: Vec<u32> = history.split_off(drop);
            assert(kept@ =~= all.skip(drop as int));
            *history = kept;
        }
    }

    /// The row of a token depends on its predecessors only through the last
    /// `ngram_size - 1` of them.
    pub proof fn row_reads_only_the_context(self, before: Seq<u32>, token: u32, h: int)
        requires
            self.ngram_size > 0,
        ensures
            self.row_after(before, token, h) == self.row_after(
                last_of(before, (self.ngram_size - 1) as nat),
                token,
                h,
            ),
    {
        let n = (self.ngram_size - 1) as nat;
        assert(predecessors(before, n) =~= predecessors(last_of(before, n), n));
    }

    /// Hashing a span in two chunks, with the history carried over by
    /// `advance_history`, gives the rows of hashing it in one shot.
    pub proof fn chunked_spans_agree(self, history: Seq<u32>, first: Seq<u32>, second: Seq<u32>)
        requires
            self.wf(),
        ensures
            self.span_rows(history, first + second) == self.span_rows(history, first)
                + self.span_rows(self.advanced(history, first), second),
    {
        self.wf_bounds();
        let n = self.head_vocab_sizes@.len() as int;
        let all = first + second;
        let carried = self.advanced(history, first);
        let keep = (self.ngram_size - 1) as nat;
        let left = self.span_rows(history, all);
        let right = self.span_rows(history, first) + self.span_rows(carried, second);
        assert(all.len() * n == first.len() * n + second.len() * n) by (nonlinear_arith)
            requires
                all.len() == first.len() + second.len(),
        ;
        assert forall|k: int| 0 <= k < left.len() implies left[k] == right[k] by {
            let i = k / n;
            lemma_fundamental_div_mod(k, n);
            lemma_mod_bound(k, n);
            assert(0 <= i < all.len()) by (nonlinear_arith)
                requires
                    0 <= k < all.len() * n,
                    k == n * i + k % n,
                    0 <= k % n < n,
            ;
            if k < first.len() * n {
                assert(i < first.len()) by (nonlinear_arith)
                    requires
                        0 <= k < first.len() * n,
                        k == n * i + k % n,
                        0 <= k % n < n,
                ;
                assert(history + all.take(i) =~= history + first.take(i));
            } else {
                let j = k - first.len() * n;
                assert(i >= first.len()) by (nonlinear_arith)
                    requires
                        k >= first.len() * n,
                        k == n * i + k % n,
                        0 <= k % n < n,
                ;
                assert(j == (i - first.len()) * n + k % n) by (nonlinear_arith)
                    requires
                        j == k - first.len() * n,
                        k == n * i + k % n,
                ;
                lemma_fundamental_div_mod_converse(j, n, i - first.len(), k % n);
                let t = i - first.len();
                let before_all = history + all.take(i);
                let before_chunk = carried + second.take(t);
                assert(before_all =~= history + first + second.take(t));
                self.row_reads_only_the_context(before_all, all[i], k % n);
                self.row_reads_only_the_context(before_chunk, all[i], k % n);
                assert(last_of(before_all, keep) =~= last_of(before_chunk, keep));
            }
        }
        assert(left =~= right);
    }

    /// Advancing a history by two chunks is advancing it by both at once.
    pub proof fn advances_compose(self, history: Seq<u32>, first: Seq<u32>, second: Seq<u32>)
        requires
            self.ngram_size > 0,
        ensures
            self.advanced(self.advanced(history, first), second) == self.advanced(
                history,
                first + second,
            ),
    {
        assert(self.advanced(self.advanced(history, first), second) =~= self.advanced(
            history,
            first + second,
        ));
    }

    /// Every row of a span addresses its head's own slice of the table, so
    /// no lookup reaches past the summed vocabularies.
    pub proof fn rows_stay_in_their_slices(
        self,
        history: Seq<u32>,
        tokens: Seq<u32>,
        i: int,
        h: int,
    )
        requires
            self.wf(),
            0 <= i < tokens.len(),
            0 <= h < self.head_vocab_sizes@.len(),
        ensures
            ({
                let row = self.span_rows(history, tokens)[i * self.head_vocab_sizes@.len() + h];
                &&& self.head_offsets@[h] <= row < self.head_offsets@[h]
                    + self.head_vocab_sizes@[h]
                &&& row < vocab_sum(self.head_vocab_sizes@)
            }),
    {
        self.wf_bounds();
        let n = self.head_vocab_sizes@.len() as int;
        lemma_head_order(n, i, h);
        lemma_mul_inequality(i + 1, tokens.len() as int, n);
        assert((i + 1) * n == i * n + n) by (nonlinear_arith);
        assert(0 <= i * n) by (nonlinear_arith)
            requires
                0 <= i,
                0 <= n,
        ;
        assert(self.head_vocab_sizes@[h] > 0);
    }
}

/// What reading the header key `key` as a non-negative integer gives.
pub open spec fn uint_at(f: GgufFile, key: Seq<char>) -> Result<u64, Seq<char>> {
    match f.value(key) {
        None => Err(missing_text(key)),
        Some(v) => match non_negative_of(v) {
            Some(u) => Ok(u),
            None => Err(key + " is not a non-negative integer"@),
        },
    }
}

/// What reading the header key `key` as a `usize` gives.
pub open spec fn usize_at(f: GgufFile, key: Seq<char>) -> Result<usize, Seq<char>> {
    match uint_at(f, key) {
        Err(e) => Err(e),
        Ok(u) => if u <= usize::MAX {
            Ok(u as usize)
        } else {
            Err(key + " does not fit usize"@)
        },
    }
}

/// The hash parameters a header carries, or why they cannot be read: the
/// first failing key in reading order (the reset token first).
pub open spec fn header_params(f: GgufFile) -> Result<
    (usize, usize, Seq<u64>, Seq<u64>, Seq<u64>, u32),
    Seq<char>,
> {
    let complaint = " holds a non-integer entry"@;
    match uint_at(f, "qwen4exp.ple.eos_token_id"@) {
        Err(e) => Err(e),
        Ok(eos) => if eos > u32::MAX {
            Err("qwen4exp.ple.eos_token_id does not fit u32"@)
        } else {
            match usize_at(f, "qwen4exp.ple.ngram_size"@) {
                Err(e) => Err(e),
                Ok(n) => match usize_at(f, "qwen4exp.ple.heads_per_ngram"@) {
                    Err(e) => Err(e),
                    Ok(per) => match uint_array(
                        f,
                        "qwen4exp.ple.layer_multipliers"@,
                        complaint,
                    ) {
                        Err(e) => Err(e),
                        Ok(m) => match uint_array(
                            f,
                            "qwen4exp.ple.head_vocab_sizes"@,
                            complaint,
                        ) {
                            Err(e) => Err(e),
                            Ok(v) => match uint_array(
                                f,
                                "qwen4exp.ple.head_offsets"@,
                                complaint,
                            ) {
                                Err(e) => Err(e),
                                Ok(o) => Ok((n, per, m, v, o, eos as u32)),
                            },
                        },
                    },
                },
            }
        },
    }
}

/// Read a header key as a non-negative integer.
fn read_uint(f: &GgufFile, key: &str) -> (r: Result<u64, String>)
    ensures
        outcome(r) == uint_at(*f, key@),
{
    match f.get(key) {
        None => Err(missing(key)),
        Some(v) => match non_negative(v) {
            Some(u) => Ok(u),
            None => {
                let mut m: String = key.to_owned();
                m.append(" is not a non-negative integer");
                Err(m)
            },
        },
    }
}

/// Read a header key as a `usize`.
fn read_usize(f: &GgufFile, key: &str) -> (r: Result<usize, String>)
    ensures
        outcome(r) == usize_at(*f, key@),
{
    match read_uint(f, key) {
        Err(e) => Err(e),
        Ok(u) => {
            if u <= usize::MAX as u64 {
                Ok(u as usize)
            } else {
                let mut m: String = key.to_owned();
                m.append(" does not fit usize");
                Err(m)
            }
        },
    }
}

impl PleHash {
    /// The hash parameters from a header's `qwen4exp.ple.*` keys.
    ///
    /// The reset token is read from `qwen4exp.ple.eos_token_id` and a missing
    /// key is an error: falling back to the tokenizer EOS would pick a
    /// different id and silently hash wrong rows after every EOS.
    pub fn from_gguf(f: &GgufFile) -> (r: Result<Self, String>)
        ensures
            match r {
                Ok(hash) => hash.wf() && carries_number(
                    *f,
                    "qwen4exp.ple.eos_token_id"@,
                    hash.eos as int,
                ) && header_params(*f) == Ok::<_, Seq<char>>(
                    (
                        hash.ngram_size,
                        hash.heads_per_ngram,
                        hash.multipliers@,
                        hash.head_vocab_sizes@,
                        hash.head_offsets@,
                        hash.eos,
                    ),
                ),
                Err(e) => match header_params(*f) {
                    Err(m) => e@ == m,
                    Ok(p) => hash_refusal(p.0 as nat, p.1 as nat, p.2, p.3, p.4) == Some(e@),
                },
            },
    {
        let complaint: &str = " holds a non-integer entry";
        let eos: u64 = match read_uint(f, "qwen4exp.ple.eos_token_id") {
            Ok(v) => v,
            Err(e) => {
                return Err(e);
            },
        };
        if eos > u32::MAX as u64 {
            return Err("qwen4exp.ple.eos_token_id does not fit u32".to_owned());
        }
        let ngram_size: usize = match read_usize(f, "qwen4exp.ple.ngram_size") {
            Ok(v) => v,
            Err(e) => {
                return Err(e);
            },
        };
        let heads: usize = match read_usize(f, "qwen4exp.ple.heads_per_ngram") {
            Ok(v) => v,
            Err(e) => {
                return Err(e);
            },
        };
        let multipliers: Vec<u64> = match read_uint_array(
            f,
            "qwen4exp.ple.layer_multipliers",
            complaint,
        ) {
            Ok(v) => v,
            Err(e) => {
                return Err(e);
            },
        };
        let vocabs: Vec<u64> = match read_uint_array(
            f,
            "qwen4exp.ple.head_vocab_sizes",
            complaint,
        ) {
            Ok(v) => v,
            Err(e) => {
                return Err(e);
            },
        };
        let offsets: Vec<u64> = match read_uint_array(
            f,
            "qwen4exp.ple.head_offsets",
            complaint,
        ) {
            Ok(v) => v,
            Err(e) => {
                return Err(e);
            },
        };
        PleHash::new(ngram_size, heads, multipliers, vocabs, offsets, eos as u32)
    }
}

} // verus!
