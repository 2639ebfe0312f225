//! The hyperparameters of the `qwen4exp` architecture, read from a GGUF
//! header and validated.

use crate::gguf::{
    missing, missing_text, non_negative, non_negative_of, outcome, read_uint_array, uint_array,
    F32Bits, GgufFile, GgufValue,
};
use crate::models::qwen35::{EosIds, GdnGate, GdnL2, Qwen35Config};
use crate::models::qwen4exp::header::{
    a_configuration_is_of_its_header, carries_number, is_of_header,
};
use crate::models::qwen4exp::ple::{vocab_sum, vocab_sum_prefix};
use crate::text::{decimal, list_text, push_decimal, push_list, same_text};
use vstd::arithmetic::div_mod::{lemma_div_is_ordered, lemma_fundamental_div_mod};
use vstd::prelude::*;

verus! {

/// Hyperparameters of the `qwen4exp` architecture.
#[derive(Debug)]
pub struct Qwen4expConfig {
    pub vocab_size: usize,
    pub hidden_size: usize,
    pub num_layers: usize,
    pub num_attention_heads: usize,
    pub num_key_value_heads: usize,
    /// Attention head width.
    pub head_dim: usize,
    pub rms_norm_eps: F32Bits,
    pub rope_theta: F32Bits,
    /// Leading dims of each head that RoPE rotates.
    pub rope_dim: usize,
    /// Layer `i` is full attention iff `(i+1) % interval == 0`.
    pub full_attention_interval: usize,
    // --- Gated DeltaNet ---
    pub conv_kernel: usize,
    pub d_inner: usize,
    pub d_state: usize,
    pub n_k_heads: usize,
    pub n_v_heads: usize,
    // --- Mixture of experts (every layer) ---
    pub expert_count: usize,
    pub expert_used_count: usize,
    pub expert_ffn_size: usize,
    pub expert_shared_ffn_size: usize,
    // --- Hyper-connections ---
    pub hyper_connection_count: usize,
    pub hyper_connection_low_rank: usize,
    // --- Sparse-attention indexer ---
    pub indexer_head_count: usize,
    pub indexer_key_length: usize,
    pub indexer_top_k: usize,
    // --- Per-layer embeddings (PLE) ---
    /// Which layers consume a PLE row.
    pub ple_layers: Vec<usize>,
    pub ple_ngram_size: usize,
    pub ple_heads_per_ngram: usize,
    pub ple_conv_kernel: usize,
    /// Width of one PLE row.
    pub ple_row_width: usize,
    /// Hash multipliers, one per n-gram position.
    pub ple_layer_multipliers: Vec<u64>,
    /// Start of each head's slice of the PLE table.
    pub ple_head_offsets: Vec<u64>,
    /// Vocabulary size of each head's slice.
    pub ple_head_vocab_sizes: Vec<u64>,
    /// The PLE n-gram window's reset token. Not [`Self::eos_token_id`]:
    /// hashing with the tokenizer EOS silently selects wrong rows after
    /// every document boundary.
    pub ple_eos_token_id: u32,
    /// The token hashed at image-embedding positions (optional).
    pub ple_image_token_id: Option<u32>,
    /// One per layer: the sparse-attention block size on attention layers,
    /// 0 where a layer has no sparse attention.
    pub attention_compress_ratios: Vec<usize>,
    /// The tokenizer EOS.
    pub eos_token_id: u32,
}

/// Is `layer` a full-attention layer under this interval?
pub open spec fn attention_at(interval: nat, layer: nat) -> bool {
    interval > 0 && (layer + 1) % interval == 0
}

/// How many of the first `layers` layers are full attention.
pub open spec fn attention_count(interval: nat, layers: nat) -> nat
    decreases layers,
{
    if layers == 0 {
        0
    } else {
        attention_count(interval, (layers - 1) as nat) + if attention_at(
            interval,
            (layers - 1) as nat,
        ) {
            1nat
        } else {
            0nat
        }
    }
}

/// One layer in every `interval` is full attention.
pub proof fn attention_count_is_a_quotient(interval: nat, layers: nat)
    requires
        interval > 0,
    ensures
        attention_count(interval, layers) == layers / interval,
    decreases layers,
{
    if layers == 0 {
        assert(0nat / interval == 0) by (nonlinear_arith)
            requires
                interval > 0,
        ;
    } else {
        attention_count_is_a_quotient(interval, (layers - 1) as nat);
        let q = (layers - 1) as int / interval as int;
        let m = (layers - 1) as int % interval as int;
        vstd::arithmetic::div_mod::lemma_fundamental_div_mod(layers - 1, interval as int);
        vstd::arithmetic::div_mod::lemma_mod_bound(layers - 1, interval as int);
        if m + 1 == interval {
            assert((q + 1) * interval == interval * q + interval) by (nonlinear_arith);
            vstd::arithmetic::div_mod::lemma_fundamental_div_mod_converse(
                layers as int,
                interval as int,
                q + 1,
                0,
            );
        } else {
            assert(q * interval == interval * q) by (nonlinear_arith);
            vstd::arithmetic::div_mod::lemma_fundamental_div_mod_converse(
                layers as int,
                interval as int,
                q,
                m + 1,
            );
        }
    }
}

/// The smallest positive ratio.
pub open spec fn least_positive(v: Seq<usize>) -> Option<usize>
    decreases v.len(),
{
    if v.len() == 0 {
        None
    } else {
        let rest = least_positive(v.drop_last());
        let x = v.last();
        if x == 0 {
            rest
        } else {
            match rest {
                None => Some(x),
                Some(m) => if x < m {
                    Some(x)
                } else {
                    Some(m)
                },
            }
        }
    }
}

/// The least positive ratio is one of the ratios, and none of the positive
/// ones is smaller.
pub proof fn least_positive_is_least(v: Seq<usize>)
    ensures
        match least_positive(v) {
            None => forall|i: int| 0 <= i < v.len() ==> #[trigger] v[i] == 0,
            Some(m) => m > 0 && v.contains(m) && forall|i: int|
                0 <= i < v.len() && #[trigger] v[i] > 0 ==> m <= v[i],
        },
    decreases v.len(),
{
    if v.len() > 0 {
        let init = v.drop_last();
        least_positive_is_least(init);
        assert forall|i: int| 0 <= i < init.len() implies init[i] == v[i] by {}
        if let Some(m) = least_positive(v) {
            if m == v.last() {
                assert(v[v.len() - 1] == m);
            } else {
                let k = choose|k: int| 0 <= k < init.len() && init[k] == m;
                assert(v[k] == m);
            }
            assert forall|i: int| 0 <= i < v.len() && #[trigger] v[i] > 0 implies m <= v[i] by {
                if i < init.len() {
                    assert(init[i] == v[i]);
                }
            }
        } else {
            assert forall|i: int| 0 <= i < v.len() implies #[trigger] v[i] == 0 by {
                if i < init.len() {
                    assert(init[i] == v[i]);
                }
            }
        }
    }
}

/// How many whole blocks of `ratio` tokens a selection of `top_k` tokens
/// takes.
pub open spec fn whole_blocks(top_k: nat, ratio: nat) -> nat {
    ((top_k + ratio - 1) / ratio as int) as nat
}

/// Dense attention is the sparse attention up to the limit: with no more
/// tokens cached than the selection and the least ratio allow, no layer has
/// more whole blocks than its selection takes. One token more is too many
/// for a layer whose blocks divide the selection evenly.
pub proof fn dense_attention_is_sparse_up_to_the_limit(
    ratios: Seq<usize>,
    top_k: nat,
    cached: nat,
    layer: int,
)
    requires
        0 <= layer < ratios.len(),
        ratios[layer] > 0,
    ensures
        least_positive(ratios) is Some,
        cached <= top_k + least_positive(ratios)->0 - 1 ==> cached / ratios[layer] as nat
            <= whole_blocks(top_k, ratios[layer] as nat),
        cached == top_k + ratios[layer] && top_k % ratios[layer] as nat == 0 ==> cached
            / ratios[layer] as nat > whole_blocks(top_k, ratios[layer] as nat),
{
    least_positive_is_least(ratios);
    let r = ratios[layer] as int;
    let m = least_positive(ratios)->0;
    assert(m <= r);
    if cached <= top_k + m - 1 {
        lemma_div_is_ordered(cached as int, top_k + r - 1, r);
    }
    if cached == top_k + r && top_k % r as nat == 0 {
        let q = top_k as int / r;
        lemma_fundamental_div_mod(top_k as int, r);
        assert((top_k + r) / r == q + 1) by (nonlinear_arith)
            requires
                top_k == r * q,
                r > 0,
        ;
        assert((top_k + r - 1) / r == q) by (nonlinear_arith)
            requires
                top_k == r * q,
                r > 0,
        ;
    }
}

/// The first place from `from` on of a PLE layer that is an attention layer.
pub open spec fn first_attention_ple(layers: Seq<usize>, interval: nat, from: int) -> Option<int>
    decreases layers.len() - from,
{
    if from < 0 || from >= layers.len() {
        None
    } else if attention_at(interval, layers[from] as nat) {
        Some(from)
    } else {
        first_attention_ple(layers, interval, from + 1)
    }
}

/// The first layer from `from` on with a ratio but no attention.
pub open spec fn first_stray_ratio(ratios: Seq<usize>, interval: nat, from: int) -> Option<int>
    decreases ratios.len() - from,
{
    if from < 0 || from >= ratios.len() {
        None
    } else if ratios[from] > 0 && !attention_at(interval, from as nat) {
        Some(from)
    } else {
        first_stray_ratio(ratios, interval, from + 1)
    }
}

/// One refusal or, when there is none, the next.
pub open spec fn first_refusal(a: Option<Seq<char>>, b: Option<Seq<char>>) -> Option<Seq<char>> {
    if a is Some {
        a
    } else {
        b
    }
}

impl Qwen4expConfig {
    /// Width of one token's PLE embedding.
    pub open spec fn embed_width(self) -> nat {
        let orders: nat = if self.ple_ngram_size == 0 {
            0
        } else {
            (self.ple_ngram_size - 1) as nat
        };
        orders * self.ple_heads_per_ngram as nat * self.ple_row_width as nat
    }

    /// Why this configuration is refused: the first broken rule, in order.
    pub open spec fn refusal(self) -> Option<Seq<char>> {
        let interval = self.full_attention_interval as nat;
        if self.hyper_connection_count < 2 || self.hyper_connection_low_rank == 0 {
            Some(
                "hyper_connection.count "@ + decimal(self.hyper_connection_count as nat)
                    + " / low_rank "@ + decimal(self.hyper_connection_low_rank as nat)
                    + " is degenerate"@,
            )
        } else if self.expert_used_count == 0 || self.expert_used_count > self.expert_count {
            Some(
                "top-"@ + decimal(self.expert_used_count as nat) + " of "@ + decimal(
                    self.expert_count as nat,
                ) + " experts is not a routing"@,
            )
        } else if first_attention_ple(self.ple_layers@, interval, 0) is Some {
            Some(
                "PLE layer "@ + decimal(
                    self.ple_layers@[first_attention_ple(self.ple_layers@, interval, 0)->0] as nat,
                ) + " must be a DeltaNet layer"@,
            )
        } else if self.ple_layers@.len() > 0 && self.embed_width() == 0 {
            Some("PLE layer present but the PLE embedding is empty"@)
        } else {
            match first_stray_ratio(self.attention_compress_ratios@, interval, 0) {
                None => None,
                Some(l) => Some(
                    "layer "@ + decimal(l as nat) + " has compress ratio "@ + decimal(
                        self.attention_compress_ratios@[l] as nat,
                    ) + " but is not attention"@,
                ),
            }
        }
    }

    /// The same, with the verdict of the shared blocks on
    /// [`Self::blocks_config`] as the last rule.
    pub open spec fn refusal_with(self, blocks: Result<(), String>) -> Option<Seq<char>> {
        match (self.refusal(), blocks) {
            (Some(m), _) => Some(m),
            (None, Err(e)) => Some(e@),
            (None, Ok(_)) => None,
        }
    }

    /// The configuration the shared blocks read.
    pub open spec fn blocks(self) -> Qwen35Config {
        Qwen35Config {
            vocab_size: self.vocab_size,
            hidden_size: self.hidden_size,
            num_layers: self.num_layers,
            num_attention_heads: self.num_attention_heads,
            num_key_value_heads: self.num_key_value_heads,
            head_dim: self.head_dim,
            intermediate_size: self.expert_shared_ffn_size,
            rms_norm_eps: self.rms_norm_eps,
            rope_theta: self.rope_theta,
            rope_dim: self.rope_dim,
            full_attention_interval: self.full_attention_interval,
            conv_kernel: self.conv_kernel,
            d_inner: self.d_inner,
            d_state: self.d_state,
            n_k_heads: self.n_k_heads,
            n_v_heads: self.n_v_heads,
            gdn_gate: GdnGate::Sigmoid,
            gdn_l2: GdnL2::AddEps,
            eos_token_id: EosIds::One(self.eos_token_id),
        }
    }

    /// No PLE layer is numbered past what a layer can be.
    pub open spec fn ple_layers_fit(self) -> bool {
        forall|i: int|
            0 <= i < self.ple_layers@.len() ==> (#[trigger] self.ple_layers@[i]) < usize::MAX
    }

    /// Is `layer` a full-attention layer (as opposed to Gated DeltaNet)?
    pub fn is_attention(&self, layer: usize) -> (r: bool)
        requires
            layer < usize::MAX,
        ensures
            r == attention_at(self.full_attention_interval as nat, layer as nat),
    {
        self.full_attention_interval > 0 && (layer + 1) % self.full_attention_interval == 0
    }

    /// q/k projection width in the DeltaNet mix.
    pub fn key_dim(&self) -> (r: usize)
        requires
            self.n_k_heads * self.d_state <= usize::MAX,
        ensures
            r == self.n_k_heads * self.d_state,
    {
        self.n_k_heads * self.d_state
    }

    /// Channels through the DeltaNet conv: q + k + v concatenated.
    pub fn conv_dim(&self) -> (r: usize)
        requires
            2 * (self.n_k_heads * self.d_state) + self.d_inner <= usize::MAX,
        ensures
            r == 2 * (self.n_k_heads * self.d_state) + self.d_inner,
    {
        2 * self.key_dim() + self.d_inner
    }

    /// How many of `num_layers` are full attention.
    pub fn attention_layers(&self) -> (r: usize)
        ensures
            r == attention_count(self.full_attention_interval as nat, self.num_layers as nat),
            r <= self.num_layers,
    {
        let mut n: usize = 0;
        let mut l: usize = 0;
        while l < self.num_layers
            invariant
                l <= self.num_layers,
                n == attention_count(self.full_attention_interval as nat, l as nat),
                n <= l,
            decreases self.num_layers - l,
        {
            if self.is_attention(l) {
                n += 1;
            }
            l += 1;
        }
        n
    }

    /// How many tokens the attention cache may hold while dense attention is
    /// still exactly the sparse attention of the architecture, or `None` when
    /// no layer has a compress ratio (then attention is dense anyway).
    ///
    /// Sparse attention selects `indexer_top_k` tokens' worth of whole blocks
    /// plus the incomplete tail block, so up to `top_k + ratio - 1` cached
    /// tokens every cell is selected. The smallest ratio across layers
    /// bounds.
    pub fn dense_attention_limit(&self) -> (r: Option<usize>)
        requires
            match least_positive(self.attention_compress_ratios@) {
                Some(m) => self.indexer_top_k + m - 1 <= usize::MAX,
                None => true,
            },
        ensures
            match least_positive(self.attention_compress_ratios@) {
                Some(m) => r == Some((self.indexer_top_k + m - 1) as usize),
                None => r is None,
            },
    {
        let mut least: Option<usize> = None;
        let mut i: usize = 0;
        let ratios: &Vec<usize> = &self.attention_compress_ratios;
        assert(ratios@.take(0) =~= Seq::<usize>::empty());
        while i < ratios.len()
            invariant
                i <= ratios@.len(),
                least == least_positive(ratios@.take(i as int)),
            decreases ratios@.len() - i,
        {
            proof {
                let next = ratios@.take(i + 1);
                assert(next.drop_last() =~= ratios@.take(i as int));
                assert(next.last() == ratios@[i as int]);
            }
            let x: usize = ratios[i];
            if x > 0 {
                match least {
                    None => {
                        least = Some(x);
                    },
                    Some(m) => {
                        if x < m {
                            least = Some(x);
                        }
                    },
                }
            }
            i += 1;
        }
        assert(ratios@.take(i as int) =~= ratios@);
        proof {
            least_positive_is_least(ratios@);
        }
        match least {
            None => None,
            Some(m) => Some(self.indexer_top_k + (m - 1)),
        }
    }

    /// The configuration the shared blocks read: the same shapes, with the
    /// DeltaNet output gate set to sigmoid and the epsilon-under-the-root L2
    /// norm. `intermediate_size` has no meaning here; it carries the
    /// shared-expert width only so the field is not a zero.
    pub fn blocks_config(&self) -> (r: Qwen35Config)
        ensures
            r == self.blocks(),
    {
        Qwen35Config {
            vocab_size: self.vocab_size,
            hidden_size: self.hidden_size,
            num_layers: self.num_layers,
            num_attention_heads: self.num_attention_heads,
            num_key_value_heads: self.num_key_value_heads,
            head_dim: self.head_dim,
            intermediate_size: self.expert_shared_ffn_size,
            rms_norm_eps: self.rms_norm_eps,
            rope_theta: self.rope_theta,
            rope_dim: self.rope_dim,
            full_attention_interval: self.full_attention_interval,
            conv_kernel: self.conv_kernel,
            d_inner: self.d_inner,
            d_state: self.d_state,
            n_k_heads: self.n_k_heads,
            n_v_heads: self.n_v_heads,
            gdn_gate: GdnGate::Sigmoid,
            gdn_l2: GdnL2::AddEps,
            eos_token_id: EosIds::One(self.eos_token_id),
        }
    }

    /// Width of one token's PLE embedding: `(ngram-1)·heads_per_ngram` rows
    /// of `ple_row_width`.
    pub fn ple_embed_width(&self) -> (r: usize)
        requires
            self.ple_ngram_size * self.ple_heads_per_ngram <= usize::MAX,
            self.embed_width() <= usize::MAX,
        ensures
            r == self.embed_width(),
    {
        let orders: usize = if self.ple_ngram_size == 0 {
            0
        } else {
            self.ple_ngram_size - 1
        };
        assert(orders * self.ple_heads_per_ngram <= self.ple_ngram_size
            * self.ple_heads_per_ngram) by (nonlinear_arith)
            requires
                orders <= self.ple_ngram_size,
        ;
        orders * self.ple_heads_per_ngram * self.ple_row_width
    }

    /// Total rows in the PLE table: the sum of every head's vocabulary.
    pub fn ple_total_rows(&self) -> (r: u64)
        requires
            vocab_sum(self.ple_head_vocab_sizes@) <= u64::MAX,
        ensures
            r == vocab_sum(self.ple_head_vocab_sizes@),
    {
        let v: &Vec<u64> = &self.ple_head_vocab_sizes;
        let mut total: u64 = 0;
        let mut i: usize = 0;
        assert(v@.take(0) =~= Seq::<u64>::empty());
        while i < v.len()
            invariant
                i <= v@.len(),
                total == vocab_sum(v@.take(i as int)),
                vocab_sum(v@) <= u64::MAX,
            decreases v@.len() - i,
        {
            proof {
                let next = v@.take(i + 1);
                assert(next.drop_last() =~= v@.take(i as int));
                vocab_sum_prefix(v@, i + 1);
            }
            total = total + v[i];
            i += 1;
        }
        assert(v@.take(i as int) =~= v@);
        total
    }

    /// Shape invariants the forward depends on, checked once at load: the
    /// first broken rule of [`Self::refusal`] is the error, and where none is
    /// broken the verdict of the shared blocks on [`Self::blocks_config`],
    /// which is handed in.
    pub fn validate(&self, blocks: Result<(), String>) -> (r: Result<(), String>)
        requires
            self.ple_layers_fit(),
        ensures
            match r {
                Ok(_) => self.refusal_with(blocks) is None,
                Err(e) => self.refusal_with(blocks) == Some(e@),
            },
    {
        if self.hyper_connection_count < 2 || self.hyper_connection_low_rank == 0 {
            let mut m: String = String::new();
            m.append("hyper_connection.count ");
            push_decimal(&mut m, self.hyper_connection_count as u64);
            m.append(" / low_rank ");
            push_decimal(&mut m, self.hyper_connection_low_rank as u64);
            m.append(" is degenerate");
            return Err(m);
        }
        if self.expert_used_count == 0 || self.expert_used_count > self.expert_count {
            let mut m: String = String::new();
            m.append("top-");
            push_decimal(&mut m, self.expert_used_count as u64);
            m.append(" of ");
            push_decimal(&mut m, self.expert_count as u64);
            m.append(" experts is not a routing");
            return Err(m);
        }
        let mut p: usize = 0;
        while p < self.ple_layers.len()
            invariant
                p <= self.ple_layers@.len(),
                self.ple_layers_fit(),
                !(self.hyper_connection_count < 2 || self.hyper_connection_low_rank == 0),
                !(self.expert_used_count == 0 || self.expert_used_count > self.expert_count),
                first_attention_ple(self.ple_layers@, self.full_attention_interval as nat, 0)
                    == first_attention_ple(
                    self.ple_layers@,
                    self.full_attention_interval as nat,
                    p as int,
                ),
            decreases self.ple_layers@.len() - p,
        {
            let l: usize = self.ple_layers[p];
            if self.is_attention(l) {
                let mut m: String = String::new();
                m.append("PLE layer ");
                push_decimal(&mut m, l as u64);
                m.append(" must be a DeltaNet layer");
                return Err(m);
            }
            p += 1;
        }
        if self.ple_layers.len() > 0 {
            proof {
                lemma_width_zero(
                    if self.ple_ngram_size == 0 {
                        0
                    } else {
                        (self.ple_ngram_size - 1) as nat
                    },
                    self.ple_heads_per_ngram as nat,
                    self.ple_row_width as nat,
                );
            }
            if self.ple_ngram_size <= 1 || self.ple_heads_per_ngram == 0 || self.ple_row_width
                == 0 {
                return Err("PLE layer present but the PLE embedding is empty".to_owned());
            }
        }
        let ratios: &Vec<usize> = &self.attention_compress_ratios;
        let mut l: usize = 0;
        while l < ratios.len()
            invariant
                l <= ratios@.len(),
                ratios@ == self.attention_compress_ratios@,
                !(self.hyper_connection_count < 2 || self.hyper_connection_low_rank == 0),
                !(self.expert_used_count == 0 || self.expert_used_count > self.expert_count),
                first_attention_ple(self.ple_layers@, self.full_attention_interval as nat, 0)
                    is None,
                self.ple_layers@.len() > 0 ==> self.embed_width() != 0,
                first_stray_ratio(ratios@, self.full_attention_interval as nat, 0)
                    == first_stray_ratio(ratios@, self.full_attention_interval as nat, l as int),
            decreases ratios@.len() - l,
        {
            let r: usize = ratios[l];
            if r > 0 && !self.is_attention(l) {
                let mut m: String = String::new();
                m.append("layer ");
                push_decimal(&mut m, l as u64);
                m.append(" has compress ratio ");
                push_decimal(&mut m, r as u64);
                m.append(" but is not attention");
                return Err(m);
            }
            l += 1;
        }
        blocks
    }
}

/// A product of three numbers is zero exactly when one of them is.
proof fn lemma_width_zero(a: nat, b: nat, c: nat)
    ensures
        (a * b * c == 0) == (a == 0 || b == 0 || c == 0),
{
    if a == 0 || b == 0 || c == 0 {
        assert(a * b * c == 0) by (nonlinear_arith)
            requires
                a == 0 || b == 0 || c == 0,
        ;
    } else {
        assert(a * b * c > 0) by (nonlinear_arith)
            requires
                a > 0,
                b > 0,
                c > 0,
        ;
    }
}

/// What reading `key` as an unsigned integer gives.
pub open spec fn usize_key(f: GgufFile, key: Seq<char>) -> Result<usize, Seq<char>> {
    let found = match f.value(key) {
        Some(v) => v.unsigned(),
        None => None,
    };
    match found {
        Some(u) => Ok(u as usize),
        None => Err(missing_text(key)),
    }
}

/// What reading `key` as a single-precision value gives.
pub open spec fn f32_key(f: GgufFile, key: Seq<char>) -> Result<F32Bits, Seq<char>> {
    match f.value(key) {
        Some(GgufValue::F32(b)) => Ok(b),
        _ => Err(missing_text(key)),
    }
}

/// Does every unsigned header integer fit in `usize`?
pub open spec fn header_fits(f: GgufFile) -> bool {
    forall|key: Seq<char>|
        (#[trigger] f.value(key)) is Some && f.value(key)->0.unsigned() is Some
            ==> f.value(key)->0.unsigned()->0 <= usize::MAX
}

/// A `u64` header value as `usize`, or which key is missing.
pub fn meta_usize(f: &GgufFile, key: &str) -> (r: Result<usize, String>)
    requires
        header_fits(*f),
    ensures
        outcome(r) == usize_key(*f, key@),
{
    let found: Option<u64> = match f.get(key) {
        Some(v) => v.as_u64(),
        None => None,
    };
    match found {
        Some(u) => Ok(u as usize),
        None => Err(missing(key)),
    }
}

/// An `f32` header value, or which key is missing.
pub fn meta_f32(f: &GgufFile, key: &str) -> (r: Result<F32Bits, String>)
    ensures
        outcome(r) == f32_key(*f, key@),
{
    let found: Option<F32Bits> = match f.get(key) {
        Some(v) => v.as_f32(),
        None => None,
    };
    match found {
        Some(b) => Ok(b),
        None => Err(missing(key)),
    }
}

/// A header array of non-negative integers, bounded in length.
///
/// Header arrays are the PLE hash function's parameters. They are read,
/// never assumed: a wrong multiplier silently selects wrong embedding rows.
pub fn meta_u64_array(f: &GgufFile, key: &str) -> (r: Result<Vec<u64>, String>)
    ensures
        crate::gguf::list_outcome(r) == uint_array(
            *f,
            key@,
            " holds a non-integer or negative entry"@,
        ),
{
    read_uint_array(f, key, " holds a non-integer or negative entry")
}

/// The layer numbers among `vals`: the signed integers that are layer
/// numbers at all, in order.
pub open spec fn layer_numbers(vals: Seq<GgufValue>) -> Seq<usize>
    decreases vals.len(),
{
    if vals.len() == 0 {
        Seq::empty()
    } else {
        let rest = layer_numbers(vals.drop_last());
        match vals.last().signed() {
            Some(i) => if 0 <= i <= usize::MAX {
                rest.push(i as usize)
            } else {
                rest
            },
            None => rest,
        }
    }
}

/// The PLE layers a header lists.
pub open spec fn listed_ple_layers(f: GgufFile) -> Seq<usize> {
    match f.value("qwen4exp.ple.layers"@) {
        Some(GgufValue::Array(v)) => layer_numbers(v@),
        _ => Seq::empty(),
    }
}

/// What reading the PLE layers of a trunk of `num_layers` gives.
pub open spec fn ple_layers_of(f: GgufFile, num_layers: nat) -> Result<Seq<usize>, Seq<char>> {
    let layers = listed_ple_layers(f);
    if layers.len() > 1 {
        Err(
            "qwen4exp.ple.layers lists "@ + decimal(layers.len())
                + " layers; only one PLE layer is supported"@,
        )
    } else if layers.len() == 1 && layers[0] >= num_layers {
        Err(
            "PLE layer "@ + decimal(layers[0] as nat) + " is out of range ("@ + decimal(
                num_layers,
            ) + " layers)"@,
        )
    } else {
        Ok(layers)
    }
}

/// `qwen4exp.ple.layers` (absent means none), refusing more than one layer or
/// one past the trunk.
pub fn ple_layers(f: &GgufFile, num_layers: usize) -> (r: Result<Vec<usize>, String>)
    ensures
        crate::gguf::list_outcome(r) == ple_layers_of(*f, num_layers as nat),
{
    let found: Option<&Vec<GgufValue>> = match f.get("qwen4exp.ple.layers") {
        Some(v) => v.as_array(),
        None => None,
    };
    let mut layers: Vec<usize> = Vec::new();
    match found {
        None => {},
        Some(vals) => {
            let mut i: usize = 0;
            assert(vals@.take(0) =~= Seq::<GgufValue>::empty());
            while i < vals.len()
                invariant
                    i <= vals@.len(),
                    layers@ == layer_numbers(vals@.take(i as int)),
                decreases vals@.len() - i,
            {
                proof {
                    let next = vals@.take(i + 1);
                    assert(next.drop_last() =~= vals@.take(i as int));
                    assert(next.last() == vals@[i as int]);
                }
                match vals[i].as_i64() {
                    Some(v) => {
                        if v >= 0 && v as u64 <= usize::MAX as u64 {
                            layers.push(v as usize);
                        }
                    },
                    None => {},
                }
                i += 1;
            }
            assert(vals@.take(i as int) =~= vals@);
        },
    }
    assert(layers@ == listed_ple_layers(*f));
    if layers.len() > 1 {
        let mut m: String = String::new();
        m.append("qwen4exp.ple.layers lists ");
        push_decimal(&mut m, layers.len() as u64);
        m.append(" layers; only one PLE layer is supported");
        return Err(m);
    }
    if layers.len() == 1 && layers[0] >= num_layers {
        let mut m: String = String::new();
        m.append("PLE layer ");
        push_decimal(&mut m, layers[0] as u64);
        m.append(" is out of range (");
        push_decimal(&mut m, num_layers as u64);
        m.append(" layers)");
        return Err(m);
    }
    Ok(layers)
}

/// Integers as `usize`.
pub open spec fn to_sizes(v: Seq<u64>) -> Seq<usize> {
    Seq::new(v.len(), |i: int| v[i] as usize)
}

/// What reading the compress ratios of a trunk of `num_layers` gives.
pub open spec fn ratios_of(f: GgufFile, num_layers: nat) -> Result<Seq<usize>, Seq<char>> {
    match uint_array(
        f,
        "qwen4exp.attention.compress_ratios"@,
        " holds a non-integer or negative entry"@,
    ) {
        Err(e) => Err(e),
        Ok(v) => if exists|i: int| 0 <= i < v.len() && #[trigger] v[i] > usize::MAX {
            Err("compress ratio does not fit usize"@)
        } else if v.len() != num_layers {
            Err(
                "qwen4exp.attention.compress_ratios has "@ + decimal(v.len()) + " entries for "@
                    + decimal(num_layers) + " layers"@,
            )
        } else {
            Ok(to_sizes(v))
        },
    }
}

/// `qwen4exp.attention.compress_ratios`, exactly one entry per layer.
pub fn compress_ratios(f: &GgufFile, num_layers: usize) -> (r: Result<Vec<usize>, String>)
    ensures
        crate::gguf::list_outcome(r) == ratios_of(*f, num_layers as nat),
{
    let raw: Vec<u64> = match meta_u64_array(f, "qwen4exp.attention.compress_ratios") {
        Ok(v) => v,
        Err(e) => {
            return Err(e);
        },
    };
    let mut out: Vec<usize> = Vec::new();
    let mut i: usize = 0;
    while i < raw.len()
        invariant
            i <= raw@.len(),
            uint_array(
                *f,
                "qwen4exp.attention.compress_ratios"@,
                " holds a non-integer or negative entry"@,
            ) == Ok::<_, Seq<char>>(raw@),
            out@.len() == i,
            forall|k: int| 0 <= k < i ==> (#[trigger] raw@[k]) <= usize::MAX && out@[k] == raw@[k],
        decreases raw@.len() - i,
    {
        if raw[i] > usize::MAX as u64 {
            assert(raw@[i as int] > usize::MAX);
            return Err("compress ratio does not fit usize".to_owned());
        }
        out.push(raw[i] as usize);
        i += 1;
    }
    assert(out@ =~= to_sizes(raw@));
    if out.len() != num_layers {
        let mut m: String = String::new();
        m.append("qwen4exp.attention.compress_ratios has ");
        push_decimal(&mut m, out.len() as u64);
        m.append(" entries for ");
        push_decimal(&mut m, num_layers as u64);
        m.append(" layers");
        return Err(m);
    }
    Ok(out)
}

/// The PLE hash arrays as the header carries them.
#[derive(Debug)]
pub struct PleHashArrays {
    pub multipliers: Vec<u64>,
    pub head_offsets: Vec<u64>,
    pub head_vocab_sizes: Vec<u64>,
}

/// What reading the hash arrays gives: multipliers, offsets and vocabulary
/// sizes, or the first failure.
pub open spec fn hash_arrays_of(f: GgufFile) -> Result<
    (Seq<u64>, Seq<u64>, Seq<u64>),
    Seq<char>,
> {
    let complaint = " holds a non-integer or negative entry"@;
    match uint_array(f, "qwen4exp.ple.layer_multipliers"@, complaint) {
        Err(e) => Err(e),
        Ok(m) => match uint_array(f, "qwen4exp.ple.head_offsets"@, complaint) {
            Err(e) => Err(e),
            Ok(o) => match uint_array(f, "qwen4exp.ple.head_vocab_sizes"@, complaint) {
                Err(e) => Err(e),
                Ok(v) => if o.len() != v.len() {
                    Err(
                        "PLE has "@ + decimal(o.len()) + " head offsets but "@ + decimal(v.len())
                            + " head vocab sizes"@,
                    )
                } else {
                    Ok((m, o, v))
                },
            },
        },
    }
}

/// `qwen4exp.ple.{layer_multipliers, head_offsets, head_vocab_sizes}`: one
/// offset per head vocabulary, or the table cannot be indexed at all.
pub fn ple_hash_arrays(f: &GgufFile) -> (r: Result<PleHashArrays, String>)
    ensures
        match r {
            Ok(a) => hash_arrays_of(*f) == Ok::<_, Seq<char>>(
                (a.multipliers@, a.head_offsets@, a.head_vocab_sizes@),
            ),
            Err(e) => hash_arrays_of(*f) == Err::<(Seq<u64>, Seq<u64>, Seq<u64>), _>(e@),
        },
{
    let multipliers: Vec<u64> = match meta_u64_array(f, "qwen4exp.ple.layer_multipliers") {
        Ok(v) => v,
        Err(e) => {
            return Err(e);
        },
    };
    let head_offsets: Vec<u64> = match meta_u64_array(f, "qwen4exp.ple.head_offsets") {
        Ok(v) => v,
        Err(e) => {
            return Err(e);
        },
    };
    let head_vocab_sizes: Vec<u64> = match meta_u64_array(f, "qwen4exp.ple.head_vocab_sizes") {
        Ok(v) => v,
        Err(e) => {
            return Err(e);
        },
    };
    if head_offsets.len() != head_vocab_sizes.len() {
        let mut m: String = String::new();
        m.append("PLE has ");
        push_decimal(&mut m, head_offsets.len() as u64);
        m.append(" head offsets but ");
        push_decimal(&mut m, head_vocab_sizes.len() as u64);
        m.append(" head vocab sizes");
        return Err(m);
    }
    Ok(PleHashArrays { multipliers, head_offsets, head_vocab_sizes })
}

/// Is every element a signed integer that is a size?
pub open spec fn all_sizes(vals: Seq<GgufValue>) -> bool {
    forall|i: int|
        0 <= i < vals.len() ==> (#[trigger] vals[i]).signed() is Some && 0 <= vals[i].signed()->0
            <= usize::MAX
}

/// The elements as sizes.
pub open spec fn sections_of(vals: Seq<GgufValue>) -> Seq<u64> {
    Seq::new(vals.len(), |i: int| vals[i].signed()->0 as u64)
}

/// Are the sections text-degenerate for `rope_dim` rotated dims: four of
/// them, the last one empty, the other three covering every rotated
/// frequency?
pub open spec fn text_degenerate(sections: Seq<u64>, rope_dim: int) -> bool {
    sections.len() == 4 && sections[3] == 0 && 2 * (sections[0] + sections[1] + sections[2])
        == rope_dim
}

/// What reading the rotated width gives.
pub open spec fn rope_dim_of(f: GgufFile) -> Result<usize, Seq<char>> {
    match usize_key(f, "qwen4exp.rope.dimension_count"@) {
        Err(e) => Err(e),
        Ok(rope_dim) => match f.value("qwen4exp.rope.dimension_sections"@) {
            Some(GgufValue::Array(v)) => if !all_sizes(v@) {
                Err("rope.dimension_sections holds a non-integer entry"@)
            } else if !text_degenerate(sections_of(v@), rope_dim as int) {
                Err(
                    "rope.dimension_sections "@ + list_text(sections_of(v@))
                        + " is not text-degenerate for rope.dimension_count "@ + decimal(
                        rope_dim as nat,
                    ) + ": only [t, h, w, 0] with 2*(t+h+w) == rope_dim is implemented"@,
                )
            } else {
                Ok(rope_dim)
            },
            _ => Err("GGUF metadata missing array qwen4exp.rope.dimension_sections"@),
        },
    }
}

/// `qwen4exp.rope.dimension_count`, accepted only when the header's
/// `rope.dimension_sections` are text-degenerate.
///
/// The attention layers run plain partial RoPE over `rope_dim` dims. That is
/// exact only while every rotated frequency is assigned to the first three
/// sections, which all equal the token position for text.
pub fn text_rope_dim(f: &GgufFile) -> (r: Result<usize, String>)
    requires
        header_fits(*f),
    ensures
        outcome(r) == rope_dim_of(*f),
{
    let rope_dim: usize = match meta_usize(f, "qwen4exp.rope.dimension_count") {
        Ok(v) => v,
        Err(e) => {
            return Err(e);
        },
    };
    let found: Option<&Vec<GgufValue>> = match f.get("qwen4exp.rope.dimension_sections") {
        Some(v) => v.as_array(),
        None => None,
    };
    let vals: &Vec<GgufValue> = match found {
        Some(v) => v,
        None => {
            return Err(
                "GGUF metadata missing array qwen4exp.rope.dimension_sections".to_owned(),
            );
        },
    };
    let mut sections: Vec<u64> = Vec::new();
    let mut i: usize = 0;
    while i < vals.len()
        invariant
            i <= vals@.len(),
            usize_key(*f, "qwen4exp.rope.dimension_count"@) == Ok::<_, Seq<char>>(rope_dim),
            f.value("qwen4exp.rope.dimension_sections"@) is Some,
            f.value("qwen4exp.rope.dimension_sections"@)->0.elements() == Some(vals@),
            sections@.len() == i,
            forall|k: int|
                0 <= k < i ==> (#[trigger] vals@[k]).signed() is Some && 0
                    <= vals@[k].signed()->0 <= usize::MAX && sections@[k]
                    == vals@[k].signed()->0,
        decreases vals@.len() - i,
    {
        let n: Option<i64> = vals[i].as_i64();
        let size: Option<u64> = match n {
            Some(v) => if v >= 0 && v as u64 <= usize::MAX as u64 {
                Some(v as u64)
            } else {
                None
            },
            None => None,
        };
        match size {
            Some(v) => {
                sections.push(v);
            },
            None => {
                assert(!all_sizes(vals@)) by {
                    assert(vals@[i as int].signed() == n);
                }
                return Err("rope.dimension_sections holds a non-integer entry".to_owned());
            },
        }
        i += 1;
    }
    assert(sections@ =~= sections_of(vals@));
    let degenerate: bool = sections.len() == 4 && sections[3] == 0 && 2 * (sections[0] as u128
        + sections[1] as u128 + sections[2] as u128) == rope_dim as u128;
    if !degenerate {
        let mut m: String = String::new();
        m.append("rope.dimension_sections ");
        push_list(&mut m, &sections);
        m.append(" is not text-degenerate for rope.dimension_count ");
        push_decimal(&mut m, rope_dim as u64);
        m.append(": only [t, h, w, 0] with 2*(t+h+w) == rope_dim is implemented");
        return Err(m);
    }
    Ok(rope_dim)
}

/// The scalar keys every header must carry, in reading order.
struct Scalars {
    pub hidden_size: usize,
    pub num_attention_heads: usize,
    pub num_key_value_heads: usize,
    pub head_dim: usize,
    pub rms_norm_eps: F32Bits,
    pub rope_theta: F32Bits,
    pub conv_kernel: usize,
    pub d_inner: usize,
    pub d_state: usize,
    pub n_k_heads: usize,
    pub n_v_heads: usize,
    pub expert_ffn_size: usize,
    pub expert_shared_ffn_size: usize,
    pub hyper_connection_count: usize,
    pub hyper_connection_low_rank: usize,
    pub indexer_head_count: usize,
    pub indexer_key_length: usize,
    pub indexer_top_k: usize,
    pub ple_ngram_size: usize,
    pub ple_heads_per_ngram: usize,
    pub ple_conv_kernel: usize,
    pub ple_row_width: usize,
}

/// The first scalar key that is missing.
pub open spec fn scalar_refusal(f: GgufFile) -> Option<Seq<char>> {
    if usize_key(f, "qwen4exp.embedding_length"@) is Err {
        Some(missing_text("qwen4exp.embedding_length"@))
    } else if usize_key(f, "qwen4exp.attention.head_count"@) is Err {
        Some(missing_text("qwen4exp.attention.head_count"@))
    } else if usize_key(f, "qwen4exp.attention.head_count_kv"@) is Err {
        Some(missing_text("qwen4exp.attention.head_count_kv"@))
    } else if usize_key(f, "qwen4exp.attention.key_length"@) is Err {
        Some(missing_text("qwen4exp.attention.key_length"@))
    } else if f32_key(f, "qwen4exp.attention.layer_norm_rms_epsilon"@) is Err {
        Some(missing_text("qwen4exp.attention.layer_norm_rms_epsilon"@))
    } else if f32_key(f, "qwen4exp.rope.freq_base"@) is Err {
        Some(missing_text("qwen4exp.rope.freq_base"@))
    } else if usize_key(f, "qwen4exp.ssm.conv_kernel"@) is Err {
        Some(missing_text("qwen4exp.ssm.conv_kernel"@))
    } else if usize_key(f, "qwen4exp.ssm.inner_size"@) is Err {
        Some(missing_text("qwen4exp.ssm.inner_size"@))
    } else if usize_key(f, "qwen4exp.ssm.state_size"@) is Err {
        Some(missing_text("qwen4exp.ssm.state_size"@))
    } else if usize_key(f, "qwen4exp.ssm.group_count"@) is Err {
        Some(missing_text("qwen4exp.ssm.group_count"@))
    } else if usize_key(f, "qwen4exp.ssm.time_step_rank"@) is Err {
        Some(missing_text("qwen4exp.ssm.time_step_rank"@))
    } else if usize_key(f, "qwen4exp.expert_feed_forward_length"@) is Err {
        Some(missing_text("qwen4exp.expert_feed_forward_length"@))
    } else if usize_key(f, "qwen4exp.expert_shared_feed_forward_length"@) is Err {
        Some(missing_text("qwen4exp.expert_shared_feed_forward_length"@))
    } else if usize_key(f, "qwen4exp.hyper_connection.count"@) is Err {
        Some(missing_text("qwen4exp.hyper_connection.count"@))
    } else if usize_key(f, "qwen4exp.hyper_connection.low_rank"@) is Err {
        Some(missing_text("qwen4exp.hyper_connection.low_rank"@))
    } else if usize_key(f, "qwen4exp.attention.indexer.head_count"@) is Err {
        Some(missing_text("qwen4exp.attention.indexer.head_count"@))
    } else if usize_key(f, "qwen4exp.attention.indexer.key_length"@) is Err {
        Some(missing_text("qwen4exp.attention.indexer.key_length"@))
    } else if usize_key(f, "qwen4exp.attention.indexer.top_k"@) is Err {
        Some(missing_text("qwen4exp.attention.indexer.top_k"@))
    } else if usize_key(f, "qwen4exp.ple.ngram_size"@) is Err {
        Some(missing_text("qwen4exp.ple.ngram_size"@))
    } else if usize_key(f, "qwen4exp.ple.heads_per_ngram"@) is Err {
        Some(missing_text("qwen4exp.ple.heads_per_ngram"@))
    } else if usize_key(f, "qwen4exp.ple.conv_kernel"@) is Err {
        Some(missing_text("qwen4exp.ple.conv_kernel"@))
    } else if usize_key(f, "qwen4exp.embedding_length_per_layer_input"@) is Err {
        Some(missing_text("qwen4exp.embedding_length_per_layer_input"@))
    } else {
        None
    }
}

impl Scalars {
    /// Do these hold what the header carries?
    spec fn reads(self, f: GgufFile) -> bool {
            &&& usize_key(f, "qwen4exp.embedding_length"@) == Ok::<_, Seq<char>>(self.hidden_size)
            &&& usize_key(f, "qwen4exp.attention.head_count"@) == Ok::<_, Seq<char>>(self.num_attention_heads)
            &&& usize_key(f, "qwen4exp.attention.head_count_kv"@) == Ok::<_, Seq<char>>(self.num_key_value_heads)
            &&& usize_key(f, "qwen4exp.attention.key_length"@) == Ok::<_, Seq<char>>(self.head_dim)
            &&& f32_key(f, "qwen4exp.attention.layer_norm_rms_epsilon"@) == Ok::<_, Seq<char>>(self.rms_norm_eps)
            &&& f32_key(f, "qwen4exp.rope.freq_base"@) == Ok::<_, Seq<char>>(self.rope_theta)
            &&& usize_key(f, "qwen4exp.ssm.conv_kernel"@) == Ok::<_, Seq<char>>(self.conv_kernel)
            &&& usize_key(f, "qwen4exp.ssm.inner_size"@) == Ok::<_, Seq<char>>(self.d_inner)
            &&& usize_key(f, "qwen4exp.ssm.state_size"@) == Ok::<_, Seq<char>>(self.d_state)
            &&& usize_key(f, "qwen4exp.ssm.group_count"@) == Ok::<_, Seq<char>>(self.n_k_heads)
            &&& usize_key(f, "qwen4exp.ssm.time_step_rank"@) == Ok::<_, Seq<char>>(self.n_v_heads)
            &&& usize_key(f, "qwen4exp.expert_feed_forward_length"@) == Ok::<_, Seq<char>>(self.expert_ffn_size)
            &&& usize_key(f, "qwen4exp.expert_shared_feed_forward_length"@) == Ok::<_, Seq<char>>(self.expert_shared_ffn_size)
            &&& usize_key(f, "qwen4exp.hyper_connection.count"@) == Ok::<_, Seq<char>>(self.hyper_connection_count)
            &&& usize_key(f, "qwen4exp.hyper_connection.low_rank"@) == Ok::<_, Seq<char>>(self.hyper_connection_low_rank)
            &&& usize_key(f, "qwen4exp.attention.indexer.head_count"@) == Ok::<_, Seq<char>>(self.indexer_head_count)
            &&& usize_key(f, "qwen4exp.attention.indexer.key_length"@) == Ok::<_, Seq<char>>(self.indexer_key_length)
            &&& usize_key(f, "qwen4exp.attention.indexer.top_k"@) == Ok::<_, Seq<char>>(self.indexer_top_k)
            &&& usize_key(f, "qwen4exp.ple.ngram_size"@) == Ok::<_, Seq<char>>(self.ple_ngram_size)
            &&& usize_key(f, "qwen4exp.ple.heads_per_ngram"@) == Ok::<_, Seq<char>>(self.ple_heads_per_ngram)
            &&& usize_key(f, "qwen4exp.ple.conv_kernel"@) == Ok::<_, Seq<char>>(self.ple_conv_kernel)
            &&& usize_key(f, "qwen4exp.embedding_length_per_layer_input"@) == Ok::<_, Seq<char>>(self.ple_row_width)
    }

    /// Read the scalar keys in order.
    fn read(f: &GgufFile) -> (r: Result<Scalars, String>)
        requires
            header_fits(*f),
        ensures
            match r {
                Ok(s) => scalar_refusal(*f) is None && s.reads(*f),
                Err(e) => scalar_refusal(*f) == Some(e@),
            },
    {
        let hidden_size: usize = match meta_usize(f, "qwen4exp.embedding_length") {
            Ok(v) => v,
            Err(e) => {
                return Err(e);
            },
        };
        let num_attention_heads: usize = match meta_usize(f, "qwen4exp.attention.head_count") {
            Ok(v) => v,
            Err(e) => {
                return Err(e);
            },
        };
        let num_key_value_heads: usize = match meta_usize(f, "qwen4exp.attention.head_count_kv") {
            Ok(v) => v,
            Err(e) => {
                return Err(e);
            },
        };
        let head_dim: usize = match meta_usize(f, "qwen4exp.attention.key_length") {
            Ok(v) => v,
            Err(e) => {
                return Err(e);
            },
        };
        let rms_norm_eps: F32Bits = match meta_f32(f, "qwen4exp.attention.layer_norm_rms_epsilon") {
            Ok(v) => v,
            Err(e) => {
                return Err(e);
            },
        };
        let rope_theta: F32Bits = match meta_f32(f, "qwen4exp.rope.freq_base") {
            Ok(v) => v,
            Err(e) => {
                return Err(e);
            },
        };
        let conv_kernel: usize = match meta_usize(f, "qwen4exp.ssm.conv_kernel") {
            Ok(v) => v,
            Err(e) => {
                return Err(e);
            },
        };
        let d_inner: usize = match meta_usize(f, "qwen4exp.ssm.inner_size") {
            Ok(v) => v,
            Err(e) => {
                return Err(e);
            },
        };
        let d_state: usize = match meta_usize(f, "qwen4exp.ssm.state_size") {
            Ok(v) => v,
            Err(e) => {
                return Err(e);
            },
        };
        let n_k_heads: usize = match meta_usize(f, "qwen4exp.ssm.group_count") {
            Ok(v) => v,
            Err(e) => {
                return Err(e);
            },
        };
        let n_v_heads: usize = match meta_usize(f, "qwen4exp.ssm.time_step_rank") {
            Ok(v) => v,
            Err(e) => {
                return Err(e);
            },
        };
        let expert_ffn_size: usize = match meta_usize(f, "qwen4exp.expert_feed_forward_length") {
            Ok(v) => v,
            Err(e) => {
                return Err(e);
            },
        };
        let expert_shared_ffn_size: usize = match meta_usize(f, "qwen4exp.expert_shared_feed_forward_length") {
            Ok(v) => v,
            Err(e) => {
                return Err(e);
            },
        };
        let hyper_connection_count: usize = match meta_usize(f, "qwen4exp.hyper_connection.count") {
            Ok(v) => v,
            Err(e) => {
                return Err(e);
            },
        };
        let hyper_connection_low_rank: usize = match meta_usize(f, "qwen4exp.hyper_connection.low_rank") {
            Ok(v) => v,
            Err(e) => {
                return Err(e);
            },
        };
        let indexer_head_count: usize = match meta_usize(f, "qwen4exp.attention.indexer.head_count") {
            Ok(v) => v,
            Err(e) => {
                return Err(e);
            },
        };
        let indexer_key_length: usize = match meta_usize(f, "qwen4exp.attention.indexer.key_length") {
            Ok(v) => v,
            Err(e) => {
                return Err(e);
            },
        };
        let indexer_top_k: usize = match meta_usize(f, "qwen4exp.attention.indexer.top_k") {
            Ok(v) => v,
            Err(e) => {
                return Err(e);
            },
        };
        let ple_ngram_size: usize = match meta_usize(f, "qwen4exp.ple.ngram_size") {
            Ok(v) => v,
            Err(e) => {
                return Err(e);
            },
        };
        let ple_heads_per_ngram: usize = match meta_usize(f, "qwen4exp.ple.heads_per_ngram") {
            Ok(v) => v,
            Err(e) => {
                return Err(e);
            },
        };
        let ple_conv_kernel: usize = match meta_usize(f, "qwen4exp.ple.conv_kernel") {
            Ok(v) => v,
            Err(e) => {
                return Err(e);
            },
        };
        let ple_row_width: usize = match meta_usize(f, "qwen4exp.embedding_length_per_layer_input") {
            Ok(v) => v,
            Err(e) => {
                return Err(e);
            },
        };
        Ok(
            Scalars {
                hidden_size,
                num_attention_heads,
                num_key_value_heads,
                head_dim,
                rms_norm_eps,
                rope_theta,
                conv_kernel,
                d_inner,
                d_state,
                n_k_heads,
                n_v_heads,
                expert_ffn_size,
                expert_shared_ffn_size,
                hyper_connection_count,
                hyper_connection_low_rank,
                indexer_head_count,
                indexer_key_length,
                indexer_top_k,
                ple_ngram_size,
                ple_heads_per_ngram,
                ple_conv_kernel,
                ple_row_width,
            },
        )
    }
}

/// The token ids of a header: the PLE reset token, the optional image token
/// and the tokenizer EOS.
pub open spec fn token_ids_of(f: GgufFile) -> Result<(u32, Option<u32>, u32), Seq<char>> {
    let reset = match f.value("qwen4exp.ple.eos_token_id"@) {
        Some(v) => non_negative_of(v),
        None => None,
    };
    let image = match f.value("qwen4exp.ple.image_token_id"@) {
        Some(v) => non_negative_of(v),
        None => None,
    };
    let eos = match f.value("tokenizer.ggml.eos_token_id"@) {
        Some(v) => v.unsigned(),
        None => None,
    };
    if reset is None {
        Err("GGUF metadata missing qwen4exp.ple.eos_token_id"@)
    } else if reset->0 > u32::MAX {
        Err("PLE eos token id does not fit u32"@)
    } else if image is Some && image->0 > u32::MAX {
        Err("PLE image token id does not fit u32"@)
    } else if eos is None {
        Err("GGUF metadata missing tokenizer.ggml.eos_token_id"@)
    } else if eos->0 > u32::MAX {
        Err("eos token id does not fit u32"@)
    } else {
        Ok(
            (
                reset->0 as u32,
                match image {
                    Some(v) => Some(v as u32),
                    None => None,
                },
                eos->0 as u32,
            ),
        )
    }
}

/// Read the token ids. The reset token is required, never defaulted to the
/// tokenizer EOS (they differ).
fn token_ids(f: &GgufFile) -> (r: Result<(u32, Option<u32>, u32), String>)
    ensures
        outcome(r) == token_ids_of(*f),
{
    let reset: u64 = match f.get("qwen4exp.ple.eos_token_id") {
        Some(v) => match non_negative(v) {
            Some(u) => u,
            None => {
                return Err("GGUF metadata missing qwen4exp.ple.eos_token_id".to_owned());
            },
        },
        None => {
            return Err("GGUF metadata missing qwen4exp.ple.eos_token_id".to_owned());
        },
    };
    if reset > u32::MAX as u64 {
        return Err("PLE eos token id does not fit u32".to_owned());
    }
    let image: Option<u64> = match f.get("qwen4exp.ple.image_token_id") {
        Some(v) => non_negative(v),
        None => None,
    };
    let image_id: Option<u32> = match image {
        Some(v) => {
            if v > u32::MAX as u64 {
                return Err("PLE image token id does not fit u32".to_owned());
            }
            Some(v as u32)
        },
        None => None,
    };
    let eos: u64 = match f.get("tokenizer.ggml.eos_token_id") {
        Some(v) => match v.as_u64() {
            Some(u) => u,
            None => {
                return Err("GGUF metadata missing tokenizer.ggml.eos_token_id".to_owned());
            },
        },
        None => {
            return Err("GGUF metadata missing tokenizer.ggml.eos_token_id".to_owned());
        },
    };
    if eos > u32::MAX as u64 {
        return Err("eos token id does not fit u32".to_owned());
    }
    Ok((reset as u32, image_id, eos as u32))
}

/// The name of the token embedding, which carries the vocabulary size.
pub const TOKEN_EMBD: &'static str = "token_embd.weight";

/// The vocabulary, layer, interval and expert counts that open a header.
pub open spec fn counts_of(f: GgufFile) -> Result<(usize, usize, usize, usize, usize), Seq<char>> {
    let arch = match f.arch() {
        Some(a) => a,
        None => "<missing>"@,
    };
    if arch != "qwen4exp"@ {
        Err("GGUF architecture '"@ + arch + "' is not qwen4exp"@)
    } else {
        match f.index_of(TOKEN_EMBD@) {
            None => Err(
                "GGUF has no token_embd.weight (open the split set with open_sharded)"@,
            ),
            Some(i) => if f.tensors@[i].dims@.len() != 2 {
                Err("token_embd is not 2-D"@)
            } else {
                match usize_key(f, "qwen4exp.block_count"@) {
                    Err(e) => Err(e),
                    Ok(layers) => match usize_key(f, "qwen4exp.full_attention_interval"@) {
                        Err(e) => Err(e),
                        Ok(interval) => if interval == 0 {
                            Err("full_attention_interval must be non-zero"@)
                        } else {
                            match usize_key(f, "qwen4exp.expert_count"@) {
                                Err(e) => Err(e),
                                Ok(experts) => match usize_key(
                                    f,
                                    "qwen4exp.expert_used_count"@,
                                ) {
                                    Err(e) => Err(e),
                                    Ok(used) => if used > experts {
                                        Err(
                                            "expert_used_count ("@ + decimal(used as nat)
                                                + ") exceeds expert_count ("@ + decimal(
                                                experts as nat,
                                            ) + ")"@,
                                        )
                                    } else {
                                        Ok(
                                            (
                                                f.tensors@[i].dims@[1] as usize,
                                                layers,
                                                interval,
                                                experts,
                                                used,
                                            ),
                                        )
                                    },
                                },
                            }
                        },
                    },
                }
            },
        }
    }
}

/// Does the vocabulary dimension fit in `usize`?
pub open spec fn vocab_fits(f: GgufFile) -> bool {
    match f.index_of(TOKEN_EMBD@) {
        Some(i) => f.tensors@[i].dims@.len() >= 2 ==> f.tensors@[i].dims@[1] <= usize::MAX,
        None => true,
    }
}

/// Read the vocabulary, layer, interval and expert counts.
fn counts(f: &GgufFile) -> (r: Result<(usize, usize, usize, usize, usize), String>)
    requires
        header_fits(*f),
        vocab_fits(*f),
    ensures
        outcome(r) == counts_of(*f),
{
    let arch: &str = match f.architecture() {
        Some(a) => a,
        None => "<missing>",
    };
    if !same_text(arch, "qwen4exp") {
        let mut m: String = String::new();
        m.append("GGUF architecture '");
        m.append(arch);
        m.append("' is not qwen4exp");
        return Err(m);
    }
    let embd = match f.tensor(TOKEN_EMBD) {
        Some(t) => t,
        None => {
            return Err(
                "GGUF has no token_embd.weight (open the split set with open_sharded)".to_owned(),
            );
        },
    };
    if embd.dims.len() != 2 {
        return Err("token_embd is not 2-D".to_owned());
    }
    let vocab: usize = embd.dims[1] as usize;
    let layers: usize = match meta_usize(f, "qwen4exp.block_count") {
        Ok(v) => v,
        Err(e) => {
            return Err(e);
        },
    };
    let interval: usize = match meta_usize(f, "qwen4exp.full_attention_interval") {
        Ok(v) => v,
        Err(e) => {
            return Err(e);
        },
    };
    if interval == 0 {
        return Err("full_attention_interval must be non-zero".to_owned());
    }
    let experts: usize = match meta_usize(f, "qwen4exp.expert_count") {
        Ok(v) => v,
        Err(e) => {
            return Err(e);
        },
    };
    let used: usize = match meta_usize(f, "qwen4exp.expert_used_count") {
        Ok(v) => v,
        Err(e) => {
            return Err(e);
        },
    };
    if used > experts {
        let mut m: String = String::new();
        m.append("expert_used_count (");
        push_decimal(&mut m, used as u64);
        m.append(") exceeds expert_count (");
        push_decimal(&mut m, experts as u64);
        m.append(")");
        return Err(m);
    }
    Ok((vocab, layers, interval, experts, used))
}

/// The failure text of an outcome, if it is one.
pub open spec fn failure<T>(r: Result<T, Seq<char>>) -> Option<Seq<char>> {
    match r {
        Ok(_) => None,
        Err(e) => Some(e),
    }
}

/// Why a header cannot be read as a `qwen4exp` configuration: the first
/// failure in reading order.
pub open spec fn header_refusal(f: GgufFile) -> Option<Seq<char>> {
    match counts_of(f) {
        Err(e) => Some(e),
        Ok(c) => first_refusal(
            failure(ple_layers_of(f, c.1 as nat)),
            first_refusal(
                failure(ratios_of(f, c.1 as nat)),
                first_refusal(
                    failure(hash_arrays_of(f)),
                    first_refusal(
                        failure(rope_dim_of(f)),
                        first_refusal(scalar_refusal(f), failure(token_ids_of(f))),
                    ),
                ),
            ),
        ),
    }
}

impl Qwen4expConfig {
    /// Does this configuration hold exactly what the header carries?
    pub open spec fn reads_header(self, f: GgufFile) -> bool {
        &&& usize_key(f, "qwen4exp.embedding_length"@) == Ok::<_, Seq<char>>(self.hidden_size)
        &&& usize_key(f, "qwen4exp.attention.head_count"@) == Ok::<_, Seq<char>>(self.num_attention_heads)
        &&& usize_key(f, "qwen4exp.attention.head_count_kv"@) == Ok::<_, Seq<char>>(self.num_key_value_heads)
        &&& usize_key(f, "qwen4exp.attention.key_length"@) == Ok::<_, Seq<char>>(self.head_dim)
        &&& f32_key(f, "qwen4exp.attention.layer_norm_rms_epsilon"@) == Ok::<_, Seq<char>>(self.rms_norm_eps)
        &&& f32_key(f, "qwen4exp.rope.freq_base"@) == Ok::<_, Seq<char>>(self.rope_theta)
        &&& usize_key(f, "qwen4exp.ssm.conv_kernel"@) == Ok::<_, Seq<char>>(self.conv_kernel)
        &&& usize_key(f, "qwen4exp.ssm.inner_size"@) == Ok::<_, Seq<char>>(self.d_inner)
        &&& usize_key(f, "qwen4exp.ssm.state_size"@) == Ok::<_, Seq<char>>(self.d_state)
        &&& usize_key(f, "qwen4exp.ssm.group_count"@) == Ok::<_, Seq<char>>(self.n_k_heads)
        &&& usize_key(f, "qwen4exp.ssm.time_step_rank"@) == Ok::<_, Seq<char>>(self.n_v_heads)
        &&& usize_key(f, "qwen4exp.expert_feed_forward_length"@) == Ok::<_, Seq<char>>(self.expert_ffn_size)
        &&& usize_key(f, "qwen4exp.expert_shared_feed_forward_length"@) == Ok::<_, Seq<char>>(self.expert_shared_ffn_size)
        &&& usize_key(f, "qwen4exp.hyper_connection.count"@) == Ok::<_, Seq<char>>(self.hyper_connection_count)
        &&& usize_key(f, "qwen4exp.hyper_connection.low_rank"@) == Ok::<_, Seq<char>>(self.hyper_connection_low_rank)
        &&& usize_key(f, "qwen4exp.attention.indexer.head_count"@) == Ok::<_, Seq<char>>(self.indexer_head_count)
        &&& usize_key(f, "qwen4exp.attention.indexer.key_length"@) == Ok::<_, Seq<char>>(self.indexer_key_length)
        &&& usize_key(f, "qwen4exp.attention.indexer.top_k"@) == Ok::<_, Seq<char>>(self.indexer_top_k)
        &&& usize_key(f, "qwen4exp.ple.ngram_size"@) == Ok::<_, Seq<char>>(self.ple_ngram_size)
        &&& usize_key(f, "qwen4exp.ple.heads_per_ngram"@) == Ok::<_, Seq<char>>(self.ple_heads_per_ngram)
        &&& usize_key(f, "qwen4exp.ple.conv_kernel"@) == Ok::<_, Seq<char>>(self.ple_conv_kernel)
        &&& usize_key(f, "qwen4exp.embedding_length_per_layer_input"@) == Ok::<_, Seq<char>>(self.ple_row_width)
        &&& counts_of(f) == Ok::<_, Seq<char>>(
            (
                self.vocab_size,
                self.num_layers,
                self.full_attention_interval,
                self.expert_count,
                self.expert_used_count,
            ),
        )
        &&& ple_layers_of(f, self.num_layers as nat) == Ok::<_, Seq<char>>(self.ple_layers@)
        &&& ratios_of(f, self.num_layers as nat) == Ok::<_, Seq<char>>(
            self.attention_compress_ratios@,
        )
        &&& hash_arrays_of(f) == Ok::<_, Seq<char>>(
            (
                self.ple_layer_multipliers@,
                self.ple_head_offsets@,
                self.ple_head_vocab_sizes@,
            ),
        )
        &&& rope_dim_of(f) == Ok::<_, Seq<char>>(self.rope_dim)
        &&& token_ids_of(f) == Ok::<_, Seq<char>>(
            (self.ple_eos_token_id, self.ple_image_token_id, self.eos_token_id),
        )
    }

    /// Hyperparameters from a GGUF header's `qwen4exp.*` metadata.
    ///
    /// `f` should be the merged header of a split set: a first shard may
    /// carry the full metadata but no tensors, and `token_embd.weight`,
    /// where the vocabulary size comes from, only exists once the shards are
    /// joined. A header that reads is then validated
    /// ([`Self::validate`]); `blocks` is what the shared blocks say of their
    /// configuration, and is asked last.
    pub fn from_gguf<B: Fn(&Qwen35Config) -> Result<(), String>>(f: &GgufFile, blocks: B) -> (r:
        Result<Self, String>)
        requires
            header_fits(*f),
            vocab_fits(*f),
            forall|c: &Qwen35Config| #[trigger] call_requires(blocks, (c,)),
        ensures
            match r {
                Ok(cfg) => {
                    &&& header_refusal(*f) is None
                    &&& cfg.reads_header(*f)
                    &&& is_of_header(*f, cfg)
                    &&& carries_number(
                        *f,
                        "qwen4exp.ple.eos_token_id"@,
                        cfg.ple_eos_token_id as int,
                    )
                    &&& carries_number(
                        *f,
                        "tokenizer.ggml.eos_token_id"@,
                        cfg.eos_token_id as int,
                    )
                    &&& cfg.refusal() is None
                    &&& call_ensures(blocks, (&cfg.blocks(),), Ok(()))
                },
                Err(e) => header_refusal(*f) == Some(e@) || (header_refusal(*f) is None && exists|
                    cfg: Qwen4expConfig,
                | #[trigger]
                    cfg.reads_header(*f) && (cfg.refusal() == Some(e@) || (cfg.refusal() is None
                        && call_ensures(blocks, (&cfg.blocks(),), Err(e))))),
            },
    {
        let c: (usize, usize, usize, usize, usize) = match counts(f) {
            Ok(v) => v,
            Err(e) => {
                return Err(e);
            },
        };
        let ple_layers: Vec<usize> = match ple_layers(f, c.1) {
            Ok(v) => v,
            Err(e) => {
                return Err(e);
            },
        };
        let attention_compress_ratios: Vec<usize> = match compress_ratios(f, c.1) {
            Ok(v) => v,
            Err(e) => {
                return Err(e);
            },
        };
        let arrays: PleHashArrays = match ple_hash_arrays(f) {
            Ok(v) => v,
            Err(e) => {
                return Err(e);
            },
        };
        let rope_dim: usize = match text_rope_dim(f) {
            Ok(v) => v,
            Err(e) => {
                return Err(e);
            },
        };
        let scalars: Scalars = match Scalars::read(f) {
            Ok(v) => v,
            Err(e) => {
                return Err(e);
            },
        };
        let ids: (u32, Option<u32>, u32) = match token_ids(f) {
            Ok(v) => v,
            Err(e) => {
                return Err(e);
            },
        };
        let cfg: Qwen4expConfig = Qwen4expConfig {
            vocab_size: c.0,
            num_layers: c.1,
            full_attention_interval: c.2,
            expert_count: c.3,
            expert_used_count: c.4,
            rope_dim,
            ple_layers,
            ple_layer_multipliers: arrays.multipliers,
            ple_head_offsets: arrays.head_offsets,
            ple_head_vocab_sizes: arrays.head_vocab_sizes,
            ple_eos_token_id: ids.0,
            ple_image_token_id: ids.1,
            attention_compress_ratios,
            eos_token_id: ids.2,
            hidden_size: scalars.hidden_size,
            num_attention_heads: scalars.num_attention_heads,
            num_key_value_heads: scalars.num_key_value_heads,
            head_dim: scalars.head_dim,
            rms_norm_eps: scalars.rms_norm_eps,
            rope_theta: scalars.rope_theta,
            conv_kernel: scalars.conv_kernel,
            d_inner: scalars.d_inner,
            d_state: scalars.d_state,
            n_k_heads: scalars.n_k_heads,
            n_v_heads: scalars.n_v_heads,
            expert_ffn_size: scalars.expert_ffn_size,
            expert_shared_ffn_size: scalars.expert_shared_ffn_size,
            hyper_connection_count: scalars.hyper_connection_count,
            hyper_connection_low_rank: scalars.hyper_connection_low_rank,
            indexer_head_count: scalars.indexer_head_count,
            indexer_key_length: scalars.indexer_key_length,
            indexer_top_k: scalars.indexer_top_k,
            ple_ngram_size: scalars.ple_ngram_size,
            ple_heads_per_ngram: scalars.ple_heads_per_ngram,
            ple_conv_kernel: scalars.ple_conv_kernel,
            ple_row_width: scalars.ple_row_width,
        };
        assert(cfg.reads_header(*f));
        proof {
            a_configuration_is_of_its_header(*f, cfg);
        }
        match cfg.validate(Ok(())) {
            Ok(_) => {},
            Err(e) => {
                return Err(e);
            },
        }
        let verdict: Result<(), String> = blocks(&cfg.blocks_config());
        match verdict {
            Ok(done) => {
                assert(done == ());
                Ok(cfg)
            },
            Err(e) => Err(e),
        }
    }
}

} // verus!
