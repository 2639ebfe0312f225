//! The configuration of the attention and DeltaNet blocks shared with the
//! `qwen35` family.

use crate::gguf::F32Bits;
use vstd::prelude::*;

verus! {

/// How the DeltaNet output is gated.
#[derive(Debug, Clone, Copy, PartialEq, Eq, Structural)]
pub enum GdnGate {
    Silu,
    Sigmoid,
}

/// How the DeltaNet keys and queries are L2-normalized: with the norm
/// clamped from below, or with epsilon added under the root.
#[derive(Debug, Clone, Copy, PartialEq, Eq, Structural)]
pub enum GdnL2 {
    Clamp,
    AddEps,
}

/// The token ids that end a generation.
#[derive(Debug)]
pub enum EosIds {
    One(u32),
    Many(Vec<u32>),
}

/// Shapes and behaviour of the shared blocks.
#[derive(Debug)]
pub struct Qwen35Config {
    pub vocab_size: usize,
    pub hidden_size: usize,
    pub num_layers: usize,
    pub num_attention_heads: usize,
    pub num_key_value_heads: usize,
    pub head_dim: usize,
    pub intermediate_size: usize,
    pub rms_norm_eps: F32Bits,
    pub rope_theta: F32Bits,
    pub rope_dim: usize,
    pub full_attention_interval: usize,
    pub conv_kernel: usize,
    pub d_inner: usize,
    pub d_state: usize,
    pub n_k_heads: usize,
    pub n_v_heads: usize,
    pub gdn_gate: GdnGate,
    pub gdn_l2: GdnL2,
    pub eos_token_id: EosIds,
}

impl Qwen35Config {
    /// Channels through the DeltaNet conv: q + k + v concatenated.
    pub fn conv_dim(&self) -> (r: usize)
        requires
            2 * (self.n_k_heads * self.d_state) + self.d_inner <= usize::MAX,
        ensures
            r == 2 * (self.n_k_heads * self.d_state) + self.d_inner,
    {
        2 * (self.n_k_heads * self.d_state) + self.d_inner
    }
}

} // verus!
