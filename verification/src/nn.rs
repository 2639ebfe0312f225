//! Shared transformer blocks: the shapes they accept, the layouts they move
//! values through and the decisions they take. Arithmetic on activations is
//! the caller's; values here are bit patterns.

use vstd::prelude::*;

pub mod attending;
pub mod attention;
pub mod choosing;
pub mod conv;
pub mod folding;
pub mod hadamard;
pub mod mixing;
pub mod mlp;
pub mod moe;
pub mod outcomes;
pub mod packed_gemv;
pub mod refarith;
pub mod rope;

verus! {

/// Hard ceiling on `past + t` everywhere a sequence position is materialized.
/// A position beyond this is a caller bug, not a workload.
pub const MAX_CONTEXT_TOKENS: usize = 131_072;

} // verus!
