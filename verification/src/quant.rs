//! The keep-quantized runtime policy: the ladder of weight precisions.
//!
//! Embeddings, norm gammas, biases, conv kernels and per-head vectors stay
//! float; everything a rung is eligible for is stored in blocks of
//! [`QUANT_BLOCK`] along its rows.

use vstd::prelude::*;

verus! {

/// Block width of the quantized rungs.
pub const QUANT_BLOCK: usize = 32;

/// A rung of the precision ladder.
#[derive(Debug, Clone, Copy, PartialEq, Eq, Structural)]
pub enum QuantPolicy {
    /// Single precision: not a quantization.
    Off,
    /// Half precision: not a quantization.
    F16,
    Q8,
    Q4,
    Q2,
}

/// A symmetric block quantization: the width of a value and the values that
/// share one single-precision scale.
#[derive(Debug, Clone, Copy, PartialEq, Eq, Structural)]
pub struct Scheme {
    pub bits: u32,
    pub block: usize,
}

impl QuantPolicy {
    /// Bits per weight.
    pub open spec fn width(self) -> u32 {
        match self {
            QuantPolicy::Off => 32,
            QuantPolicy::F16 => 16,
            QuantPolicy::Q8 => 8,
            QuantPolicy::Q4 => 4,
            QuantPolicy::Q2 => 2,
        }
    }

    /// Is this rung a quantization?
    pub open spec fn quantizes(self) -> bool {
        self.width() <= 8
    }

    /// The rung below.
    pub open spec fn below(self) -> Option<QuantPolicy> {
        match self {
            QuantPolicy::Off => Some(QuantPolicy::F16),
            QuantPolicy::F16 => Some(QuantPolicy::Q8),
            QuantPolicy::Q8 => Some(QuantPolicy::Q4),
            QuantPolicy::Q4 => Some(QuantPolicy::Q2),
            QuantPolicy::Q2 => None,
        }
    }

    /// The rung above.
    pub open spec fn above(self) -> Option<QuantPolicy> {
        match self {
            QuantPolicy::Off => None,
            QuantPolicy::F16 => Some(QuantPolicy::Off),
            QuantPolicy::Q8 => Some(QuantPolicy::F16),
            QuantPolicy::Q4 => Some(QuantPolicy::Q8),
            QuantPolicy::Q2 => Some(QuantPolicy::Q4),
        }
    }

    /// The rungs, widest first.
    pub fn ladder() -> (r: Vec<QuantPolicy>)
        ensures
            r@ == seq![
                QuantPolicy::Off,
                QuantPolicy::F16,
                QuantPolicy::Q8,
                QuantPolicy::Q4,
                QuantPolicy::Q2,
            ],
    {
        let v: Vec<QuantPolicy> = vec![
            QuantPolicy::Off,
            QuantPolicy::F16,
            QuantPolicy::Q8,
            QuantPolicy::Q4,
            QuantPolicy::Q2,
        ];
        v
    }

    /// Bits per weight.
    pub fn bits(self) -> (r: u32)
        ensures
            r == self.width(),
    {
        match self {
            QuantPolicy::Off => 32,
            QuantPolicy::F16 => 16,
            QuantPolicy::Q8 => 8,
            QuantPolicy::Q4 => 4,
            QuantPolicy::Q2 => 2,
        }
    }

    /// The rung below.
    pub fn demote(self) -> (r: Option<QuantPolicy>)
        ensures
            r == self.below(),
    {
        match self {
            QuantPolicy::Off => Some(QuantPolicy::F16),
            QuantPolicy::F16 => Some(QuantPolicy::Q8),
            QuantPolicy::Q8 => Some(QuantPolicy::Q4),
            QuantPolicy::Q4 => Some(QuantPolicy::Q2),
            QuantPolicy::Q2 => None,
        }
    }

    /// The rung above.
    pub fn promote(self) -> (r: Option<QuantPolicy>)
        ensures
            r == self.above(),
    {
        match self {
            QuantPolicy::Off => None,
            QuantPolicy::F16 => Some(QuantPolicy::Off),
            QuantPolicy::Q8 => Some(QuantPolicy::F16),
            QuantPolicy::Q4 => Some(QuantPolicy::Q8),
            QuantPolicy::Q2 => Some(QuantPolicy::Q4),
        }
    }

    /// The scheme this rung denotes; `None` for the float rungs, which are
    /// not quantizations at all.
    pub fn scheme(self) -> (r: Option<Scheme>)
        ensures
            r == (if self.quantizes() {
                Some(Scheme { bits: self.width(), block: QUANT_BLOCK })
            } else {
                None
            }),
    {
        match self {
            QuantPolicy::Off | QuantPolicy::F16 => None,
            QuantPolicy::Q8 => Some(Scheme { bits: 8, block: QUANT_BLOCK }),
            QuantPolicy::Q4 => Some(Scheme { bits: 4, block: QUANT_BLOCK }),
            QuantPolicy::Q2 => Some(Scheme { bits: 2, block: QUANT_BLOCK }),
        }
    }

    /// May a tensor of this shape be stored at this rung? Only matrices whose
    /// rows are whole blocks are.
    pub open spec fn admits(self, shape: Seq<usize>) -> bool {
        &&& self.quantizes()
        &&& shape.len() == 2
        &&& shape[1] > 0
        &&& shape[1] % QUANT_BLOCK == 0
    }

    /// May a tensor of this shape be stored at this rung?
    pub fn eligible(self, shape: &Vec<usize>) -> (r: bool)
        ensures
            r == self.admits(shape@),
    {
        let quantized: bool = match self {
            QuantPolicy::Off | QuantPolicy::F16 => false,
            _ => true,
        };
        quantized && shape.len() == 2 && shape[1] > 0 && shape[1] % QUANT_BLOCK == 0
    }

    /// Width, demotion and promotion describe the same order: one rung down
    /// is narrower, and promoting it leads back.
    pub proof fn the_ladder_is_one_order(self)
        ensures
            self.below() matches Some(lo) ==> lo.width() < self.width() && lo.above() == Some(
                self,
            ),
            self.above() matches Some(hi) ==> hi.width() > self.width() && hi.below() == Some(
                self,
            ),
            (self.below() is None) == (self == QuantPolicy::Q2),
            (self.above() is None) == (self == QuantPolicy::Off),
    {
    }
}

} // verus!
