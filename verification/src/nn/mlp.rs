//! The gated feed-forward block: `down(silu(gate(x)) * up(x))`, without
//! biases.

use crate::nn::attention::Projection;
use vstd::prelude::*;

verus! {

/// Shape of a gated feed-forward block.
#[derive(Debug, Clone, Copy, PartialEq, Eq, Structural)]
pub struct SwiGluMlpConfig {
    pub hidden_size: usize,
    pub intermediate_size: usize,
}

/// The projections of a gated feed-forward block.
#[derive(Debug, Clone, Copy, PartialEq, Eq, Structural)]
pub struct MlpShape {
    pub gate: Projection,
    pub up: Projection,
    pub down: Projection,
}

impl SwiGluMlpConfig {
    /// What is wrong with the shape.
    pub open spec fn flaw(self) -> Option<Seq<char>> {
        if self.hidden_size < 1 {
            Some("SwiGLU: hidden_size must be >= 1"@)
        } else if self.intermediate_size < 1 {
            Some("SwiGLU: intermediate_size must be >= 1"@)
        } else {
            None
        }
    }

    /// What is wrong with the shape.
    pub fn complaint(&self) -> (r: Option<String>)
        ensures
            match r {
                Some(m) => self.flaw() == Some(m@),
                None => self.flaw() is None,
            },
    {
        if self.hidden_size < 1 {
            return Some("SwiGLU: hidden_size must be >= 1".to_owned());
        }
        if self.intermediate_size < 1 {
            return Some("SwiGLU: intermediate_size must be >= 1".to_owned());
        }
        None
    }

    /// The shapes of the module.
    pub fn init(&self) -> (r: MlpShape)
        requires
            self.flaw() is None,
        ensures
            r.gate == (Projection {
                inputs: self.hidden_size,
                outputs: self.intermediate_size,
                bias: false,
            }),
            r.up == r.gate,
            r.down == (Projection {
                inputs: self.intermediate_size,
                outputs: self.hidden_size,
                bias: false,
            }),
    {
        let wide: Projection = Projection {
            inputs: self.hidden_size,
            outputs: self.intermediate_size,
            bias: false,
        };
        let back: Projection = Projection {
            inputs: self.intermediate_size,
            outputs: self.hidden_size,
            bias: false,
        };
        MlpShape { gate: wide, up: wide, down: back }
    }
}

} // verus!
