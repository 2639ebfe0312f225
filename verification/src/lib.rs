//! Host-side logic of the mummu inference engine.

pub mod gguf;
pub mod models;
pub mod nn;
pub mod order;
pub mod outcomes;
pub mod overlay;
pub mod pack;
pub mod prof;
pub mod progress;
pub mod quant;
pub mod registry;
pub mod routing;
pub mod text;
