//! The `qwen4exp` family.

pub mod assemble;
pub mod batch;
pub mod cache;
pub mod carrying;
pub mod complete;
pub mod config;
pub mod experts;
pub mod forward;
pub mod hc;
pub mod header;
pub mod load;
pub mod matvec;
pub mod outcomes;
pub mod ple;
pub mod ple_block;
pub mod ple_conv;
pub mod reading;
pub mod shapes;
pub mod stores;
pub mod table;
pub mod teacher;
pub mod trunk;
