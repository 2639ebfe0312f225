//! Model families.

pub mod qwen35;
pub mod qwen4exp;
