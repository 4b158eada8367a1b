//! Checking a processor's pipeline trace against a golden trace, with the
//! RV32I decoding that tells which trace fields are "don't care" values.

pub mod instruction;
pub mod pipeline;
pub mod trace;
pub mod compare;
pub mod laws;
pub mod counting;
pub mod consistency;
pub mod text;
pub mod disasm;
