//! Compact views of `scarb` and `snforge` output.
pub mod containment;
pub mod counts;
pub mod invocation;
pub mod invocation_laws;
pub mod number;
pub mod pattern;
pub mod scarb_cmd;
pub mod snforge_cmd;
pub mod strings;
pub mod text;
pub mod text_laws;
