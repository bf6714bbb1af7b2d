//! A verified core of the RowScript compiler: variables and telescopes,
//! definitions and their printing, the unifier, and error reports.

pub mod codegen;
pub mod error;
pub mod text;
pub mod theory;
