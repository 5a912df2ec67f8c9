//! Sets-of-real-numbers arithmetic: operands are bitmasks over a fixed
//! partition of the real line, with exact rational endpoints, a
//! classifier from values to masks, interval-style ring operations, memo
//! tables, and an operation-table generator.

pub mod endpoint;
pub mod laws;
pub mod mask;
pub mod memo;
pub mod sorn;
pub mod sornset;
pub mod sorntable_gen;
