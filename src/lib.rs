//! A bytecode compiler and stack virtual machine for a small dynamically
//! typed scripting language: booleans, `nil`, numbers and strings, global
//! variables, `print`, arithmetic, comparison and logical operators.
//!
//! - [`scanner`] turns source characters into tokens on demand.
//! - [`compile`] is a single-pass Pratt parser that emits bytecode into a
//!   [`chunk::Chunk`] without building a syntax tree.
//! - [`vm`] executes a chunk on an operand stack, with globals and interned
//!   strings that persist across calls.
//! - [`value`] and [`object`] model values and interned strings.
//! - [`debug`] renders chunks as text.
//!
//! Numbers are IEEE-754 binary64 values carried as bit patterns; the embedding
//! program supplies literal parsing, arithmetic and formatting through
//! [`number::NumberHost`].
pub mod chunk;
pub mod compile;
pub mod debug;
pub mod number;
pub mod object;
pub mod scanner;
pub mod text;
pub mod value;
pub mod vm;
