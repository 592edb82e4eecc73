//! Verified core of a two-operand command-line calculator.
//!
//! The crate decides everything about one invocation that can be decided on
//! integers and text: how an operand token is read, how an integer operand is
//! widened to IEEE 754 binary64, which operation is admitted on which
//! operands, and what the line written at the end looks like. Binary64 values
//! are carried as their 64-bit patterns ([`binary64::Binary64`]). The caller
//! owns the floating-point unit: it parses and prints binary64 literals, and
//! performs the one arithmetic step that [`operation::Operation::apply`]
//! admits.
//!
//! - [`token`]: integer literals, read and written.
//! - [`binary64`]: bit patterns, and the widening of integers.
//! - [`nearest`]: why widening gives the nearest value.
//! - [`number`]: operands.
//! - [`operation`]: the four operations and the refusal of division by zero.
//! - [`invocation`]: input, output and the final line.

pub mod binary64;
pub mod invocation;
pub mod nearest;
pub mod number;
pub mod operation;
pub mod token;
