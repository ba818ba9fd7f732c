//! A minimal imperative language: its syntax tree, and a reader that turns a
//! narrow, line-oriented textual form into that tree.
//!
//! - [`ast`]: expressions, statements, programs and the reader's failures,
//!   each with its mathematical view.
//! - [`text`]: white space, trimming, and the significant lines of a text.
//! - [`number`]: 32-bit decimal integer literals.
//! - [`reader`]: the reader itself, `parse_program`, and what it is stated
//!   with.
//! - [`laws`]: what holds of the reader on every text.
//!
//! Every contract is stated over sequences of characters and over the
//! mathematical views of the tree types.

pub mod ast;
pub mod laws;
pub mod number;
pub mod reader;
pub mod text;
