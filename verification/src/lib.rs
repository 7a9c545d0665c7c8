//! A builder for brace-delimited, indentation-sensitive text.
//!
//! A [`CodeSpace`] collects lines, blank lines and nested [`Block`]s in the
//! order in which they are inserted, and `to_string` turns the whole tree into
//! one string: lines of the top level as they are, every block between a line
//! with its opening brace and a line with its closing brace, and everything
//! inside a block one unit of indentation deeper than the braces around it.
//!
//! ```text
//! CodeSpace::new()
//!     .insert_line("let x = 42;")
//!     .insert_new_line()
//!     .insert_block(
//!         Block::new()
//!             .set_signature(Some(BlockSignature::Custom(String::from("if x > 0"))))
//!             .insert_line("println!(\"Positive number!\");"),
//!     )
//!     .to_string()
//! ```
//!
//! Every function states what it returns over the mathematical view of its
//! arguments, and Verus proves that the code meets that statement. What a
//! value stands for is defined in [`block`], [`code_space`] and
//! [`signature`]; [`layout`] and [`braces`] prove what follows for the text
//! as a whole.

pub mod block;
pub mod braces;
pub mod code_space;
pub mod layout;
pub mod signature;
pub mod text;

pub use block::{Block, BlockView, Code, CodeView};
pub use code_space::{CodeSpace, CodeSpaceView};
pub use signature::{BlockSignature, SignatureView, SignatureVisibility};
