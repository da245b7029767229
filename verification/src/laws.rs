//! What the scanner does on whole families of inputs.
//!
//! Each public proof function here is a theorem about [`tokenize_spec`],
//! and so about every result of [`tokenize`].
//!
//! [`tokenize_spec`]: crate::machine::tokenize_spec
//! [`tokenize`]: crate::tokenizer::tokenize
pub mod blanks;
pub mod escapes;
pub mod failures;
pub mod plain;
pub mod quoting;
pub mod steps;
