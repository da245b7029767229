//! Shell-style word splitting.
//!
//! [`tokenize`] cuts a line of text into words the way a shell does before it
//! runs a command: blanks outside quotes separate words, single and double
//! quotes keep blanks inside a word, and a backslash introduces an escape.
//! Nothing else of a shell is here: no variables, no globbing, no
//! substitution.
//!
//! The meaning of every input is fixed by the scanner of [`machine`], a
//! mathematical function over sequences of codepoints. [`tokenize`] is proved
//! to compute exactly that function, and [`laws`] proves what the scanner does
//! on whole families of inputs.
pub mod error;
pub mod laws;
pub mod machine;
pub mod text;
pub mod token;
pub mod tokenizer;

pub use error::{ErrorType, Failure, TokenizerError};
pub use token::TokenType;
pub use tokenizer::tokenize;
