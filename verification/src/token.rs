//! A piece of text that is either owned or borrowed.
use vstd::prelude::*;

verus! {

/// Text of a word or of a part of one: freshly built, or a slice of the
/// input it was read from.
pub enum TokenType<'a> {
    Allocated(String),
    Reference(&'a str),
}

impl<'a> View for TokenType<'a> {
    type V = Seq<char>;

    /// The codepoints of the text, whoever owns it.
    open spec fn view(&self) -> Seq<char> {
        match self {
            TokenType::Allocated(s) => s@,
            TokenType::Reference(s) => s@,
        }
    }
}

} // verus!
