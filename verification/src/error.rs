//! Why a scan stops early, and where.
use vstd::prelude::*;

verus! {

/// The kinds of failure.
#[derive(Debug, PartialEq, Eq, Clone, Copy, Structural)]
pub enum ErrorType {
    /// A backslash is the last codepoint of the input.
    TrailingEscape,
    /// The input ends inside a quoted region.
    UnbalancedQuotes,
    /// The raw bytes are not valid UTF-8. Text that reaches the scanner is
    /// already valid, so the scanner itself never reports this kind; it is
    /// for callers that decode bytes first.
    Utf8Error,
    /// A backslash is followed by a codepoint that is no escape where it
    /// stands.
    InvalidEscape,
}

/// A failure and the codepoint index it is reported at.
///
/// The index counts codepoints, not bytes: for `TrailingEscape` it is the
/// position of the backslash, for `InvalidEscape` the position of the
/// codepoint after the backslash, for `UnbalancedQuotes` the position of the
/// quote that was never closed.
#[derive(Debug, PartialEq, Eq, Clone, Copy, Structural)]
pub struct TokenizerError {
    pub error: ErrorType,
    pub index: usize,
}

/// The mathematical reading of a [`TokenizerError`]: the same kind, and the
/// index as a natural number.
pub struct Failure {
    pub kind: ErrorType,
    pub index: nat,
}

impl View for TokenizerError {
    type V = Failure;

    open spec fn view(&self) -> Failure {
        Failure { kind: self.error, index: self.index as nat }
    }
}

} // verus!
