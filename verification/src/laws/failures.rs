//! Where failures are reported.
use vstd::prelude::*;
use crate::error::{ErrorType, Failure};
use crate::laws::steps::lemma_scan_step;
use crate::machine::{escape_target, scan, tokenize_spec, Mode, Scan};

verus! {

/// What a failure says of the input it is reported for.
///
/// A trailing escape is reported at the last codepoint, which is a
/// backslash. An invalid escape is reported at a codepoint that stands
/// directly after a backslash and is none of those that make an escape in
/// every mode. Unbalanced quotes are reported at a quote character. Bytes
/// that are not text are never reported: the input is text already.
pub open spec fn explains(input: Seq<char>, f: Failure) -> bool {
    match f.kind {
        ErrorType::TrailingEscape => {
            &&& f.index + 1 == input.len()
            &&& input[f.index as int] == '\\'
        },
        ErrorType::InvalidEscape => {
            &&& 1 <= f.index < input.len()
            &&& input[f.index - 1] == '\\'
            &&& input[f.index as int] != '\\'
            &&& input[f.index as int] != 't'
            &&& input[f.index as int] != 'n'
            &&& input[f.index as int] != 'r'
        },
        ErrorType::UnbalancedQuotes => {
            &&& f.index < input.len()
            &&& (input[f.index as int] == '\'' || input[f.index as int] == '"')
        },
        ErrorType::Utf8Error => false,
    }
}

/// A quoted mode at index `at` remembers a quote character that stands
/// before `at`.
pub open spec fn opened_before(input: Seq<char>, at: nat, mode: Mode) -> bool {
    match mode {
        Mode::SingleQuoted { opened } => opened < at && input[opened as int] == '\'',
        Mode::DoubleQuoted { opened } => opened < at && input[opened as int] == '"',
        _ => true,
    }
}

proof fn lemma_scan_failure(input: Seq<char>, at: nat, sc: Scan)
    requires
        at <= input.len(),
        opened_before(input, at, sc.mode),
    ensures
        scan(input.skip(at as int), at, sc) matches Err(f) ==> explains(input, f),
    decreases input.len() - at,
{
    if at < input.len() {
        lemma_scan_step(input, at, sc);
        if input[at as int] != '\\' {
            lemma_scan_failure(input, at + 1, sc.feed(input[at as int], at));
        } else if at + 1 == input.len() {
        } else if let Some(c) = escape_target(sc.mode, input[(at + 1) as int]) {
            lemma_scan_failure(input, at + 2, sc.splice(c));
        } else if sc.mode is SingleQuoted {
            lemma_scan_failure(input, at + 1, sc.grow('\\'));
        }
    }
}

/// Every failure is explained by the input: its index lies in the input and
/// points at the codepoint that its kind names.
pub proof fn lemma_failure_position(input: Seq<char>)
    ensures
        tokenize_spec(input) matches Err(f) ==> explains(input, f),
{
    assert(input.skip(0) == input);
    lemma_scan_failure(input, 0, Scan::start());
}

proof fn lemma_scan_invalid_escape_stands(text: Seq<char>, more: Seq<char>, at: nat, sc: Scan)
    requires
        scan(text, at, sc) matches Err(f) && f.kind == ErrorType::InvalidEscape,
    ensures
        scan(text + more, at, sc) == scan(text, at, sc),
    decreases text.len(),
{
    let longer = text + more;
    if text.len() == 0 {
    } else if text[0] != '\\' {
        assert(longer.skip(1) == text.skip(1) + more);
        lemma_scan_invalid_escape_stands(text.skip(1), more, at + 1, sc.feed(text[0], at));
    } else if text.len() == 1 {
    } else if let Some(c) = escape_target(sc.mode, text[1]) {
        assert(longer[1] == text[1]);
        assert(longer.skip(2) == text.skip(2) + more);
        lemma_scan_invalid_escape_stands(text.skip(2), more, at + 2, sc.splice(c));
    } else if sc.mode is SingleQuoted {
        assert(longer[1] == text[1]);
        assert(longer.skip(1) == text.skip(1) + more);
        lemma_scan_invalid_escape_stands(text.skip(1), more, at + 1, sc.grow('\\'));
    } else {
        assert(longer[1] == text[1]);
    }
}

/// The first failure ends the scan: where an input fails with an invalid
/// escape, nothing that is written behind it changes the outcome. (The two
/// other kinds are found at the end of the input, so more input may mend
/// them.)
pub proof fn lemma_invalid_escape_stands(input: Seq<char>, more: Seq<char>)
    requires
        tokenize_spec(input) matches Err(f) && f.kind == ErrorType::InvalidEscape,
    ensures
        tokenize_spec(input + more) == tokenize_spec(input),
{
    lemma_scan_invalid_escape_stands(input, more, 0, Scan::start());
}

} // verus!
