use unquote::{tokenize, ErrorType, TokenizerError};

fn failure(error: ErrorType, index: usize) -> Result<Vec<String>, TokenizerError> {
    Err(TokenizerError { error, index })
}

#[test]
fn trailing_escape() {
    assert_eq!(tokenize("\\"), failure(ErrorType::TrailingEscape, 0));
    assert_eq!(tokenize("abc\\"), failure(ErrorType::TrailingEscape, 3));
    assert_eq!(tokenize("a b \\"), failure(ErrorType::TrailingEscape, 4));
}

#[test]
fn trailing_escape_inside_quotes() {
    assert_eq!(tokenize("\"ab\\"), failure(ErrorType::TrailingEscape, 3));
    assert_eq!(tokenize("'ab\\"), failure(ErrorType::TrailingEscape, 3));
}

#[test]
fn unbalanced_quotes() {
    assert_eq!(tokenize("'unterminated"), failure(ErrorType::UnbalancedQuotes, 0));
    assert_eq!(tokenize("\"unterminated"), failure(ErrorType::UnbalancedQuotes, 0));
    assert_eq!(tokenize("'"), failure(ErrorType::UnbalancedQuotes, 0));
    assert_eq!(tokenize("ab \"cd"), failure(ErrorType::UnbalancedQuotes, 3));
    assert_eq!(tokenize("ab'cd ef"), failure(ErrorType::UnbalancedQuotes, 2));
}

#[test]
fn unbalanced_quotes_name_the_last_opening() {
    assert_eq!(tokenize("'a' 'b' 'c"), failure(ErrorType::UnbalancedQuotes, 8));
    assert_eq!(tokenize("\"a\"'"), failure(ErrorType::UnbalancedQuotes, 3));
    assert_eq!(tokenize("'it\\'s"), failure(ErrorType::UnbalancedQuotes, 0));
    assert_eq!(tokenize("\"'"), failure(ErrorType::UnbalancedQuotes, 0));
}

#[test]
fn invalid_escape() {
    assert_eq!(tokenize("\\x"), failure(ErrorType::InvalidEscape, 1));
    assert_eq!(tokenize("ab\\x"), failure(ErrorType::InvalidEscape, 3));
    assert_eq!(tokenize("a \\ b"), failure(ErrorType::InvalidEscape, 3));
    assert_eq!(tokenize("\\T"), failure(ErrorType::InvalidEscape, 1));
}

#[test]
fn invalid_escape_in_double_quotes() {
    assert_eq!(tokenize("\"\\x\""), failure(ErrorType::InvalidEscape, 2));
    assert_eq!(tokenize("\"a\\'b\""), failure(ErrorType::InvalidEscape, 3));
}

#[test]
fn the_first_failure_is_reported() {
    assert_eq!(tokenize("\\x 'abc"), failure(ErrorType::InvalidEscape, 1));
    assert_eq!(tokenize("\\x\\"), failure(ErrorType::InvalidEscape, 1));
    assert_eq!(tokenize("'abc\\"), failure(ErrorType::TrailingEscape, 4));
    assert_eq!(tokenize("\\x and whatever \"follows"), failure(ErrorType::InvalidEscape, 1));
}

#[test]
fn the_index_counts_codepoints() {
    assert_eq!(tokenize("é\\x"), failure(ErrorType::InvalidEscape, 2));
    assert_eq!(tokenize("日本語\\"), failure(ErrorType::TrailingEscape, 3));
    assert_eq!(tokenize("日本 'x"), failure(ErrorType::UnbalancedQuotes, 3));
    assert_eq!(tokenize("🦀🦀 \"🦀"), failure(ErrorType::UnbalancedQuotes, 3));
}

#[test]
fn a_failure_gives_no_words() {
    assert!(tokenize("good words then \\").is_err());
    assert!(tokenize("good words then 'open").is_err());
}

#[test]
fn failures_compare_by_kind_and_index() {
    let a = TokenizerError { error: ErrorType::InvalidEscape, index: 1 };
    assert_eq!(a, TokenizerError { error: ErrorType::InvalidEscape, index: 1 });
    assert_ne!(a, TokenizerError { error: ErrorType::InvalidEscape, index: 2 });
    assert_ne!(a, TokenizerError { error: ErrorType::TrailingEscape, index: 1 });
    assert_ne!(ErrorType::Utf8Error, ErrorType::UnbalancedQuotes);
}
