//! The scanner as a program.
use vstd::prelude::*;
use vstd::std_specs::iter::IteratorSpec;
use crate::error::{ErrorType, Failure, TokenizerError};
use crate::machine::{escape_target, is_blank, scan, tokenize_spec, Mode, Scan};

verus! {

/// The scanner's mode at run time; a quoted mode remembers the index of its
/// opening quote.
#[derive(Clone, Copy, Debug)]
enum State {
    Idle,
    InWord,
    SingleQuoted(usize),
    DoubleQuoted(usize),
}

impl View for State {
    type V = Mode;

    closed spec fn view(&self) -> Mode {
        match self {
            State::Idle => Mode::Idle,
            State::InWord => Mode::InWord,
            State::SingleQuoted(opened) => Mode::SingleQuoted { opened: *opened as nat },
            State::DoubleQuoted(opened) => Mode::DoubleQuoted { opened: *opened as nat },
        }
    }
}

/// The scanner's state at run time: the mode, the text of the open word and
/// the finished words.
struct Scanner {
    state: State,
    word: String,
    words: Vec<String>,
}

impl View for Scanner {
    type V = Scan;

    closed spec fn view(&self) -> Scan {
        Scan { mode: self.state@, word: self.word@, words: self.words.deep_view() }
    }
}

/// Tells whether `c` separates words outside quotes.
fn blank(c: char) -> (b: bool)
    ensures
        b == is_blank(c),
{
    c == ' ' || c == '\t' || c == '\r' || c == '\n'
}

/// The codepoint that a backslash followed by `next` stands for in `state`,
/// if the pair is an escape there.
fn resolve_escape(state: State, next: char) -> (target: Option<char>)
    ensures
        target == escape_target(state@, next),
{
    match (state, next) {
        (_, '\\') => Some('\\'),
        (State::DoubleQuoted(_), '\'') => None,
        (_, '\'') => Some('\''),
        (State::SingleQuoted(_), '"') => None,
        (_, '"') => Some('"'),
        (_, 't') => Some('\t'),
        (_, 'n') => Some('\n'),
        (_, 'r') => Some('\r'),
        _ => None,
    }
}

impl Scanner {
    /// The scanner before the first codepoint.
    fn new() -> (scanner: Scanner)
        ensures
            scanner@ == Scan::start(),
    {
        let scanner = Scanner { state: State::Idle, word: String::new(), words: Vec::new() };
        assert(scanner.words.deep_view() == Seq::<Seq<char>>::empty());
        scanner
    }

    /// Adds `c` to the open word.
    fn grow(&mut self, c: char)
        ensures
            final(self)@ == old(self)@.grow(c),
    {
        self.word.push(c);
    }

    /// Finishes the open word: it becomes the last of the finished words,
    /// and the scanner is between words.
    fn close_word(&mut self)
        ensures
            final(self)@ == (Scan {
                mode: Mode::Idle,
                word: Seq::empty(),
                words: old(self)@.words.push(old(self)@.word),
            }),
    {
        let mut finished = String::new();
        core::mem::swap(&mut self.word, &mut finished);
        self.words.push(finished);
        self.state = State::Idle;
        assert(self.words.deep_view() == old(self).words.deep_view().push(old(self).word@));
    }

    /// Reads the codepoint `c` found at index `at`, which is not the
    /// backslash of an escape.
    fn feed(&mut self, c: char, at: usize)
        ensures
            final(self)@ == old(self)@.feed(c, at as nat),
    {
        match self.state {
            State::Idle => {
                if blank(c) {
                } else if c == '\'' {
                    self.state = State::SingleQuoted(at);
                } else if c == '"' {
                    self.state = State::DoubleQuoted(at);
                } else {
                    self.word.push(c);
                    self.state = State::InWord;
                }
            },
            State::InWord => {
                if blank(c) {
                    self.close_word();
                } else if c == '\'' {
                    self.state = State::SingleQuoted(at);
                } else if c == '"' {
                    self.state = State::DoubleQuoted(at);
                } else {
                    self.word.push(c);
                }
            },
            State::SingleQuoted(_) => {
                if c == '\'' {
                    self.state = State::InWord;
                } else {
                    self.word.push(c);
                }
            },
            State::DoubleQuoted(_) => {
                if c == '"' {
                    self.state = State::InWord;
                } else {
                    self.word.push(c);
                }
            },
        }
    }

    /// Takes in the codepoint `c` that an escape stands for.
    fn splice(&mut self, c: char)
        ensures
            final(self)@ == old(self)@.splice(c),
    {
        self.word.push(c);
        if let State::Idle = self.state {
            self.state = State::InWord;
        }
    }

    /// The outcome when the input ends here.
    fn finish(self) -> (result: Result<Vec<String>, TokenizerError>)
        ensures
            result matches Ok(words) ==> self@.finish() == Ok::<Seq<Seq<char>>, Failure>(
                words.deep_view(),
            ),
            result matches Err(e) ==> self@.finish() == Err::<Seq<Seq<char>>, Failure>(e@),
    {
        match self.state {
            State::Idle => Ok(self.words),
            State::InWord => {
                let mut words = self.words;
                words.push(self.word);
                assert(words.deep_view() == self@.words.push(self@.word));
                Ok(words)
            },
            State::SingleQuoted(opened) | State::DoubleQuoted(opened) => Err(
                TokenizerError { error: ErrorType::UnbalancedQuotes, index: opened },
            ),
        }
    }
}

/// Splits `s` into words.
///
/// Outside quotes, blanks (space, tab, carriage return, newline) separate
/// words and are dropped. Between single or double quotes every codepoint
/// but the closing quote is text of the word, and the quotes themselves are
/// dropped; a quoted region and the text that touches it are one word. A
/// backslash followed by a backslash, `t`, `n` or `r` stands for a backslash,
/// a tab, a newline or a carriage return; followed by a quote character it
/// stands for that character, except inside quotes of the other kind. Any
/// other pair is text as it stands inside single quotes and a failure
/// elsewhere. The words come back in input order, each with its quotes
/// removed and its escapes resolved. Every text is accepted, the empty one
/// too, which has no words.
///
/// # Errors
///
/// The first failure met is returned, with the index, counted in
/// codepoints, at which it was met:
/// - `TrailingEscape`, at the backslash, where a backslash ends the text;
/// - `InvalidEscape`, at the codepoint after the backslash, where the two
///   are no escape and do not stand inside single quotes;
/// - `UnbalancedQuotes`, at the opening quote, where the text ends inside
///   a quoted region.
///
/// # Contract
///
/// The result is the one that [`tokenize_spec`] gives for the codepoints of
/// `s`: the same words in the same order, or the same failure at the same
/// index.
pub fn tokenize(s: &str) -> (result: Result<Vec<String>, TokenizerError>)
    ensures
        result matches Ok(words) ==> tokenize_spec(s@) == Ok::<Seq<Seq<char>>, Failure>(
            words.deep_view(),
        ),
        result matches Err(e) ==> tokenize_spec(s@) == Err::<Seq<Seq<char>>, Failure>(e@),
{
    // Counting first bounds every index that the scan can reach.
    let total: usize = s.unicode_len();
    let mut chars = s.chars();
    let mut at: usize = 0;
    let mut scanner = Scanner::new();
    assert(s@.skip(0) == s@);
    loop
        invariant
            total == s@.len(),
            at <= total,
            chars.obeys_prophetic_iter_laws(),
            chars.remaining() == s@.skip(at as int),
            tokenize_spec(s@) == scan(s@.skip(at as int), at as nat, scanner@),
        ensures
            tokenize_spec(s@) == scanner@.finish(),
        decreases total - at,
    {
        let ghost rest = s@.skip(at as int);
        let c = match chars.next() {
            None => {
                break ;
            },
            Some(c) => c,
        };
        assert(rest.skip(1) == s@.skip(at + 1));
        if c != '\\' {
            scanner.feed(c, at);
            at = at + 1;
        } else {
            let next = match chars.next() {
                None => {
                    return Err(TokenizerError { error: ErrorType::TrailingEscape, index: at });
                },
                Some(next) => next,
            };
            assert(rest.skip(2) == s@.skip(at + 2));
            match resolve_escape(scanner.state, next) {
                Some(target) => {
                    scanner.splice(target);
                },
                None => {
                    match scanner.state {
                        State::SingleQuoted(_) => {
                            // The pair is no escape, and what follows the
                            // backslash neither ends the quoted region nor
                            // is a backslash itself: both are text.
                            let ghost raw = scanner@.grow('\\');
                            scanner.grow('\\');
                            scanner.grow(next);
                            assert(rest.skip(1)[0] == next);
                            assert(scanner@ == raw.feed(next, (at + 1) as nat));
                            assert(scan(rest.skip(1), (at + 1) as nat, raw) == scan(
                                rest.skip(1).skip(1),
                                (at + 2) as nat,
                                scanner@,
                            ));
                            assert(rest.skip(1).skip(1) == rest.skip(2));
                        },
                        _ => {
                            return Err(
                                TokenizerError { error: ErrorType::InvalidEscape, index: at + 1 },
                            );
                        },
                    }
                },
            }
            at = at + 2;
        }
    }
    scanner.finish()
}

} // verus!
