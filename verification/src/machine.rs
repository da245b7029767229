//! The scanner as a mathematical function.
//!
//! Input is a sequence of codepoints, read once from left to right. At every
//! point the scanner is in one of four modes and holds the text of the word it
//! is building and the words it has finished. [`tokenize_spec`] is the
//! meaning of an input; everything else here defines it.
use vstd::prelude::*;
use crate::error::{ErrorType, Failure};

verus! {

/// The four codepoints that separate words outside quotes: space, tab,
/// carriage return and newline. No other codepoint does, whatever Unicode
/// says of it.
pub open spec fn is_blank(c: char) -> bool {
    c == ' ' || c == '\t' || c == '\r' || c == '\n'
}

/// A quote character of either kind.
pub open spec fn is_quote(c: char) -> bool {
    c == '\'' || c == '"'
}

/// A codepoint that is text wherever it stands: no blank, no quote, no
/// backslash.
pub open spec fn is_plain(c: char) -> bool {
    !is_blank(c) && !is_quote(c) && c != '\\'
}

/// Where the scanner stands. Exactly one mode holds at any position.
pub enum Mode {
    /// Between words: no word is open.
    Idle,
    /// In a word, outside quotes.
    InWord,
    /// In a word, inside single quotes opened at index `opened`.
    SingleQuoted { opened: nat },
    /// In a word, inside double quotes opened at index `opened`.
    DoubleQuoted { opened: nat },
}

/// The scanner's state between two codepoints.
pub struct Scan {
    pub mode: Mode,
    /// Text of the open word so far, quotes removed and escapes resolved.
    pub word: Seq<char>,
    /// The words finished so far, in input order.
    pub words: Seq<Seq<char>>,
}

/// The codepoint that a backslash followed by `next` stands for in `mode`,
/// or `None` where the pair is no escape.
///
/// A backslash before a backslash, `t`, `n` or `r` is an escape everywhere.
/// A backslash before a quote character is an escape except inside quotes of
/// the other kind.
pub open spec fn escape_target(mode: Mode, next: char) -> Option<char> {
    if next == '\\' {
        Some('\\')
    } else if next == '\'' && !(mode is DoubleQuoted) {
        Some('\'')
    } else if next == '"' && !(mode is SingleQuoted) {
        Some('"')
    } else if next == 't' {
        Some('\t')
    } else if next == 'n' {
        Some('\n')
    } else if next == 'r' {
        Some('\r')
    } else {
        None
    }
}

impl Scan {
    /// The state before the first codepoint.
    pub open spec fn start() -> Scan {
        Scan { mode: Mode::Idle, word: Seq::empty(), words: Seq::empty() }
    }

    /// Between words there is no text of an open word. This holds before
    /// the first codepoint and after every step from a state of which it
    /// holds.
    pub open spec fn well_formed(self) -> bool {
        self.mode is Idle ==> self.word.len() == 0
    }

    /// The open word grows by `c`; mode and finished words stay.
    pub open spec fn grow(self, c: char) -> Scan {
        Scan { word: self.word.push(c), ..self }
    }

    /// The same state in another mode.
    pub open spec fn enter(self, mode: Mode) -> Scan {
        Scan { mode, ..self }
    }

    /// The state after the codepoint `c` at index `at`, where `c` is not the
    /// backslash of an escape.
    ///
    /// Outside quotes a blank ends the open word, if there is one, and is
    /// otherwise skipped; a quote character opens a quoted region, which
    /// belongs to the open word or opens one; any other codepoint is text.
    /// Inside quotes the matching quote character closes the region and
    /// leaves the word open; any other codepoint is text.
    pub open spec fn feed(self, c: char, at: nat) -> Scan {
        match self.mode {
            Mode::Idle => {
                if is_blank(c) {
                    self
                } else if c == '\'' {
                    self.enter(Mode::SingleQuoted { opened: at })
                } else if c == '"' {
                    self.enter(Mode::DoubleQuoted { opened: at })
                } else {
                    self.grow(c).enter(Mode::InWord)
                }
            },
            Mode::InWord => {
                if is_blank(c) {
                    Scan {
                        mode: Mode::Idle,
                        word: Seq::empty(),
                        words: self.words.push(self.word),
                    }
                } else if c == '\'' {
                    self.enter(Mode::SingleQuoted { opened: at })
                } else if c == '"' {
                    self.enter(Mode::DoubleQuoted { opened: at })
                } else {
                    self.grow(c)
                }
            },
            Mode::SingleQuoted { .. } => {
                if c == '\'' {
                    self.enter(Mode::InWord)
                } else {
                    self.grow(c)
                }
            },
            Mode::DoubleQuoted { .. } => {
                if c == '"' {
                    self.enter(Mode::InWord)
                } else {
                    self.grow(c)
                }
            },
        }
    }

    /// The state after an escape that stands for `c`. The codepoint is text
    /// of a word: of the open one, or of a new one where none was open.
    pub open spec fn splice(self, c: char) -> Scan {
        if self.mode is Idle {
            self.grow(c).enter(Mode::InWord)
        } else {
            self.grow(c)
        }
    }

    /// The outcome when the input ends in this state: an open quoted region
    /// is a failure at the index of its opening quote; an open word is
    /// finished, empty or not; otherwise the finished words are the result.
    pub open spec fn finish(self) -> Result<Seq<Seq<char>>, Failure> {
        match self.mode {
            Mode::Idle => Ok(self.words),
            Mode::InWord => Ok(self.words.push(self.word)),
            Mode::SingleQuoted { opened } => Err(
                Failure { kind: ErrorType::UnbalancedQuotes, index: opened },
            ),
            Mode::DoubleQuoted { opened } => Err(
                Failure { kind: ErrorType::UnbalancedQuotes, index: opened },
            ),
        }
    }
}

/// The outcome of scanning `rest`, the input from index `at` on, from the
/// state `sc`.
///
/// A backslash is looked at before the mode is. With nothing after it the
/// scan fails at the backslash. With an escape after it, both codepoints are
/// used up and the escape's target is spliced into the word. Otherwise, inside
/// single quotes the backslash is plain text and the codepoint after it is
/// read in its turn; anywhere else the scan fails at the codepoint after the
/// backslash. The first failure ends the scan.
pub open spec fn scan(rest: Seq<char>, at: nat, sc: Scan) -> Result<Seq<Seq<char>>, Failure>
    decreases rest.len(),
{
    if rest.len() == 0 {
        sc.finish()
    } else if rest[0] != '\\' {
        scan(rest.skip(1), at + 1, sc.feed(rest[0], at))
    } else if rest.len() == 1 {
        Err(Failure { kind: ErrorType::TrailingEscape, index: at })
    } else if let Some(c) = escape_target(sc.mode, rest[1]) {
        scan(rest.skip(2), at + 2, sc.splice(c))
    } else if sc.mode is SingleQuoted {
        scan(rest.skip(1), at + 1, sc.grow('\\'))
    } else {
        Err(Failure { kind: ErrorType::InvalidEscape, index: at + 1 })
    }
}

/// The words of `input`, or the first failure met while reading it.
pub open spec fn tokenize_spec(input: Seq<char>) -> Result<Seq<Seq<char>>, Failure> {
    scan(input, 0, Scan::start())
}

} // verus!
