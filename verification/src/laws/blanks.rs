//! A blank outside quotes separates: what stands before it and what stands
//! after it are read independently.
use vstd::prelude::*;
use crate::error::Failure;
use crate::machine::{escape_target, is_blank, scan, tokenize_spec, Mode, Scan};

verus! {

/// `outcome`, reached by a scan of its own, as it comes out when the same
/// text stands `offset` codepoints into a longer input, after the words
/// `earlier`: the words follow the earlier ones, and a failure is reported
/// `offset` codepoints further on.
pub open spec fn continued(
    earlier: Seq<Seq<char>>,
    offset: nat,
    outcome: Result<Seq<Seq<char>>, Failure>,
) -> Result<Seq<Seq<char>>, Failure> {
    match outcome {
        Ok(words) => Ok(earlier + words),
        Err(f) => Err(Failure { kind: f.kind, index: offset + f.index }),
    }
}

/// The state `sc` of a scan of its own, as it is when the same text stands
/// `offset` codepoints into a longer input, after the words `earlier`.
spec fn moved(earlier: Seq<Seq<char>>, offset: nat, sc: Scan) -> Scan {
    Scan {
        mode: match sc.mode {
            Mode::SingleQuoted { opened } => Mode::SingleQuoted { opened: offset + opened },
            Mode::DoubleQuoted { opened } => Mode::DoubleQuoted { opened: offset + opened },
            mode => mode,
        },
        word: sc.word,
        words: earlier + sc.words,
    }
}

/// A scan does not depend on where its text stands or on what was found
/// before it, but for the indices it reports and the words it adds to.
proof fn lemma_scan_moved(
    earlier: Seq<Seq<char>>,
    offset: nat,
    rest: Seq<char>,
    at: nat,
    sc: Scan,
)
    ensures
        scan(rest, offset + at, moved(earlier, offset, sc)) == continued(
            earlier,
            offset,
            scan(rest, at, sc),
        ),
    decreases rest.len(),
{
    let there = moved(earlier, offset, sc);
    if rest.len() == 0 {
        assert(earlier + sc.words.push(sc.word) == (earlier + sc.words).push(sc.word));
    } else if rest[0] != '\\' {
        let fed = sc.feed(rest[0], at);
        assert(there.feed(rest[0], offset + at) == moved(earlier, offset, fed)) by {
            assert(earlier + sc.words.push(sc.word) == (earlier + sc.words).push(sc.word));
        }
        lemma_scan_moved(earlier, offset, rest.skip(1), at + 1, fed);
    } else if rest.len() == 1 {
    } else if let Some(c) = escape_target(sc.mode, rest[1]) {
        assert(escape_target(there.mode, rest[1]) == Some(c));
        lemma_scan_moved(earlier, offset, rest.skip(2), at + 2, sc.splice(c));
    } else if sc.mode is SingleQuoted {
        lemma_scan_moved(earlier, offset, rest.skip(1), at + 1, sc.grow('\\'));
    } else {
        assert(escape_target(there.mode, rest[1]) is None);
    }
}

/// Text that is read to its end without failure, and then a blank: the
/// scan goes on behind the blank between words, with the words of the text
/// finished.
proof fn lemma_scan_through(
    text: Seq<char>,
    blank: char,
    rest: Seq<char>,
    at: nat,
    sc: Scan,
    words: Seq<Seq<char>>,
)
    requires
        is_blank(blank),
        sc.well_formed(),
        scan(text, at, sc) == Ok::<Seq<Seq<char>>, Failure>(words),
    ensures
        scan(text + seq![blank] + rest, at, sc) == scan(
            rest,
            at + text.len() + 1,
            Scan { mode: Mode::Idle, word: Seq::empty(), words },
        ),
    decreases text.len(),
{
    let input = text + seq![blank] + rest;
    if text.len() == 0 {
        assert(input.skip(1) == rest);
        assert(sc.mode is Idle ==> sc.word == Seq::<char>::empty());
    } else if text[0] != '\\' {
        assert(input.skip(1) == text.skip(1) + seq![blank] + rest);
        lemma_scan_through(text.skip(1), blank, rest, at + 1, sc.feed(text[0], at), words);
    } else if text.len() == 1 {
    } else if let Some(c) = escape_target(sc.mode, text[1]) {
        assert(input[1] == text[1]);
        assert(input.skip(2) == text.skip(2) + seq![blank] + rest);
        lemma_scan_through(text.skip(2), blank, rest, at + 2, sc.splice(c), words);
    } else if sc.mode is SingleQuoted {
        assert(input[1] == text[1]);
        assert(input.skip(1) == text.skip(1) + seq![blank] + rest);
        lemma_scan_through(text.skip(1), blank, rest, at + 1, sc.grow('\\'), words);
    }
}

/// Words are what blanks outside quotes separate.
///
/// Where `first` is read without failure, so that it ends outside quotes
/// and not in the middle of an escape, the words of `first blank second`
/// are the words of `first` followed by the words of `second`, and a failure
/// in `second` is the failure of the whole, at the same codepoint. A blank
/// more, before or after, adds no word: take the empty text as `first`, or as
/// `second`.
pub proof fn lemma_blank_separates(first: Seq<char>, blank: char, second: Seq<char>)
    requires
        is_blank(blank),
        tokenize_spec(first) is Ok,
    ensures
        tokenize_spec(first) matches Ok(words) && tokenize_spec(first + seq![blank] + second)
            == continued(words, first.len() + 1, tokenize_spec(second)),
{
    let words = tokenize_spec(first)->Ok_0;
    let none = Seq::<Seq<char>>::empty();
    lemma_scan_through(first, blank, second, 0, Scan::start(), words);
    lemma_scan_moved(words, first.len() + 1, second, 0, Scan::start());
    assert(words + none == words);
}

} // verus!
