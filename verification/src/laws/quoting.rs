//! Quotes: what they keep, and how to put a word back into them.
use vstd::prelude::*;
use crate::error::Failure;
use crate::laws::steps::lemma_scan_plain;
use crate::machine::{is_plain, is_quote, scan, tokenize_spec, Mode, Scan};

verus! {

/// After a backslash inside single quotes, `c` makes an escape.
pub open spec fn is_escape_in_single_quotes(c: char) -> bool {
    c == '\\' || c == '\'' || c == 't' || c == 'n' || c == 'r'
}

/// `body` is read as it stands between two `quote` characters: it holds no
/// `quote`, and no backslash but, between single quotes, one that is
/// followed in `body` by a codepoint that makes no escape with it.
pub open spec fn is_quoted_text(quote: char, body: Seq<char>) -> bool {
    forall|i: int|
        0 <= i < body.len() ==> {
            &&& #[trigger] body[i] != quote
            &&& body[i] == '\\' ==> {
                &&& quote == '\''
                &&& i + 1 < body.len()
                &&& !is_escape_in_single_quotes(body[i + 1])
            }
        }
}

/// The mode inside a region that `quote` opened at index `opened`.
pub open spec fn quoted_mode(quote: char, opened: nat) -> Mode {
    if quote == '\'' {
        Mode::SingleQuoted { opened }
    } else {
        Mode::DoubleQuoted { opened }
    }
}

/// Inside quotes, text that is read as it stands goes to the open word,
/// and the scan goes on behind it in the same mode.
proof fn lemma_scan_quoted(quote: char, body: Seq<char>, rest: Seq<char>, at: nat, sc: Scan)
    requires
        is_quote(quote),
        is_quoted_text(quote, body),
        exists|opened: nat| sc.mode == quoted_mode(quote, opened),
    ensures
        scan(body + rest, at, sc) == scan(
            rest,
            at + body.len(),
            Scan { word: sc.word + body, ..sc },
        ),
    decreases body.len(),
{
    if body.len() == 0 {
        assert(body + rest == rest);
        assert(sc.word + body == sc.word);
    } else {
        let c = body[0];
        let tail = body.skip(1);
        let grown = sc.grow(c);
        assert((body + rest).skip(1) == tail + rest);
        assert(grown.word + tail == sc.word + body);
        assert(is_quoted_text(quote, tail)) by {
            assert forall|i: int| 0 <= i < tail.len() implies {
                &&& #[trigger] tail[i] != quote
                &&& tail[i] == '\\' ==> {
                    &&& quote == '\''
                    &&& i + 1 < tail.len()
                    &&& !is_escape_in_single_quotes(tail[i + 1])
                }
            } by {
                assert(tail[i] == body[i + 1]);
            }
        }
        if c == '\\' {
            assert((body + rest)[1] == body[1]);
        }
        lemma_scan_quoted(quote, tail, rest, at + 1, grown);
    }
}

/// A quoted region and the plain text that touches it are one word.
///
/// Where `before` and `after` are plain text, empty or not, and `body` is
/// read as it stands between two `quote` characters, the input
/// `before quote body quote after` is the single word `before body after`:
/// the quotes are taken away, blanks and quote characters of the other kind
/// in `body` are kept, and nothing but a blank outside quotes ends a word.
/// With all three parts empty the word is the empty word.
pub proof fn lemma_quoted_text_joins(
    before: Seq<char>,
    quote: char,
    body: Seq<char>,
    after: Seq<char>,
)
    requires
        is_quote(quote),
        is_quoted_text(quote, body),
        forall|i: int| 0 <= i < before.len() ==> is_plain(#[trigger] before[i]),
        forall|i: int| 0 <= i < after.len() ==> is_plain(#[trigger] after[i]),
    ensures
        tokenize_spec(before + seq![quote] + body + seq![quote] + after) == Ok::<
            Seq<Seq<char>>,
            Failure,
        >(seq![before + body + after]),
{
    let input = before + seq![quote] + body + seq![quote] + after;
    let none = Seq::<char>::empty();
    let closing = seq![quote] + after;
    let quoted = body + closing;
    let opening = seq![quote] + quoted;
    assert(input == before + opening);
    let s1 = if before.len() == 0 {
        Scan::start()
    } else {
        Scan { mode: Mode::InWord, word: none + before, words: Seq::empty() }
    };
    lemma_scan_plain(before, opening, 0, Scan::start());
    assert(none + before == before);
    let s2 = Scan { mode: quoted_mode(quote, before.len()), word: before, words: Seq::empty() };
    assert(opening.skip(1) == quoted);
    assert(s1.feed(quote, before.len()) == s2);
    assert(scan(opening, before.len(), s1) == scan(quoted, before.len() + 1, s2));
    lemma_scan_quoted(quote, body, closing, before.len() + 1, s2);
    let s3 = Scan { word: before + body, ..s2 };
    let s4 = Scan { mode: Mode::InWord, word: before + body, words: Seq::empty() };
    assert(closing.skip(1) == after);
    assert(s3.feed(quote, before.len() + 1 + body.len()) == s4);
    assert(scan(closing, before.len() + 1 + body.len(), s3) == scan(
        after,
        before.len() + 1 + body.len() + 1,
        s4,
    ));
    assert(after + none == after);
    lemma_scan_plain(after, none, before.len() + 1 + body.len() + 1, s4);
    let s5 = Scan { mode: Mode::InWord, word: before + body + after, words: Seq::empty() };
    assert(before + body + none == before + body);
    assert(s5.finish() == Ok::<Seq<Seq<char>>, Failure>(seq![before + body + after])) by {
        assert(Seq::<Seq<char>>::empty().push(before + body + after) == seq![
            before + body + after,
        ]);
    }
    if after.len() == 0 {
        assert(before + body + after == before + body);
    }
}

/// `word` with a backslash put before each of its double quotes and
/// backslashes.
pub open spec fn escaped(word: Seq<char>) -> Seq<char>
    decreases word.len(),
{
    if word.len() == 0 {
        Seq::empty()
    } else if word[0] == '"' || word[0] == '\\' {
        seq!['\\', word[0]] + escaped(word.skip(1))
    } else {
        seq![word[0]] + escaped(word.skip(1))
    }
}

/// `word` written so that it is read back as one word: escaped, between
/// double quotes.
pub open spec fn double_quoted(word: Seq<char>) -> Seq<char> {
    seq!['"'] + escaped(word) + seq!['"']
}

/// Inside double quotes an escaped word, then the closing quote, then the
/// end: the open word grows by the word and is finished.
proof fn lemma_scan_escaped(word: Seq<char>, at: nat, sc: Scan)
    requires
        sc.mode is DoubleQuoted,
    ensures
        scan(escaped(word) + seq!['"'], at, sc) == Ok::<Seq<Seq<char>>, Failure>(
            sc.words.push(sc.word + word),
        ),
    decreases word.len(),
{
    let rest = escaped(word) + seq!['"'];
    if word.len() == 0 {
        assert(rest.skip(1).len() == 0);
        assert(sc.word + word == sc.word);
        assert(scan(rest.skip(1), at + 1, sc.feed('"', at)) == sc.feed('"', at).finish());
    } else {
        let c = word[0];
        let tail = word.skip(1);
        let grown = sc.grow(c);
        assert(grown.word + tail == sc.word + word);
        if c == '"' || c == '\\' {
            assert(rest.skip(2) == escaped(tail) + seq!['"']);
            assert(rest[1] == c);
            lemma_scan_escaped(tail, at + 2, grown);
        } else {
            assert(rest.skip(1) == escaped(tail) + seq!['"']);
            lemma_scan_escaped(tail, at + 1, grown);
        }
    }
}

/// Splitting is undone by quoting: any word, with its double quotes and
/// backslashes escaped and double quotes put round it, is read back as
/// exactly that one word. This holds of every sequence of codepoints, so of
/// every word that a scan gives: of the empty word, and of words that hold
/// blanks, quotes or backslashes.
pub proof fn lemma_requote(word: Seq<char>)
    ensures
        tokenize_spec(double_quoted(word)) == Ok::<Seq<Seq<char>>, Failure>(seq![word]),
{
    let input = double_quoted(word);
    let opened = Scan { mode: Mode::DoubleQuoted { opened: 0 }, ..Scan::start() };
    assert(input.skip(1) == escaped(word) + seq!['"']);
    assert(Scan::start().feed('"', 0) == opened);
    lemma_scan_escaped(word, 1, opened);
    assert(opened.words.push(opened.word + word) == seq![word]) by {
        assert(opened.word + word == word);
    }
}

} // verus!
