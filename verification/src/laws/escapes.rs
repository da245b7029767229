//! Escapes outside quotes.
use vstd::prelude::*;
use crate::error::Failure;
use crate::laws::steps::lemma_scan_plain;
use crate::machine::{escape_target, is_plain, scan, tokenize_spec, Mode, Scan};

verus! {

/// An escape outside quotes and the plain text that touches it are one
/// word.
///
/// Where `before` and `after` are plain text, empty or not, and a backslash
/// followed by `next` stands for `target` outside quotes, the input
/// `before \ next after` is the single word `before target after`. So an
/// escaped quote character is text and opens no quoted region, and an
/// escape alone is a word of one codepoint.
pub proof fn lemma_escape_joins(before: Seq<char>, next: char, target: char, after: Seq<char>)
    requires
        escape_target(Mode::Idle, next) == Some(target),
        forall|i: int| 0 <= i < before.len() ==> is_plain(#[trigger] before[i]),
        forall|i: int| 0 <= i < after.len() ==> is_plain(#[trigger] after[i]),
    ensures
        tokenize_spec(before + seq!['\\', next] + after) == Ok::<Seq<Seq<char>>, Failure>(
            seq![before + seq![target] + after],
        ),
{
    let none = Seq::<char>::empty();
    let tail = seq!['\\', next] + after;
    let word = before + seq![target];
    assert(before + seq!['\\', next] + after == before + tail);
    lemma_scan_plain(before, tail, 0, Scan::start());
    let s1 = if before.len() == 0 {
        Scan::start()
    } else {
        Scan { mode: Mode::InWord, word: none + before, words: Seq::empty() }
    };
    let s2 = Scan { mode: Mode::InWord, word, words: Seq::empty() };
    assert(none + before == before);
    assert(escape_target(s1.mode, tail[1]) == Some(target));
    assert(s1.word.push(target) == word);
    assert(s1.splice(target) == s2);
    assert(tail.skip(2) == after);
    assert(scan(tail, before.len(), s1) == scan(after, before.len() + 2, s2));
    assert(after + none == after);
    lemma_scan_plain(after, none, before.len() + 2, s2);
    let s3 = Scan { mode: Mode::InWord, word: word + after, words: Seq::empty() };
    assert(s3.finish() == Ok::<Seq<Seq<char>>, Failure>(seq![word + after])) by {
        assert(Seq::<Seq<char>>::empty().push(word + after) == seq![word + after]);
    }
    if after.len() == 0 {
        assert(word + after == word);
    }
}

} // verus!
