//! Single steps of the scanner, and stretches it reads in one way.
use vstd::prelude::*;
use crate::error::{ErrorType, Failure};
use crate::machine::{escape_target, is_plain, scan, Mode, Scan};

verus! {

/// Scanning the input from index `at` is one step at `at` and then scanning
/// from the index after what the step used up.
pub proof fn lemma_scan_step(input: Seq<char>, at: nat, sc: Scan)
    requires
        at < input.len(),
    ensures
        scan(input.skip(at as int), at, sc) == (if input[at as int] != '\\' {
            scan(input.skip((at + 1) as int), at + 1, sc.feed(input[at as int], at))
        } else if at + 1 == input.len() {
            Err(Failure { kind: ErrorType::TrailingEscape, index: at })
        } else if let Some(c) = escape_target(sc.mode, input[(at + 1) as int]) {
            scan(input.skip((at + 2) as int), at + 2, sc.splice(c))
        } else if sc.mode is SingleQuoted {
            scan(input.skip((at + 1) as int), at + 1, sc.grow('\\'))
        } else {
            Err(Failure { kind: ErrorType::InvalidEscape, index: at + 1 })
        }),
{
    let rest = input.skip(at as int);
    assert(rest.skip(1) == input.skip((at + 1) as int));
    if at + 1 < input.len() {
        assert(rest.skip(2) == input.skip((at + 2) as int));
    }
}

/// No step leaves text of an open word behind between words.
pub proof fn lemma_step_keeps_well_formed(sc: Scan, c: char, at: nat)
    requires
        sc.well_formed(),
    ensures
        Scan::start().well_formed(),
        sc.feed(c, at).well_formed(),
        sc.splice(c).well_formed(),
        sc.mode is SingleQuoted ==> sc.grow(c).well_formed(),
{
}

/// Finished words stay: whatever a scan goes on to read, the words that
/// were finished before are the first words of its result, unchanged and in
/// the same order.
pub proof fn lemma_finished_words_stay(rest: Seq<char>, at: nat, sc: Scan)
    ensures
        scan(rest, at, sc) matches Ok(words) ==> sc.words.is_prefix_of(words),
    decreases rest.len(),
{
    if rest.len() == 0 {
    } else if rest[0] != '\\' {
        lemma_finished_words_stay(rest.skip(1), at + 1, sc.feed(rest[0], at));
    } else if rest.len() == 1 {
    } else if let Some(c) = escape_target(sc.mode, rest[1]) {
        lemma_finished_words_stay(rest.skip(2), at + 2, sc.splice(c));
    } else if sc.mode is SingleQuoted {
        lemma_finished_words_stay(rest.skip(1), at + 1, sc.grow('\\'));
    }
}

/// Outside quotes, plain codepoints at the head of the input go to the open
/// word, or open one, and the scan goes on behind them.
pub proof fn lemma_scan_plain(text: Seq<char>, rest: Seq<char>, at: nat, sc: Scan)
    requires
        forall|i: int| 0 <= i < text.len() ==> is_plain(#[trigger] text[i]),
        sc.mode is Idle || sc.mode is InWord,
    ensures
        scan(text + rest, at, sc) == scan(
            rest,
            at + text.len(),
            if text.len() == 0 {
                sc
            } else {
                Scan { mode: Mode::InWord, word: sc.word + text, words: sc.words }
            },
        ),
    decreases text.len(),
{
    if text.len() == 0 {
        assert(text + rest == rest);
    } else {
        let c = text[0];
        let fed = sc.feed(c, at);
        assert((text + rest).skip(1) == text.skip(1) + rest);
        assert(fed.word + text.skip(1) == sc.word + text);
        if text.len() == 1 {
            assert(fed.word + text.skip(1) == fed.word);
        }
        lemma_scan_plain(text.skip(1), rest, at + 1, fed);
    }
}

} // verus!
