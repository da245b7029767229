//! Text without quotes: words are what stands between blanks.
use vstd::prelude::*;
use crate::laws::steps::lemma_scan_step;
use crate::error::Failure;
use crate::machine::{
    escape_target, is_blank, is_plain, is_quote, scan, tokenize_spec, Mode, Scan,
};

verus! {

/// The stretch `[lo, hi)` of `input` is not empty, holds no blank, and has a
/// blank or an end of the input on either side.
pub open spec fn is_run(input: Seq<char>, lo: int, hi: int) -> bool {
    &&& 0 <= lo < hi <= input.len()
    &&& forall|i: int| lo <= i < hi ==> !is_blank(#[trigger] input[i])
    &&& (lo == 0 || is_blank(input[lo - 1]))
    &&& (hi == input.len() || is_blank(input[hi]))
}

/// Index `i` lies in one of the stretches that begin at `starts` and are as
/// long as the `words`.
pub open spec fn covered(starts: Seq<int>, words: Seq<Seq<char>>, i: int) -> bool {
    exists|k: int| 0 <= k < words.len() && #[trigger] starts[k] <= i < starts[k] + words[k].len()
}

/// `words` are the maximal blank-free stretches of `input`, each once, in
/// input order, and `starts` says where each begins: every word is such a
/// stretch, a later word begins later, and no codepoint but a blank is left
/// out.
pub open spec fn splits_at_blanks(
    input: Seq<char>,
    starts: Seq<int>,
    words: Seq<Seq<char>>,
) -> bool {
    &&& starts.len() == words.len()
    &&& forall|k: int|
        0 <= k < words.len() ==> {
            &&& is_run(input, #[trigger] starts[k], starts[k] + words[k].len())
            &&& words[k] == input.subrange(starts[k], starts[k] + words[k].len())
        }
    &&& forall|j: int, k: int| 0 <= j < k < words.len() ==> #[trigger] starts[j] < #[trigger] starts[k]
    &&& forall|i: int|
        0 <= i < input.len() && !is_blank(#[trigger] input[i]) ==> covered(starts, words, i)
}

/// What holds at index `at` of a scan of quote-free, backslash-free text:
/// the finished words are the stretches that ended before `at`, and the open
/// word, if there is one, is the blank-free stretch that reaches `at`.
spec fn split_so_far(input: Seq<char>, at: int, sc: Scan, starts: Seq<int>) -> bool {
    let open = at - sc.word.len();
    &&& 0 <= open <= at <= input.len()
    &&& starts.len() == sc.words.len()
    &&& forall|k: int|
        0 <= k < sc.words.len() ==> {
            &&& is_run(input, #[trigger] starts[k], starts[k] + sc.words[k].len())
            &&& sc.words[k] == input.subrange(starts[k], starts[k] + sc.words[k].len())
            &&& starts[k] + sc.words[k].len() < open
        }
    &&& forall|j: int, k: int|
        0 <= j < k < sc.words.len() ==> #[trigger] starts[j] < #[trigger] starts[k]
    &&& forall|i: int|
        0 <= i < open && !is_blank(#[trigger] input[i]) ==> covered(starts, sc.words, i)
    &&& sc.word == input.subrange(open, at)
    &&& forall|i: int| open <= i < at ==> !is_blank(#[trigger] input[i])
    &&& (open == 0 || is_blank(input[open - 1]))
    &&& match sc.mode {
        Mode::Idle => open == at,
        Mode::InWord => open < at,
        _ => false,
    }
}

/// A stretch that is covered stays covered when one more word is counted.
proof fn lemma_covered_grows(
    starts: Seq<int>,
    words: Seq<Seq<char>>,
    start: int,
    word: Seq<char>,
    i: int,
)
    requires
        starts.len() == words.len(),
        covered(starts, words, i) || start <= i < start + word.len(),
    ensures
        covered(starts.push(start), words.push(word), i),
{
    let more_starts = starts.push(start);
    let more_words = words.push(word);
    if covered(starts, words, i) {
        let k: int = choose|k: int|
            0 <= k < words.len() && #[trigger] starts[k] <= i < starts[k] + words[k].len();
        assert(more_starts[k] <= i < more_starts[k] + more_words[k].len());
    } else {
        let k: int = words.len() as int;
        assert(more_starts[k] <= i < more_starts[k] + more_words[k].len());
    }
}

proof fn lemma_scan_splits(input: Seq<char>, at: nat, sc: Scan, starts: Seq<int>) -> (all: Seq<int>)
    requires
        forall|i: int| 0 <= i < input.len() ==> !is_quote(#[trigger] input[i]) && input[i] != '\\',
        split_so_far(input, at as int, sc, starts),
    ensures
        scan(input.skip(at as int), at, sc) matches Ok(words) && splits_at_blanks(input, all, words),
    decreases input.len() - at,
{
    let open: int = at - sc.word.len();
    if at < input.len() {
        let c = input[at as int];
        lemma_scan_step(input, at, sc);
        let next = sc.feed(c, at);
        if is_blank(c) && sc.mode is InWord {
            let more = starts.push(open);
            assert forall|i: int| 0 <= i < at + 1 && !is_blank(#[trigger] input[i]) implies covered(
                more,
                next.words,
                i,
            ) by {
                lemma_covered_grows(starts, sc.words, open, sc.word, i);
            }
            assert(next.word == input.subrange(at as int + 1, at as int + 1));
            lemma_scan_splits(input, at + 1, next, more)
        } else {
            assert(next.word == input.subrange(at as int + 1 - next.word.len(), at as int + 1));
            lemma_scan_splits(input, at + 1, next, starts)
        }
    } else if sc.mode is InWord {
        let more = starts.push(open);
        let words = sc.words.push(sc.word);
        assert forall|i: int| 0 <= i < input.len() && !is_blank(#[trigger] input[i]) implies covered(
            more,
            words,
            i,
        ) by {
            lemma_covered_grows(starts, sc.words, open, sc.word, i);
        }
        more
    } else {
        starts
    }
}

/// In text without quotes and backslashes the words are the maximal
/// blank-free stretches of the input, in input order. However many blanks
/// stand between two words, before the first or after the last, they add no
/// word.
///
/// The result says where each word begins.
pub proof fn lemma_splits_at_blanks(input: Seq<char>) -> (starts: Seq<int>)
    requires
        forall|i: int| 0 <= i < input.len() ==> !is_quote(#[trigger] input[i]) && input[i] != '\\',
    ensures
        tokenize_spec(input) matches Ok(words) && splits_at_blanks(input, starts, words),
{
    assert(input.skip(0) =~= input);
    assert(Scan::start().word == input.subrange(0, 0));
    lemma_scan_splits(input, 0, Scan::start(), Seq::empty())
}

proof fn lemma_scan_plain_word(input: Seq<char>, at: nat)
    requires
        0 < at <= input.len(),
        forall|i: int| 0 <= i < input.len() ==> is_plain(#[trigger] input[i]),
    ensures
        scan(
            input.skip(at as int),
            at,
            Scan { mode: Mode::InWord, word: input.take(at as int), words: Seq::empty() },
        ) == Ok::<Seq<Seq<char>>, Failure>(seq![input]),
    decreases input.len() - at,
{
    let sc = Scan { mode: Mode::InWord, word: input.take(at as int), words: Seq::empty() };
    if at < input.len() {
        lemma_scan_step(input, at, sc);
        assert(sc.feed(input[at as int], at).word == input.take(at as int + 1));
        lemma_scan_plain_word(input, at + 1);
    } else {
        assert(input.take(at as int) == input);
        assert(Seq::<Seq<char>>::empty().push(input) == seq![input]);
    }
}

/// Text that is not empty and holds no blank, quote or backslash is one
/// word: itself.
pub proof fn lemma_plain_word(input: Seq<char>)
    requires
        input.len() > 0,
        forall|i: int| 0 <= i < input.len() ==> is_plain(#[trigger] input[i]),
    ensures
        tokenize_spec(input) == Ok::<Seq<Seq<char>>, Failure>(seq![input]),
{
    assert(input.skip(0) =~= input);
    lemma_scan_step(input, 0, Scan::start());
    assert(Scan::start().feed(input[0], 0).word == input.take(1));
    lemma_scan_plain_word(input, 1);
}

/// What holds throughout a scan of text without quote characters: no word
/// is empty.
spec fn no_empty_word(sc: Scan) -> bool {
    &&& forall|k: int| 0 <= k < sc.words.len() ==> (#[trigger] sc.words[k]).len() > 0
    &&& match sc.mode {
        Mode::Idle => true,
        Mode::InWord => sc.word.len() > 0,
        _ => false,
    }
}

proof fn lemma_scan_no_empty_word(input: Seq<char>, at: nat, sc: Scan)
    requires
        at <= input.len(),
        forall|i: int| 0 <= i < input.len() ==> !is_quote(#[trigger] input[i]),
        no_empty_word(sc),
    ensures
        scan(input.skip(at as int), at, sc) matches Ok(words) ==> forall|k: int|
            0 <= k < words.len() ==> (#[trigger] words[k]).len() > 0,
    decreases input.len() - at,
{
    if at < input.len() {
        lemma_scan_step(input, at, sc);
        if input[at as int] != '\\' {
            lemma_scan_no_empty_word(input, at + 1, sc.feed(input[at as int], at));
        } else if at + 1 == input.len() {
        } else if let Some(c) = escape_target(sc.mode, input[(at + 1) as int]) {
            lemma_scan_no_empty_word(input, at + 2, sc.splice(c));
        }
    }
}

/// Only quotes make an empty word: where the input holds no quote
/// character, every word of the result has at least one codepoint, however
/// the blanks are spread and whatever is escaped.
pub proof fn lemma_no_empty_word_without_quotes(input: Seq<char>)
    requires
        forall|i: int| 0 <= i < input.len() ==> !is_quote(#[trigger] input[i]),
    ensures
        tokenize_spec(input) matches Ok(words) ==> forall|k: int|
            0 <= k < words.len() ==> (#[trigger] words[k]).len() > 0,
{
    assert(input.skip(0) =~= input);
    lemma_scan_no_empty_word(input, 0, Scan::start());
}

} // verus!
