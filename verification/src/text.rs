//! What is taken on trust of the standard library's `String`.
use vstd::prelude::*;

verus! {

/// `String::push` appends the one codepoint it is given and leaves the rest
/// of the string as it was.
pub assume_specification[ String::push ](s: &mut String, c: char)
    ensures
        final(s)@ == old(s)@.push(c),
;

} // verus!
