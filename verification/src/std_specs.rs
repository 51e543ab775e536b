//! What the library takes on trust of the standard library: the contracts here are stated,
//! not proved.
use vstd::prelude::*;

verus! {

/// `String::push` appends the character to the end of the string, and leaves what was
/// there as it was.
pub assume_specification[ String::push ](s: &mut String, ch: char)
    ensures
        final(s)@ == old(s)@.push(ch),
;

} // verus!
