//! Line continuations in the source of a string literal.

use vstd::prelude::*;

use crate::expressions::{replace_all, replace_all_of};

verus! {

/// The pattern of a line continuation: a backslash that is not itself
/// escaped, a line feed or carriage return behind it, and the white space
/// that follows. Its first group is what stands before that backslash: a
/// character that is no backslash, and pairs of backslashes.
pub open spec fn line_continuation() -> Seq<char> {
    r"([^\\](\\\\)*)\\[\n\r][[:space:]]*"@
}

/// `orig` without its line continuations. What is left of the white space
/// is part of the text. `None` only if the pattern were refused as a regular
/// expression.
pub open spec fn stripped_of(orig: Seq<char>) -> Option<Seq<char>> {
    replace_all_of(line_continuation(), orig, "$1"@)
}

/// Takes the line continuations out of the source of a string literal.
pub fn strip_line_breaks(orig: &str) -> (stripped: Option<String>)
    ensures
        match stripped {
            Some(stripped) => stripped_of(orig@) == Some(stripped@),
            None => stripped_of(orig@) is None,
        },
{
    replace_all(r"([^\\](\\\\)*)\\[\n\r][[:space:]]*", orig, "$1")
}

} // verus!
