//! What the standard library knows of characters and strings, beyond what
//! `vstd` says of it.
//!
//! Nothing in this module is proved: each item states what the
//! documentation of a function of the standard library says.

use vstd::prelude::*;
use vstd::utf8::encode_utf8;

verus! {

/// Whether `c` has the Unicode property White_Space.
pub uninterp spec fn is_white_space(c: char) -> bool;

/// `char::is_whitespace`, which tests the property White_Space.
pub assume_specification[ char::is_whitespace ](c: char) -> (b: bool)
    ensures
        b == is_white_space(c),
;

/// `char::len_utf8`: the number of bytes that the character takes in UTF-8.
pub assume_specification[ char::len_utf8 ](c: char) -> (n: usize)
    ensures
        n == encode_utf8(seq![c]).len(),
;

/// `DoubleEndedIterator::next_back` on the iterator over the characters of
/// a string. What it hands out is said by `vstd` for every iterator that can
/// be walked from both ends.
pub assume_specification<'a>[ <std::str::Chars<'a> as DoubleEndedIterator>::next_back ](
    chars: &mut std::str::Chars<'a>,
) -> (last: Option<char>)
;

/// `String::with_capacity`: an empty string with room for `capacity` bytes.
/// A capacity beyond `isize::MAX` makes it panic.
pub assume_specification[ String::with_capacity ](capacity: usize) -> (s: String)
    requires
        capacity <= isize::MAX,
    ensures
        s@ == Seq::<char>::empty(),
;

} // verus!
