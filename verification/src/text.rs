//! Strings as character sequences with byte positions.
//!
//! A position in a text is a byte index into its UTF-8 encoding, as the
//! standard library counts them. A text can be cut at a position that falls
//! between two characters; `head_at` and `tail_at` are the two parts.

use vstd::prelude::*;
use vstd::std_specs::iter::IteratorSpec;
use vstd::utf8::*;

use crate::chars::is_white_space;

verus! {

/// The number of bytes that `s` takes in UTF-8.
pub open spec fn byte_len(s: Seq<char>) -> nat {
    encode_utf8(s).len()
}

/// Whether byte position `pos` of `s` falls between two characters, or at
/// either end.
pub open spec fn is_boundary(s: Seq<char>, pos: int) -> bool {
    is_char_boundary(encode_utf8(s), pos)
}

/// The characters of `s` before byte position `pos`.
pub open spec fn head_at(s: Seq<char>, pos: int) -> Seq<char> {
    decode_utf8(encode_utf8(s).subrange(0, pos))
}

/// The characters of `s` from byte position `pos` on.
pub open spec fn tail_at(s: Seq<char>, pos: int) -> Seq<char> {
    decode_utf8(encode_utf8(s).subrange(pos, byte_len(s) as int))
}

/// The characters of `s` between byte positions `from` and `to`.
pub open spec fn slice_between(s: Seq<char>, from: int, to: int) -> Seq<char> {
    tail_at(head_at(s, to), from)
}

/// Whether `s` is not empty and ends with `c`.
pub open spec fn ends_with(s: Seq<char>, c: char) -> bool {
    s.len() > 0 && s.last() == c
}

/// The number of backslashes that `s` ends with.
pub open spec fn trailing_backslashes(s: Seq<char>) -> nat
    decreases s.len(),
{
    if s.len() > 0 && s.last() == '\\' {
        1 + trailing_backslashes(s.drop_last())
    } else {
        0
    }
}

/// Whether `s` ends with a backslash that no backslash before it escapes:
/// the backslashes at its end are odd in number.
pub open spec fn ends_with_escape(s: Seq<char>) -> bool {
    trailing_backslashes(s) % 2 == 1
}

/// `s` without its trailing white space.
pub open spec fn trim_end_of(s: Seq<char>) -> Seq<char>
    decreases s.len(),
{
    if s.len() > 0 && is_white_space(s.last()) {
        trim_end_of(s.drop_last())
    } else {
        s
    }
}

/// The number of characters at the start of `s` that are not white space:
/// the index of the first white space character, or the length of `s` where
/// it has none.
pub open spec fn white_space_index(s: Seq<char>) -> int
    decreases s.len(),
{
    if s.len() == 0 || is_white_space(s[0]) {
        0
    } else {
        1 + white_space_index(s.drop_first())
    }
}

/// The index of the first line feed in `s`, or the length of `s` where it has
/// none.
pub open spec fn line_feed_index(s: Seq<char>) -> int
    decreases s.len(),
{
    if s.len() == 0 || s[0] == '\n' {
        0
    } else {
        1 + line_feed_index(s.drop_first())
    }
}

/// `white_space_index` is the only index with no white space before it that
/// is the end of the text or holds white space.
pub proof fn lemma_white_space_index(s: Seq<char>, k: int)
    requires
        0 <= k <= s.len(),
        forall|j: int| 0 <= j < k ==> !is_white_space(#[trigger] s[j]),
        k < s.len() ==> is_white_space(s[k]),
    ensures
        white_space_index(s) == k,
    decreases s.len(),
{
    if k > 0 {
        let rest = s.drop_first();
        assert(!is_white_space(s[0]));
        assert(forall|j: int| 0 <= j < k - 1 ==> rest[j] == s[j + 1]);
        lemma_white_space_index(rest, k - 1);
    }
}

/// `line_feed_index` is the only index with no line feed before it that is
/// the end of the text or holds a line feed.
pub proof fn lemma_line_feed_index(s: Seq<char>, k: int)
    requires
        0 <= k <= s.len(),
        forall|j: int| 0 <= j < k ==> #[trigger] s[j] != '\n',
        k < s.len() ==> s[k] == '\n',
    ensures
        line_feed_index(s) == k,
    decreases s.len(),
{
    if k > 0 {
        let rest = s.drop_first();
        assert(s[0] != '\n');
        assert(forall|j: int| 0 <= j < k - 1 ==> rest[j] == s[j + 1]);
        lemma_line_feed_index(rest, k - 1);
    }
}

/// Whether `needle` stands in `s` from character index `k` on.
pub open spec fn occurs_at(s: Seq<char>, needle: Seq<char>, k: int) -> bool {
    0 <= k && k + needle.len() <= s.len() && s.subrange(k, k + needle.len()) == needle
}

/// Whether `needle` stands somewhere in `s`.
pub open spec fn occurs_in(s: Seq<char>, needle: Seq<char>) -> bool {
    exists|k: int| occurs_at(s, needle, k)
}

/// Whether `k` is the first character index of `s` at which `needle` stands.
pub open spec fn is_first_occurrence(s: Seq<char>, needle: Seq<char>, k: int) -> bool {
    occurs_at(s, needle, k) && forall|j: int| 0 <= j < k ==> !occurs_at(s, needle, j)
}

/// The first character index of `s` at which `needle` stands, where it
/// stands somewhere.
pub open spec fn first_occurrence(s: Seq<char>, needle: Seq<char>) -> int {
    choose|k: int| is_first_occurrence(s, needle, k)
}

/// There is only one first occurrence.
pub proof fn lemma_first_occurrence(s: Seq<char>, needle: Seq<char>, k: int)
    requires
        is_first_occurrence(s, needle, k),
    ensures
        first_occurrence(s, needle) == k,
        occurs_in(s, needle),
{
    let chosen = first_occurrence(s, needle);
    assert(is_first_occurrence(s, needle, chosen));
    if chosen < k {
        assert(!occurs_at(s, needle, chosen));
    }
    if k < chosen {
        assert(!occurs_at(s, needle, k));
    }
}

/// Where `needle` stands in `s`, it stands somewhere first.
pub proof fn lemma_first_occurrence_exists(s: Seq<char>, needle: Seq<char>, k: int)
    requires
        occurs_at(s, needle, k),
    ensures
        is_first_occurrence(s, needle, first_occurrence(s, needle)),
        0 <= first_occurrence(s, needle) <= k,
    decreases k,
{
    if forall|j: int| 0 <= j < k ==> !occurs_at(s, needle, j) {
        lemma_first_occurrence(s, needle, k);
    } else {
        let j = choose|j: int| 0 <= j < k && occurs_at(s, needle, j);
        lemma_first_occurrence_exists(s, needle, j);
    }
}

/// The first white space of a text is sought within the text.
pub proof fn lemma_white_space_index_bounds(s: Seq<char>)
    ensures
        0 <= white_space_index(s) <= s.len(),
    decreases s.len(),
{
    if s.len() > 0 && !is_white_space(s[0]) {
        lemma_white_space_index_bounds(s.drop_first());
    }
}

/// Encoding distributes over concatenation.
pub proof fn lemma_encode_concat(a: Seq<char>, b: Seq<char>)
    ensures
        encode_utf8(a + b) =~= encode_utf8(a) + encode_utf8(b),
    decreases a.len(),
{
    if a.len() == 0 {
        assert(a + b =~= b);
    } else {
        assert((a + b).drop_first() =~= a.drop_first() + b);
        lemma_encode_concat(a.drop_first(), b);
    }
}

/// The end of a prefix of characters is a boundary of the whole text.
pub proof fn lemma_concat_boundary(a: Seq<char>, b: Seq<char>)
    ensures
        is_boundary(a + b, byte_len(a) as int),
    decreases a.len(),
{
    broadcast use encode_utf8_valid_utf8;

    if a.len() == 0 {
    } else {
        let whole = a + b;
        let bytes = encode_utf8(whole);
        encode_utf8_first_scalar(whole);
        assert(whole.drop_first() =~= a.drop_first() + b);
        assert(pop_first_scalar(bytes) =~= encode_utf8(whole.drop_first()));
        lemma_concat_boundary(a.drop_first(), b);
        lemma_encode_concat(a, b);
        assert(length_of_first_scalar(bytes) == encode_scalar(a[0] as u32).len());
        assert(byte_len(a) == encode_scalar(a[0] as u32).len() + byte_len(a.drop_first()));
        assert(byte_len(a) > 0) by {
            char_is_scalar(a[0]);
        }
    }
}

/// Cutting a text at a boundary loses nothing: the two parts make up the
/// text, and the first part has as many bytes as the position says.
pub proof fn lemma_cut(s: Seq<char>, pos: int)
    requires
        is_boundary(s, pos),
    ensures
        0 <= pos <= byte_len(s),
        head_at(s, pos) + tail_at(s, pos) =~= s,
        encode_utf8(head_at(s, pos)) =~= encode_utf8(s).subrange(0, pos),
        encode_utf8(tail_at(s, pos)) =~= encode_utf8(s).subrange(pos, byte_len(s) as int),
        byte_len(head_at(s, pos)) == pos,
        byte_len(tail_at(s, pos)) == byte_len(s) - pos,
{
    broadcast use encode_utf8_valid_utf8;

    let bytes = encode_utf8(s);
    valid_utf8_split(bytes, pos);
    decode_utf8_split(bytes, pos);
    encode_utf8_decode_utf8(s);
    decode_utf8_encode_utf8(bytes.subrange(0, pos));
    decode_utf8_encode_utf8(bytes.subrange(pos, bytes.len() as int));
}

/// A text of two parts can be cut between them, and the cut gives the parts
/// back.
pub proof fn lemma_cut_concat(a: Seq<char>, b: Seq<char>)
    ensures
        is_boundary(a + b, byte_len(a) as int),
        head_at(a + b, byte_len(a) as int) =~= a,
        tail_at(a + b, byte_len(a) as int) =~= b,
        byte_len(a + b) == byte_len(a) + byte_len(b),
{
    lemma_concat_boundary(a, b);
    lemma_encode_concat(a, b);
    let bytes = encode_utf8(a + b);
    let pos = byte_len(a) as int;
    assert(bytes.subrange(0, pos) =~= encode_utf8(a));
    assert(bytes.subrange(pos, bytes.len() as int) =~= encode_utf8(b));
    encode_utf8_decode_utf8(a);
    encode_utf8_decode_utf8(b);
}

/// A text that is not empty takes at least one byte.
pub proof fn lemma_byte_len_positive(s: Seq<char>)
    requires
        s.len() > 0,
    ensures
        byte_len(s) > 0,
{
    char_is_scalar(s[0]);
}

/// A boundary lies behind a whole number of characters, and the cut there
/// takes just those.
pub proof fn lemma_boundary_index(s: Seq<char>, pos: int) -> (k: int)
    requires
        is_boundary(s, pos),
    ensures
        0 <= k <= s.len(),
        head_at(s, pos) =~= s.take(k),
        tail_at(s, pos) =~= s.skip(k),
        byte_len(s.take(k)) == pos,
{
    lemma_cut(s, pos);
    let k = head_at(s, pos).len() as int;
    assert(s.take(k) =~= head_at(s, pos));
    assert(s.skip(k) =~= tail_at(s, pos));
    k
}

/// Longer prefixes take more bytes.
pub proof fn lemma_byte_len_take(s: Seq<char>, a: int, b: int)
    requires
        0 <= a <= b <= s.len(),
    ensures
        byte_len(s.take(b)) == byte_len(s.take(a)) + byte_len(s.subrange(a, b)),
        a < b ==> byte_len(s.take(a)) < byte_len(s.take(b)),
{
    assert(s.take(b) =~= s.take(a) + s.subrange(a, b));
    lemma_cut_concat(s.take(a), s.subrange(a, b));
    if a < b {
        lemma_byte_len_positive(s.subrange(a, b));
    }
}

/// Of two boundaries of a text, the earlier is a boundary of the part before
/// the later, and cuts the same characters off it.
pub proof fn lemma_nested_cut(s: Seq<char>, from: int, to: int)
    requires
        is_boundary(s, from),
        is_boundary(s, to),
        from <= to,
    ensures
        is_boundary(head_at(s, to), from),
        head_at(head_at(s, to), from) =~= head_at(s, from),
        head_at(s, from) + slice_between(s, from, to) =~= head_at(s, to),
        byte_len(slice_between(s, from, to)) == to - from,
{
    let k = lemma_boundary_index(s, from);
    let m = lemma_boundary_index(s, to);
    if m < k {
        lemma_byte_len_take(s, m, k);
    }
    lemma_byte_len_take(s, k, m);
    assert(s.take(m) =~= s.take(k) + s.subrange(k, m));
    lemma_cut_concat(s.take(k), s.subrange(k, m));
}

/// What stands in the part of a text behind a boundary stands in the text.
pub proof fn lemma_occurs_in_tail(s: Seq<char>, needle: Seq<char>, pos: int)
    requires
        is_boundary(s, pos),
        occurs_in(tail_at(s, pos), needle),
    ensures
        occurs_in(s, needle),
{
    let k = lemma_boundary_index(s, pos);
    let j = choose|j: int| occurs_at(s.skip(k), needle, j);
    assert(s.skip(k).subrange(j, j + needle.len()) =~= s.subrange(k + j, k + j + needle.len()));
    assert(occurs_at(s, needle, k + j));
}

/// Of two boundaries of a text, the later is a boundary of the part behind
/// the earlier, and leaves the same characters behind it.
pub proof fn lemma_nested_tail(s: Seq<char>, from: int, to: int)
    requires
        is_boundary(s, from),
        is_boundary(s, to),
        from <= to,
    ensures
        is_boundary(tail_at(s, from), to - from),
        tail_at(tail_at(s, from), to - from) =~= tail_at(s, to),
{
    let k = lemma_boundary_index(s, from);
    let m = lemma_boundary_index(s, to);
    if m < k {
        lemma_byte_len_take(s, m, k);
    }
    lemma_byte_len_take(s, k, m);
    assert(s.skip(k) =~= s.subrange(k, m) + s.skip(m));
    lemma_cut_concat(s.subrange(k, m), s.skip(m));
}

/// Both ends of a text are boundaries.
pub proof fn lemma_ends_are_boundaries(s: Seq<char>)
    ensures
        is_boundary(s, 0),
        is_boundary(s, byte_len(s) as int),
        head_at(s, byte_len(s) as int) =~= s,
        tail_at(s, byte_len(s) as int) =~= Seq::<char>::empty(),
{
    assert(s =~= s + Seq::<char>::empty());
    lemma_cut_concat(s, Seq::<char>::empty());
    encode_utf8_valid_utf8(s);
}

/// The number of bytes in `s`.
pub fn byte_length(s: &str) -> (n: usize)
    ensures
        n == byte_len(s@),
{
    s.as_bytes().len()
}

/// Whether `s` can be cut at `pos`.
pub fn at_boundary(s: &str, pos: usize) -> (b: bool)
    ensures
        b == is_boundary(s@, pos as int),
{
    s.is_char_boundary(pos)
}

/// Cuts `s` at `pos`.
pub fn cut<'a>(s: &'a str, pos: usize) -> (parts: (&'a str, &'a str))
    requires
        is_boundary(s@, pos as int),
    ensures
        parts.0@ == head_at(s@, pos as int),
        parts.1@ == tail_at(s@, pos as int),
        parts.0@ + parts.1@ == s@,
        byte_len(parts.0@) == pos,
        byte_len(parts.1@) == byte_len(s@) - pos,
{
    let parts = s.split_at(pos);
    proof {
        lemma_cut(s@, pos as int);
        encode_utf8_decode_utf8(parts.0@);
        encode_utf8_decode_utf8(parts.1@);
    }
    parts
}

/// The part of `s` between the byte positions `from` and `to`.
pub fn slice<'a>(s: &'a str, from: usize, to: usize) -> (part: &'a str)
    requires
        is_boundary(s@, from as int),
        is_boundary(s@, to as int),
        from <= to,
    ensures
        part@ == slice_between(s@, from as int, to as int),
{
    let (head, _) = cut(s, to);
    proof {
        lemma_nested_cut(s@, from as int, to as int);
    }
    let (_, part) = cut(head, from);
    part
}

/// The last character of `s`.
pub fn last_char(s: &str) -> (last: Option<char>)
    ensures
        last == (if s@.len() > 0 {
            Some(s@.last())
        } else {
            None
        }),
{
    broadcast use vstd::string::group_string_axioms;

    let mut chars = s.chars();
    chars.next_back()
}

/// Whether `s` ends with a backslash that no backslash before it escapes.
pub fn ends_in_escape(s: &str) -> (b: bool)
    ensures
        b == ends_with_escape(s@),
{
    let mut rest = s;
    let mut odd = false;
    loop
        invariant
            ends_with_escape(s@) == (odd != ends_with_escape(rest@)),
        decreases rest@.len(),
    {
        match last_char(rest) {
            Some(c) => {
                if c != '\\' {
                    return odd;
                }
                let len = byte_length(rest);
                proof {
                    let front = rest@.drop_last();
                    assert(rest@ =~= front + seq![c]);
                    lemma_cut_concat(front, seq![c]);
                }
                let (front, _) = cut(rest, len - c.len_utf8());
                rest = front;
                odd = !odd;
            },
            None => {
                return odd;
            },
        }
    }
}

/// `s` without its trailing white space, as a part of `s`.
pub fn trim_end<'a>(s: &'a str) -> (trimmed: &'a str)
    ensures
        trimmed@ == trim_end_of(s@),
{
    let mut rest = s;
    loop
        invariant
            trim_end_of(rest@) == trim_end_of(s@),
        decreases rest@.len(),
    {
        match last_char(rest) {
            Some(c) => {
                if !c.is_whitespace() {
                    return rest;
                }
                let len = byte_length(rest);
                proof {
                    let front = rest@.drop_last();
                    assert(rest@ =~= front + seq![c]);
                    lemma_cut_concat(front, seq![c]);
                }
                let (front, _) = cut(rest, len - c.len_utf8());
                rest = front;
            },
            None => {
                return rest;
            },
        }
    }
}

/// The byte position of the first white space character of `s`.
pub fn find_white_space(s: &str) -> (found: Option<usize>)
    ensures
        0 <= white_space_index(s@) <= s@.len(),
        match found {
            Some(pos) => {
                &&& white_space_index(s@) < s@.len()
                &&& is_white_space(s@[white_space_index(s@)])
                &&& pos == byte_len(s@.take(white_space_index(s@)))
            },
            None => white_space_index(s@) == s@.len(),
        },
{
    broadcast use vstd::string::group_string_axioms;

    let len = byte_length(s);
    let mut pos: usize = 0;
    for c in chars: s.chars()
        invariant
            chars.seq() == s@,
            len == byte_len(s@),
            pos == byte_len(s@.take(chars.index() as int)),
            forall|j: int| 0 <= j < chars.index() ==> !is_white_space(#[trigger] s@[j]),
    {
        let ghost k = chars.index() as int;
        if c.is_whitespace() {
            proof {
                lemma_white_space_index(s@, k);
            }
            return Some(pos);
        }
        proof {
            assert(s@.take(k + 1) =~= s@.take(k) + seq![c]);
            lemma_cut_concat(s@.take(k), seq![c]);
            assert(s@ =~= s@.take(k + 1) + s@.skip(k + 1));
            lemma_cut_concat(s@.take(k + 1), s@.skip(k + 1));
        }
        pos = pos + c.len_utf8();
    }
    proof {
        lemma_white_space_index(s@, s@.len() as int);
    }
    None
}

/// The byte position of the first line feed of `s`.
pub fn find_line_feed(s: &str) -> (found: Option<usize>)
    ensures
        0 <= line_feed_index(s@) <= s@.len(),
        match found {
            Some(pos) => {
                &&& line_feed_index(s@) < s@.len()
                &&& s@[line_feed_index(s@)] == '\n'
                &&& pos == byte_len(s@.take(line_feed_index(s@)))
            },
            None => line_feed_index(s@) == s@.len(),
        },
{
    broadcast use vstd::string::group_string_axioms;

    let len = byte_length(s);
    let mut pos: usize = 0;
    for c in chars: s.chars()
        invariant
            chars.seq() == s@,
            len == byte_len(s@),
            pos == byte_len(s@.take(chars.index() as int)),
            forall|j: int| 0 <= j < chars.index() ==> #[trigger] s@[j] != '\n',
    {
        let ghost k = chars.index() as int;
        if c == '\n' {
            proof {
                lemma_line_feed_index(s@, k);
            }
            return Some(pos);
        }
        proof {
            assert(s@.take(k + 1) =~= s@.take(k) + seq![c]);
            lemma_cut_concat(s@.take(k), seq![c]);
            assert(s@ =~= s@.take(k + 1) + s@.skip(k + 1));
            lemma_cut_concat(s@.take(k + 1), s@.skip(k + 1));
        }
        pos = pos + c.len_utf8();
    }
    proof {
        lemma_line_feed_index(s@, s@.len() as int);
    }
    None
}

/// The first character of `s`.
pub fn first_char(s: &str) -> (first: Option<char>)
    ensures
        first == (if s@.len() > 0 {
            Some(s@[0])
        } else {
            None
        }),
{
    broadcast use vstd::string::group_string_axioms;

    let mut chars = s.chars();
    chars.next()
}

/// Whether `s` starts with `prefix`.
pub fn has_prefix(s: &str, prefix: &str) -> (b: bool)
    ensures
        b == occurs_at(s@, prefix@, 0),
{
    broadcast use vstd::string::group_string_axioms;

    let mut rest = s.chars();
    for c in wanted: prefix.chars()
        invariant
            wanted.seq() == prefix@,
            wanted.index() <= s@.len(),
            rest.remaining() == s@.skip(wanted.index() as int),
            s@.take(wanted.index() as int) == prefix@.take(wanted.index() as int),
    {
        let ghost k = wanted.index() as int;
        match rest.next() {
            Some(d) => {
                if d != c {
                    proof {
                        if occurs_at(s@, prefix@, 0) {
                            assert(s@.subrange(0, prefix@.len() as int)[k] == prefix@[k]);
                        }
                    }
                    return false;
                }
                assert(s@.take(k + 1) =~= s@.take(k).push(d));
                assert(prefix@.take(k + 1) =~= prefix@.take(k).push(c));
                assert(s@.skip(k + 1) =~= s@.skip(k).drop_first());
            },
            None => {
                return false;
            },
        }
    }
    assert(prefix@.take(prefix@.len() as int) =~= prefix@);
    true
}

/// The byte position at which `needle` first stands in `s`.
pub fn find_str(s: &str, needle: &str) -> (found: Option<usize>)
    ensures
        match found {
            Some(pos) => {
                &&& is_first_occurrence(s@, needle@, first_occurrence(s@, needle@))
                &&& pos == byte_len(s@.take(first_occurrence(s@, needle@)))
            },
            None => !occurs_in(s@, needle@),
        },
{
    let mut rest = s;
    let mut pos: usize = 0;
    let ghost mut k: int = 0;
    let len = byte_length(s);
    loop
        invariant
            0 <= k <= s@.len(),
            len == byte_len(s@),
            rest@ == s@.skip(k),
            pos == byte_len(s@.take(k)),
            pos + byte_len(rest@) == len,
            forall|j: int| 0 <= j < k ==> !occurs_at(s@, needle@, j),
        decreases s@.len() - k,
    {
        let here = has_prefix(rest, needle);
        proof {
            if k + needle@.len() <= s@.len() {
                assert(s@.skip(k).subrange(0, needle@.len() as int) =~= s@.subrange(
                    k,
                    k + needle@.len(),
                ));
            }
        }
        if here {
            proof {
                lemma_first_occurrence(s@, needle@, k);
            }
            return Some(pos);
        }
        match first_char(rest) {
            Some(c) => {
                proof {
                    assert(rest@ =~= seq![c] + rest@.drop_first());
                    lemma_cut_concat(seq![c], rest@.drop_first());
                    assert(s@.take(k + 1) =~= s@.take(k) + seq![c]);
                    lemma_cut_concat(s@.take(k), seq![c]);
                    assert(s@.skip(k + 1) =~= rest@.drop_first());
                }
                let width = c.len_utf8();
                let (_, after) = cut(rest, width);
                rest = after;
                pos = pos + width;
                proof {
                    k = k + 1;
                }
            },
            None => {
                assert forall|j: int| !occurs_at(s@, needle@, j) by {
                    assert(k == s@.len());
                }
                return None;
            },
        }
    }
}

} // verus!
