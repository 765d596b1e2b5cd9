//! Keeps a URL on one line.
//!
//! A URL starts where one of the markers `https://`, `http://`, `ftp://` and
//! `file://` stands, and ends at the first white space behind that, or at
//! the end of the text.

use vstd::prelude::*;

use crate::text::{
    at_boundary, byte_len, byte_length, cut, find_str, find_white_space, first_occurrence,
    is_boundary, is_first_occurrence, lemma_byte_len_take, lemma_cut, lemma_cut_concat,
    lemma_ends_are_boundaries, lemma_first_occurrence_exists, lemma_occurs_in_tail,
    lemma_white_space_index_bounds, occurs_at, occurs_in, tail_at, white_space_index,
};
use crate::unicode::{line_breaks, line_breaks_of};

verus! {

/// Whether one of the four markers of a URL stands in `text` from character
/// index `k` on.
pub open spec fn marker_at(text: Seq<char>, k: int) -> bool {
    ||| occurs_at(text, "https://"@, k)
    ||| occurs_at(text, "http://"@, k)
    ||| occurs_at(text, "ftp://"@, k)
    ||| occurs_at(text, "file://"@, k)
}

/// Whether the text holds the start of a URL: one of the schemes `https`,
/// `http`, `ftp` and `file`, followed by `://`.
pub open spec fn has_url_marker(text: Seq<char>) -> bool {
    ||| occurs_in(text, "https://"@)
    ||| occurs_in(text, "http://"@)
    ||| occurs_in(text, "ftp://"@)
    ||| occurs_in(text, "file://"@)
}

/// The character index at which `marker` first stands in `text`, where it
/// stands in it.
pub open spec fn first_of(text: Seq<char>, marker: Seq<char>) -> Option<int> {
    if occurs_in(text, marker) {
        Some(first_occurrence(text, marker))
    } else {
        None
    }
}

/// The smaller of two indices, of which either may be missing.
pub open spec fn least(a: Option<int>, b: Option<int>) -> Option<int> {
    match (a, b) {
        (Some(x), Some(y)) => Some(
            if x <= y {
                x
            } else {
                y
            },
        ),
        (Some(x), None) => Some(x),
        (None, _) => b,
    }
}

/// The character index at which the first URL of `text` starts: the least
/// index at which one of the four markers stands. `None` where the text
/// holds none.
pub open spec fn url_start(text: Seq<char>) -> Option<int> {
    least(
        least(first_of(text, "https://"@), first_of(text, "http://"@)),
        least(first_of(text, "ftp://"@), first_of(text, "file://"@)),
    )
}

/// The character index at which the first URL of `text` ends: that of the
/// first white space behind the start of its marker, or the length of the
/// text where no white space follows.
pub open spec fn url_end(text: Seq<char>) -> int {
    let start = url_start(text)->0;
    start + white_space_index(text.skip(start))
}

/// The byte position at which the first URL of `text` starts.
pub open spec fn url_start_byte(text: Seq<char>) -> int {
    byte_len(text.take(url_start(text)->0)) as int
}

/// The byte position at which the first URL of `text` ends.
pub open spec fn url_end_byte(text: Seq<char>) -> int {
    byte_len(text.take(url_end(text))) as int
}

/// The first of `breaks` that cuts `text` at byte position `from` or behind
/// it.
pub open spec fn first_break_from(
    breaks: Seq<(usize, bool)>,
    text: Seq<char>,
    from: int,
) -> Option<usize>
    decreases breaks.len(),
{
    if breaks.len() == 0 {
        None
    } else if breaks[0].0 >= from && is_boundary(text, breaks[0].0 as int) {
        Some(breaks[0].0)
    } else {
        first_break_from(breaks.drop_first(), text, from)
    }
}

/// The first byte position behind the first URL of `text` at which the text
/// may be broken: the first break opportunity at or behind the white space
/// that ends the URL, or the end of the text where there is none, as where
/// the URL runs up to the end. `None` where the text holds no URL.
pub open spec fn safe_break_of(text: Seq<char>) -> Option<usize> {
    if !has_url_marker(text) {
        None
    } else if url_end(text) < text.len() {
        match first_break_from(line_breaks_of(text), text, url_end_byte(text)) {
            Some(pos) => Some(pos),
            None => Some(byte_len(text) as usize),
        }
    } else {
        Some(byte_len(text) as usize)
    }
}

/// Where a marker stands in a text, it first stands within the text.
proof fn lemma_first_of(text: Seq<char>, marker: Seq<char>)
    ensures
        first_of(text, marker) matches Some(k) ==> 0 <= k <= text.len() && is_first_occurrence(
            text,
            marker,
            k,
        ),
{
    if occurs_in(text, marker) {
        let k = choose|k: int| occurs_at(text, marker, k);
        lemma_first_occurrence_exists(text, marker, k);
    }
}

/// A text holds a URL exactly where its first URL starts somewhere. That is
/// within the text, with a marker standing there and none before it, and
/// the URL ends behind its start.
pub proof fn lemma_url_start(text: Seq<char>)
    ensures
        url_start(text) is Some <==> has_url_marker(text),
        url_start(text) matches Some(k) ==> marker_at(text, k) && forall|j: int|
            0 <= j < k ==> !marker_at(text, j),
        has_url_marker(text) ==> 0 <= url_start(text)->0 <= url_end(text) <= text.len() && 0
            <= url_start_byte(text) <= url_end_byte(text) <= byte_len(text),
{
    lemma_first_of(text, "https://"@);
    lemma_first_of(text, "http://"@);
    lemma_first_of(text, "ftp://"@);
    lemma_first_of(text, "file://"@);
    if has_url_marker(text) {
        let start = url_start(text)->0;
        lemma_white_space_index_bounds(text.skip(start));
        lemma_byte_len_take(text, start, url_end(text));
        lemma_byte_len_take(text, url_end(text), text.len() as int);
        assert(text.take(text.len() as int) =~= text);
    }
}

/// A URL in the part of a text behind a boundary is a URL in the text.
pub proof fn lemma_url_marker_in_tail(text: Seq<char>, pos: int)
    requires
        is_boundary(text, pos),
        has_url_marker(tail_at(text, pos)),
    ensures
        has_url_marker(text),
{
    let tail = tail_at(text, pos);
    if occurs_in(tail, "https://"@) {
        lemma_occurs_in_tail(text, "https://"@, pos);
    }
    if occurs_in(tail, "http://"@) {
        lemma_occurs_in_tail(text, "http://"@, pos);
    }
    if occurs_in(tail, "ftp://"@) {
        lemma_occurs_in_tail(text, "ftp://"@, pos);
    }
    if occurs_in(tail, "file://"@) {
        lemma_occurs_in_tail(text, "file://"@, pos);
    }
}

/// The break that is found cuts the text, and does not come too early.
pub proof fn lemma_first_break_from(breaks: Seq<(usize, bool)>, text: Seq<char>, from: int)
    ensures
        first_break_from(breaks, text, from) matches Some(pos) ==> pos >= from && is_boundary(
            text,
            pos as int,
        ),
    decreases breaks.len(),
{
    if breaks.len() > 0 {
        lemma_first_break_from(breaks.drop_first(), text, from);
    }
}

/// A text has a safe break exactly where it holds a URL. The safe break
/// cuts the text at the end of its first URL or behind it, so that the
/// whole URL stands before the cut.
pub proof fn lemma_safe_break(text: Seq<char>)
    requires
        byte_len(text) <= usize::MAX,
    ensures
        safe_break_of(text) is Some <==> has_url_marker(text),
        safe_break_of(text) matches Some(safe) ==> is_boundary(text, safe as int) && 0
            <= url_start_byte(text) <= url_end_byte(text) <= safe <= byte_len(text),
{
    lemma_ends_are_boundaries(text);
    lemma_url_start(text);
    if has_url_marker(text) && url_end(text) < text.len() {
        lemma_first_break_from(line_breaks_of(text), text, url_end_byte(text));
        match first_break_from(line_breaks_of(text), text, url_end_byte(text)) {
            Some(pos) => {
                lemma_cut(text, pos as int);
            },
            None => {},
        }
    }
}

/// The earlier of two character indices is the earlier byte position.
proof fn lemma_positions_in_order(text: Seq<char>, a: Option<int>, b: Option<int>)
    requires
        a matches Some(x) ==> 0 <= x <= text.len(),
        b matches Some(y) ==> 0 <= y <= text.len(),
    ensures
        a is Some && b is Some ==> (a->0 <= b->0 <==> byte_len(text.take(a->0)) <= byte_len(
            text.take(b->0),
        )),
        least(a, b) matches Some(z) ==> 0 <= z <= text.len(),
{
    if a is Some && b is Some {
        let x = a->0;
        let y = b->0;
        if x <= y {
            lemma_byte_len_take(text, x, y);
        } else {
            lemma_byte_len_take(text, y, x);
        }
    }
}

/// Skipping breaks that come too early does not change which one is first.
proof fn lemma_first_break_skip(breaks: Seq<(usize, bool)>, text: Seq<char>, from: int, j: int)
    requires
        0 <= j <= breaks.len(),
        forall|i: int|
            0 <= i < j ==> !((#[trigger] breaks[i]).0 >= from && is_boundary(
                text,
                breaks[i].0 as int,
            )),
    ensures
        first_break_from(breaks, text, from) == first_break_from(breaks.skip(j), text, from),
    decreases j,
{
    if j == 0 {
        assert(breaks.skip(0) =~= breaks);
    } else {
        let rest = breaks.drop_first();
        assert(!(breaks[0].0 >= from && is_boundary(text, breaks[0].0 as int)));
        assert(forall|i: int| 0 <= i < j - 1 ==> rest[i] == breaks[i + 1]);
        lemma_first_break_skip(rest, text, from, j - 1);
        assert(rest.skip(j - 1) =~= breaks.skip(j));
    }
}

/// Checks if the text contains a URL.
pub fn contains_url(text: &str) -> (b: bool)
    ensures
        b == has_url_marker(text@),
{
    find_str(text, "https://").is_some() || find_str(text, "http://").is_some() || find_str(
        text,
        "ftp://",
    ).is_some() || find_str(text, "file://").is_some()
}

/// The first of `breaks` that cuts `text` at byte position `from` or behind
/// it.
pub fn first_break_at_or_after(
    text: &str,
    breaks: &Vec<(usize, bool)>,
    from: usize,
) -> (found: Option<usize>)
    ensures
        found == first_break_from(breaks@, text@, from as int),
        found matches Some(pos) ==> pos >= from && is_boundary(text@, pos as int),
{
    for j in 0..breaks.len()
        invariant
            forall|i: int|
                0 <= i < j ==> !((#[trigger] breaks@[i]).0 >= from && is_boundary(
                    text@,
                    breaks@[i].0 as int,
                )),
    {
        let (pos, _) = breaks[j];
        if pos >= from && at_boundary(text, pos) {
            proof {
                lemma_first_break_skip(breaks@, text@, from as int, j as int);
            }
            return Some(pos);
        }
    }
    proof {
        lemma_first_break_skip(breaks@, text@, from as int, breaks@.len() as int);
    }
    None
}

/// The earlier of two byte positions, of which either may be missing.
fn earlier(a: Option<usize>, b: Option<usize>) -> (first: Option<usize>)
    ensures
        first == (match (a, b) {
            (Some(x), Some(y)) => Some(
                if x <= y {
                    x
                } else {
                    y
                },
            ),
            (Some(x), None) => Some(x),
            (None, _) => b,
        }),
{
    match (a, b) {
        (Some(x), Some(y)) => Some(
            if x <= y {
                x
            } else {
                y
            },
        ),
        (Some(x), None) => Some(x),
        (None, _) => b,
    }
}

/// The byte position at which `marker` first stands in `s`.
fn find_marker(s: &str, marker: &str) -> (found: Option<usize>)
    ensures
        match found {
            Some(pos) => first_of(s@, marker@) matches Some(k) && 0 <= k <= s@.len() && pos
                == byte_len(s@.take(k)),
            None => first_of(s@, marker@) is None,
        },
{
    proof {
        lemma_first_of(s@, marker@);
    }
    find_str(s, marker)
}

/// The byte position at which the first URL of `s` starts.
pub fn find_url(s: &str) -> (found: Option<usize>)
    ensures
        match found {
            Some(pos) => has_url_marker(s@) && pos == url_start_byte(s@),
            None => !has_url_marker(s@),
        },
{
    let https = find_marker(s, "https://");
    let http = find_marker(s, "http://");
    let ftp = find_marker(s, "ftp://");
    let file = find_marker(s, "file://");
    proof {
        lemma_url_start(s@);
        let a = first_of(s@, "https://"@);
        let b = first_of(s@, "http://"@);
        let c = first_of(s@, "ftp://"@);
        let d = first_of(s@, "file://"@);
        lemma_positions_in_order(s@, a, b);
        lemma_positions_in_order(s@, c, d);
        lemma_positions_in_order(s@, least(a, b), least(c, d));
    }
    earlier(earlier(https, http), earlier(ftp, file))
}

/// Finds the first URL of `s`: the byte position at which it starts, and the
/// next break opportunity behind it.
pub fn first_url(s: &str) -> (found: Option<(usize, usize)>)
    ensures
        match found {
            Some((start, safe)) => {
                &&& has_url_marker(s@)
                &&& start == url_start_byte(s@)
                &&& safe_break_of(s@) == Some(safe)
                &&& is_boundary(s@, safe as int)
                &&& start <= url_end_byte(s@) <= safe <= byte_len(s@)
            },
            None => !has_url_marker(s@) && safe_break_of(s@) is None,
        },
{
    let start = match find_url(s) {
        Some(start) => start,
        None => {
            return None;
        },
    };
    let len = byte_length(s);
    let ghost k = url_start(s@)->0;
    proof {
        lemma_url_start(s@);
        lemma_safe_break(s@);
        assert(s@ =~= s@.take(k) + s@.skip(k));
        lemma_cut_concat(s@.take(k), s@.skip(k));
    }
    // There is no white space in a URL: the text may be broken at the first
    // white space behind it, or at its end.
    let (_, rest) = cut(s, start);
    let safe = match find_white_space(rest) {
        Some(pos) => {
            proof {
                let w = white_space_index(rest@);
                assert(s@.subrange(k, k + w) =~= rest@.take(w));
                lemma_byte_len_take(s@, k, k + w);
            }
            let breaks = line_breaks(s);
            match first_break_at_or_after(s, &breaks, start + pos) {
                Some(safe) => safe,
                None => len,
            }
        },
        None => len,
    };
    Some((start, safe))
}

/// Finds the next break opportunity after a URL if it exists.
///
/// Where the text holds a URL, the result cuts the text behind the whole of
/// the first one: at the first break opportunity at or behind the white
/// space that ends it, or at the end of the text.
pub fn safe_break_after_url(s: &str) -> (found: Option<usize>)
    ensures
        found == safe_break_of(s@),
        found is Some <==> has_url_marker(s@),
        found matches Some(pos) ==> is_boundary(s@, pos as int) && url_start_byte(s@)
            <= url_end_byte(s@) <= pos <= byte_len(s@),
{
    match first_url(s) {
        Some((_, safe)) => Some(safe),
        None => None,
    }
}

} // verus!
