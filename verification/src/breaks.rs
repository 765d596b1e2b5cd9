//! Where a line may end.
//!
//! The scanner keeps those break opportunities of the Unicode line breaking
//! algorithm that leave a line within its budget. Where it keeps none, the
//! finder offers the places behind punctuation.

use vstd::prelude::*;

use crate::chars::is_white_space;
use crate::text::{
    at_boundary, byte_len, byte_length, cut, ends_in_escape, ends_with_escape, head_at,
    is_boundary, last_char, slice, slice_between,
};
use crate::unicode::{
    char_is_dash_punctuation, char_is_other_punctuation, char_is_space_separator, display_width,
    display_width_of, grapheme_starts, grapheme_starts_of, is_dash_punctuation,
    is_other_punctuation, is_space_separator, line_breaks, line_breaks_of,
};

verus! {

/// How strongly a break opportunity asks for a break.
#[derive(Clone, Copy, Debug, PartialEq, Eq, Structural)]
pub enum BreakKind {
    /// The line has to end here.
    Mandatory,
    /// The line may end here.
    Allowed,
}

/// The kind of a break opportunity that is, or is not, mandatory.
pub open spec fn kind_of(mandatory: bool) -> BreakKind {
    if mandatory {
        BreakKind::Mandatory
    } else {
        BreakKind::Allowed
    }
}

/// Whether a line of `width` columns is within a budget of `max_graphemes`.
/// A line that is one column over still is where that column is a space
/// that will be trimmed.
pub open spec fn within_budget(
    width: usize,
    max_graphemes: usize,
    trim_end: bool,
    ends_in_space: bool,
) -> bool {
    width <= max_graphemes || (width == max_graphemes + 1 && trim_end && ends_in_space)
}

/// Whether the scanner keeps a break at byte position `pos` of `text`: the
/// position cuts the text behind at least one character, the line before it
/// ends neither in a backslash that is not escaped nor in a dash, and that
/// line is within the budget.
pub open spec fn accepts_break(
    text: Seq<char>,
    pos: usize,
    max_graphemes: usize,
    trim_end: bool,
) -> bool {
    let line = head_at(text, pos as int);
    &&& 0 < pos
    &&& is_boundary(text, pos as int)
    &&& !ends_with_escape(line)
    &&& !is_dash_punctuation(line.last())
    &&& within_budget(
        display_width_of(line),
        max_graphemes,
        trim_end,
        is_space_separator(line.last()),
    )
}

/// The break opportunities that the scanner keeps, in text order.
pub open spec fn break_opportunities(
    text: Seq<char>,
    max_graphemes: usize,
    trim_end: bool,
) -> Seq<(usize, BreakKind)> {
    line_breaks_of(text).filter(
        |b: (usize, bool)| accepts_break(text, b.0, max_graphemes, trim_end),
    ).map_values(|b: (usize, bool)| (b.0, kind_of(b.1)))
}

/// Whether every character of `grapheme` is in the category "Punctuation,
/// Other".
pub open spec fn is_punctuation_text(grapheme: Seq<char>) -> bool {
    forall|i: int| 0 <= i < grapheme.len() ==> is_other_punctuation(#[trigger] grapheme[i])
}

/// Whether every character of `grapheme` is white space.
pub open spec fn is_white_space_text(grapheme: Seq<char>) -> bool {
    forall|i: int| 0 <= i < grapheme.len() ==> is_white_space(#[trigger] grapheme[i])
}

/// The byte position at which grapheme `k` of `text` ends, given where the
/// graphemes start: the start of the next one, or the end of the text.
pub open spec fn grapheme_end(text: Seq<char>, starts: Seq<usize>, k: int) -> int {
    if k + 1 < starts.len() {
        starts[k + 1] as int
    } else {
        byte_len(text) as int
    }
}

/// Whether grapheme `k` is a part of `text` that is not empty.
pub open spec fn is_grapheme(text: Seq<char>, starts: Seq<usize>, k: int) -> bool {
    &&& 0 <= k < starts.len()
    &&& starts[k] < grapheme_end(text, starts, k)
    &&& is_boundary(text, starts[k] as int)
    &&& is_boundary(text, grapheme_end(text, starts, k))
}

/// The characters of grapheme `k` of `text`.
pub open spec fn grapheme_at(text: Seq<char>, starts: Seq<usize>, k: int) -> Seq<char> {
    slice_between(text, starts[k] as int, grapheme_end(text, starts, k))
}

/// Whether the finder offers a break between the graphemes `k` and `k + 1`
/// of `text`: the first is punctuation, the second is not, the second is not
/// white space unless white space is trimmed, and the line up to the break
/// is within the budget.
pub open spec fn is_punctuation_break(
    text: Seq<char>,
    starts: Seq<usize>,
    k: int,
    max_graphemes: usize,
    trim_end: bool,
) -> bool {
    &&& is_grapheme(text, starts, k)
    &&& is_grapheme(text, starts, k + 1)
    &&& is_punctuation_text(grapheme_at(text, starts, k))
    &&& (trim_end || !is_white_space_text(grapheme_at(text, starts, k + 1)))
    &&& !is_punctuation_text(grapheme_at(text, starts, k + 1))
    &&& display_width_of(head_at(text, starts[k + 1] as int)) <= max_graphemes
}

/// The byte positions that the finder offers, in text order.
pub open spec fn punctuation_breaks(
    text: Seq<char>,
    max_graphemes: usize,
    trim_end: bool,
) -> Seq<usize> {
    let starts = grapheme_starts_of(text);
    Seq::new(starts.len(), |k: int| k).filter(
        |k: int| is_punctuation_break(text, starts, k, max_graphemes, trim_end),
    ).map_values(|k: int| starts[k + 1])
}

/// Whether the finder offers a break at byte position `pos` of `text`.
pub open spec fn offers_break(
    text: Seq<char>,
    pos: usize,
    max_graphemes: usize,
    trim_end: bool,
) -> bool {
    exists|k: int|
        is_punctuation_break(text, grapheme_starts_of(text), k, max_graphemes, trim_end)
            && grapheme_starts_of(text)[k + 1] == pos
}

/// Filtering a sequence that was extended by one element.
pub proof fn lemma_filter_push<A>(s: Seq<A>, x: A, pred: spec_fn(A) -> bool)
    ensures
        s.push(x).filter(pred) == (if pred(x) {
            s.filter(pred).push(x)
        } else {
            s.filter(pred)
        }),
{
    reveal(Seq::filter);
    assert(s.push(x).drop_last() =~= s);
}

/// What is left after filtering passes the filter.
pub proof fn lemma_filter_holds<A>(s: Seq<A>, pred: spec_fn(A) -> bool, i: int)
    requires
        0 <= i < s.filter(pred).len(),
    ensures
        pred(s.filter(pred)[i]),
    decreases s.len(),
{
    reveal(Seq::filter);
    if s.len() > 0 {
        let before = s.drop_last().filter(pred);
        if i < before.len() {
            lemma_filter_holds(s.drop_last(), pred, i);
        }
    }
}

/// Every break that the scanner keeps is one that it accepts.
pub proof fn lemma_scanner_accepts(text: Seq<char>, max_graphemes: usize, trim_end: bool, i: int)
    requires
        0 <= i < break_opportunities(text, max_graphemes, trim_end).len(),
    ensures
        accepts_break(
            text,
            break_opportunities(text, max_graphemes, trim_end)[i].0,
            max_graphemes,
            trim_end,
        ),
{
    let pred = |b: (usize, bool)| accepts_break(text, b.0, max_graphemes, trim_end);
    lemma_filter_holds(line_breaks_of(text), pred, i);
}

/// Every place that the finder hands out is one that it offers.
pub proof fn lemma_finder_offers(text: Seq<char>, max_graphemes: usize, trim_end: bool, i: int)
    requires
        0 <= i < punctuation_breaks(text, max_graphemes, trim_end).len(),
    ensures
        offers_break(
            text,
            punctuation_breaks(text, max_graphemes, trim_end)[i],
            max_graphemes,
            trim_end,
        ),
{
    let starts = grapheme_starts_of(text);
    let pred = |k: int| is_punctuation_break(text, starts, k, max_graphemes, trim_end);
    let pairs = Seq::new(starts.len(), |k: int| k);
    lemma_filter_holds(pairs, pred, i);
    let k = pairs.filter(pred)[i];
    assert(is_punctuation_break(text, starts, k, max_graphemes, trim_end));
}

/// Checks if the grapheme is made of characters of the Unicode category
/// "Punctuation, Other" (Po).
pub fn is_punctuation(grapheme: &str) -> (b: bool)
    ensures
        b == is_punctuation_text(grapheme@),
{
    broadcast use vstd::string::group_string_axioms;

    let mut all = true;
    for c in chars: grapheme.chars()
        invariant
            chars.seq() == grapheme@,
            all == (forall|i: int|
                0 <= i < chars.index() ==> is_other_punctuation(#[trigger] grapheme@[i])),
    {
        if !char_is_other_punctuation(c) {
            all = false;
        }
    }
    all
}

/// Checks if the grapheme is made of white space.
pub fn is_whitespace(grapheme: &str) -> (b: bool)
    ensures
        b == is_white_space_text(grapheme@),
{
    broadcast use vstd::string::group_string_axioms;

    let mut all = true;
    for c in chars: grapheme.chars()
        invariant
            chars.seq() == grapheme@,
            all == (forall|i: int|
                0 <= i < chars.index() ==> is_white_space(#[trigger] grapheme@[i])),
    {
        if !c.is_whitespace() {
            all = false;
        }
    }
    all
}

/// Whether a line of `width` columns is within a budget of `max_graphemes`.
pub fn fits_budget(
    width: usize,
    max_graphemes: usize,
    trim_end: bool,
    ends_in_space: bool,
) -> (b: bool)
    ensures
        b == within_budget(width, max_graphemes, trim_end, ends_in_space),
{
    if width <= max_graphemes {
        true
    } else {
        width - 1 == max_graphemes && trim_end && ends_in_space
    }
}

/// Whether the scanner keeps a break at byte position `pos` of `text`.
pub fn is_break_accepted(text: &str, pos: usize, max_graphemes: usize, trim_end: bool) -> (b: bool)
    ensures
        b == accepts_break(text@, pos, max_graphemes, trim_end),
{
    if pos == 0 || !at_boundary(text, pos) {
        return false;
    }
    let (line, _) = cut(text, pos);
    match last_char(line) {
        Some(last) => {
            // Behind a backslash that is not escaped, the break would tear an
            // escape sequence.
            if ends_in_escape(line) || char_is_dash_punctuation(last) {
                return false;
            }
            fits_budget(
                display_width(line),
                max_graphemes,
                trim_end,
                char_is_space_separator(last),
            )
        },
        None => {
            assert(byte_len(line@) == 0);
            false
        },
    }
}

/// Follows the Unicode line breaking algorithm to find the byte positions
/// at which `text` can be broken, and keeps those that leave the line before
/// them within `max_graphemes` columns.
pub fn line_break_opportunities(
    text: &str,
    max_graphemes: usize,
    trim_end: bool,
) -> (kept: Vec<(usize, BreakKind)>)
    ensures
        kept@ == break_opportunities(text@, max_graphemes, trim_end),
        forall|i: int|
            0 <= i < kept@.len() ==> accepts_break(
                text@,
                (#[trigger] kept@[i]).0,
                max_graphemes,
                trim_end,
            ),
{
    let all = line_breaks(text);
    let mut kept: Vec<(usize, BreakKind)> = Vec::new();
    let ghost pred = |b: (usize, bool)| accepts_break(text@, b.0, max_graphemes, trim_end);
    let ghost kind = |b: (usize, bool)| (b.0, kind_of(b.1));
    proof {
        reveal(Seq::filter);
        assert(all@.take(0).filter(pred).map_values(kind) =~= kept@);
    }
    for j in 0..all.len()
        invariant
            all@ == line_breaks_of(text@),
            pred == |b: (usize, bool)| accepts_break(text@, b.0, max_graphemes, trim_end),
            kind == |b: (usize, bool)| (b.0, kind_of(b.1)),
            kept@ == all@.take(j as int).filter(pred).map_values(kind),
            forall|i: int|
                0 <= i < kept@.len() ==> accepts_break(
                    text@,
                    (#[trigger] kept@[i]).0,
                    max_graphemes,
                    trim_end,
                ),
    {
        let (pos, mandatory) = all[j];
        proof {
            assert(all@.take(j + 1) =~= all@.take(j as int).push(all@[j as int]));
            lemma_filter_push(all@.take(j as int), all@[j as int], pred);
        }
        if is_break_accepted(text, pos, max_graphemes, trim_end) {
            let found = if mandatory {
                BreakKind::Mandatory
            } else {
                BreakKind::Allowed
            };
            proof {
                let before = all@.take(j as int).filter(pred);
                assert(before.push(all@[j as int]).map_values(kind) =~= before.map_values(
                    kind,
                ).push((pos, found)));
            }
            kept.push((pos, found));
        }
    }
    proof {
        assert(all@.take(all@.len() as int) =~= all@);
    }
    kept
}

/// Whether the bytes of `text` from `from` up to `to` are a part of it that
/// is not empty.
fn is_part(text: &str, from: usize, to: usize) -> (b: bool)
    ensures
        b == (from < to && is_boundary(text@, from as int) && is_boundary(text@, to as int)),
{
    from < to && at_boundary(text, from) && at_boundary(text, to)
}

/// Whether the finder offers a break between the graphemes `k` and `k + 1`
/// of `text`, which start at `starts`.
pub fn is_punctuation_break_at(
    text: &str,
    starts: &Vec<usize>,
    k: usize,
    max_graphemes: usize,
    trim_end: bool,
) -> (b: bool)
    ensures
        b == is_punctuation_break(text@, starts@, k as int, max_graphemes, trim_end),
{
    let count = starts.len();
    if count < 2 || k >= count - 1 {
        return false;
    }
    let start = starts[k];
    let middle = starts[k + 1];
    let end = if k + 1 < count - 1 {
        starts[k + 2]
    } else {
        byte_length(text)
    };
    if !is_part(text, start, middle) || !is_part(text, middle, end) {
        return false;
    }
    let current = slice(text, start, middle);
    let next = slice(text, middle, end);
    if !is_punctuation(current) || (!trim_end && is_whitespace(next)) || is_punctuation(next) {
        return false;
    }
    let (line, _) = cut(text, middle);
    display_width(line) <= max_graphemes
}

/// Finds the places behind a grapheme in the category "Punctuation, Other"
/// at which `text` can be broken as well, as byte positions.
pub fn alternative_punctuation_breaks(
    text: &str,
    max_graphemes: usize,
    trim_end: bool,
) -> (found: Vec<usize>)
    ensures
        found@ == punctuation_breaks(text@, max_graphemes, trim_end),
        forall|i: int|
            0 <= i < found@.len() ==> offers_break(
                text@,
                #[trigger] found@[i],
                max_graphemes,
                trim_end,
            ),
{
    let starts = grapheme_starts(text);
    let mut found: Vec<usize> = Vec::new();
    let ghost pred = |k: int| is_punctuation_break(text@, starts@, k, max_graphemes, trim_end);
    let ghost position = |k: int| starts@[k + 1];
    let ghost pairs = Seq::new(starts@.len(), |k: int| k);
    proof {
        reveal(Seq::filter);
        assert(pairs.take(0).filter(pred).map_values(position) =~= found@);
    }
    for k in 0..starts.len()
        invariant
            starts@ == grapheme_starts_of(text@),
            pairs == Seq::new(starts@.len(), |k: int| k),
            pred == |k: int| is_punctuation_break(text@, starts@, k, max_graphemes, trim_end),
            position == |k: int| starts@[k + 1],
            found@ == pairs.take(k as int).filter(pred).map_values(position),
            forall|i: int|
                0 <= i < found@.len() ==> offers_break(
                    text@,
                    #[trigger] found@[i],
                    max_graphemes,
                    trim_end,
                ),
    {
        proof {
            assert(pairs.take(k + 1) =~= pairs.take(k as int).push(k as int));
            lemma_filter_push(pairs.take(k as int), k as int, pred);
        }
        if is_punctuation_break_at(text, &starts, k, max_graphemes, trim_end) {
            proof {
                let before = pairs.take(k as int).filter(pred);
                assert(before.push(k as int).map_values(position) =~= before.map_values(
                    position,
                ).push(starts@[k + 1]));
                assert(offers_break(text@, starts@[k + 1], max_graphemes, trim_end));
            }
            found.push(starts[k + 1]);
        }
    }
    proof {
        assert(pairs.take(pairs.len() as int) =~= pairs);
    }
    found
}

} // verus!
