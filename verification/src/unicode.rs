//! The Unicode data this library relies on: break opportunities, grapheme
//! clusters, displayed width and character categories.
//!
//! Nothing in this module is proved. Every function is a single call into the
//! crate that owns the data. Where the data is a short table, the contract
//! states it; otherwise it gives the call's result a name.

use unicode_categories::UnicodeCategories;
use unicode_linebreak::BreakOpportunity;
use unicode_segmentation::UnicodeSegmentation;
use unicode_width::UnicodeWidthStr;
use vstd::prelude::*;

verus! {

/// The break opportunities of `text` in text order: for each, the byte index
/// of the character that follows the break, and whether the break is
/// mandatory.
pub uninterp spec fn line_breaks_of(text: Seq<char>) -> Seq<(usize, bool)>;

/// The byte index at which each extended grapheme cluster of `text` starts,
/// in text order.
pub uninterp spec fn grapheme_starts_of(text: Seq<char>) -> Seq<usize>;

/// The number of columns that `text` takes when displayed.
pub uninterp spec fn display_width_of(text: Seq<char>) -> usize;

/// Whether `c` is in the Unicode category "Punctuation, Other" (Po).
pub uninterp spec fn is_other_punctuation(c: char) -> bool;

/// Whether `c` is in the Unicode category "Punctuation, Dash" (Pd): one of
/// the 24 characters of the table that `unicode_categories` holds for it.
pub open spec fn is_dash_punctuation(c: char) -> bool {
    ||| c == '\u{2d}'
    ||| c == '\u{58a}'
    ||| c == '\u{5be}'
    ||| c == '\u{1400}'
    ||| c == '\u{1806}'
    ||| '\u{2010}' <= c <= '\u{2015}'
    ||| c == '\u{2e17}'
    ||| c == '\u{2e1a}'
    ||| c == '\u{2e3a}'
    ||| c == '\u{2e3b}'
    ||| c == '\u{2e40}'
    ||| c == '\u{301c}'
    ||| c == '\u{3030}'
    ||| c == '\u{30a0}'
    ||| c == '\u{fe31}'
    ||| c == '\u{fe32}'
    ||| c == '\u{fe58}'
    ||| c == '\u{fe63}'
    ||| c == '\u{ff0d}'
}

/// Whether `c` is in the Unicode category "Separator, Space" (Zs): one of
/// the 17 characters of the table that `unicode_categories` holds for it.
pub open spec fn is_space_separator(c: char) -> bool {
    ||| c == '\u{20}'
    ||| c == '\u{a0}'
    ||| c == '\u{1680}'
    ||| '\u{2000}' <= c <= '\u{200a}'
    ||| c == '\u{202f}'
    ||| c == '\u{205f}'
    ||| c == '\u{3000}'
}

/// `unicode_linebreak::linebreaks`, collected. The contract only names what
/// the iterator yields; nothing is claimed about where the breaks lie.
#[verifier::external_body]
pub(crate) fn line_breaks(text: &str) -> (breaks: Vec<(usize, bool)>)
    ensures
        breaks@ == line_breaks_of(text@),
{
    unicode_linebreak::linebreaks(text)
        .map(|(index, kind)| match kind {
            BreakOpportunity::Mandatory => (index, true),
            BreakOpportunity::Allowed => (index, false),
        })
        .collect()
}

/// `UnicodeSegmentation::grapheme_indices` for extended clusters, keeping the
/// byte index of each cluster. The contract only names the indices.
#[verifier::external_body]
pub(crate) fn grapheme_starts(text: &str) -> (starts: Vec<usize>)
    ensures
        starts@ == grapheme_starts_of(text@),
{
    UnicodeSegmentation::grapheme_indices(text, true).map(|(index, _)| index).collect()
}

/// `UnicodeWidthStr::width`. The contract only names the width.
#[verifier::external_body]
pub(crate) fn display_width(text: &str) -> (width: usize)
    ensures
        width == display_width_of(text@),
{
    UnicodeWidthStr::width(text)
}

/// `UnicodeCategories::is_punctuation_other`, a table lookup. The table has
/// several hundred characters, so the contract only names the answer.
#[verifier::external_body]
pub(crate) fn char_is_other_punctuation(c: char) -> (b: bool)
    ensures
        b == is_other_punctuation(c),
{
    UnicodeCategories::is_punctuation_other(c)
}

/// `UnicodeCategories::is_punctuation_dash`, a binary search in a sorted
/// table of 24 characters, which the contract lists.
#[verifier::external_body]
pub(crate) fn char_is_dash_punctuation(c: char) -> (b: bool)
    ensures
        b == is_dash_punctuation(c),
{
    UnicodeCategories::is_punctuation_dash(c)
}

/// `UnicodeCategories::is_separator_space`, a binary search in a sorted
/// table of 17 characters, which the contract lists.
#[verifier::external_body]
pub(crate) fn char_is_space_separator(c: char) -> (b: bool)
    ensures
        b == is_space_separator(c),
{
    UnicodeCategories::is_separator_space(c)
}

} // verus!
