//! Takes a text apart, one line at a time.

use vstd::prelude::*;

use crate::breaks::{
    alternative_punctuation_breaks, break_opportunities, line_break_opportunities,
    punctuation_breaks, BreakKind,
};
use crate::format::StringFormat;
use crate::text::{
    byte_len, byte_length, cut, ends_with, head_at, is_boundary, last_char, lemma_cut,
    lemma_ends_are_boundaries, lemma_nested_tail, tail_at, trim_end, trim_end_of,
};
use crate::url::{
    contains_url, first_url, has_url_marker, lemma_url_marker_in_tail, safe_break_of,
    url_start_byte,
};

verus! {

/// What a step of the splitter hands out: a line, and how the text went on
/// behind it.
pub enum Snippet {
    /// The line is the rest of the text.
    EndOfInput(Seq<char>),
    /// The text was broken behind the line. The number is how many bytes of
    /// the text have been read up to the break.
    LineEnd(Seq<char>, usize),
    /// The line ends with a line feed of the text itself.
    EndWithLineFeed(Seq<char>, usize),
    /// The line ended with a line feed of the text itself, which was trimmed
    /// off it together with the white space before it.
    RemovedSignificantLineFeed(Seq<char>, usize),
}

impl Snippet {
    /// The line that was handed out.
    pub open spec fn line(self) -> Seq<char> {
        match self {
            Snippet::EndOfInput(line) => line,
            Snippet::LineEnd(line, _) => line,
            Snippet::EndWithLineFeed(line, _) => line,
            Snippet::RemovedSignificantLineFeed(line, _) => line,
        }
    }
}

/// Result of breaking a string so it fits in a line and the state it ended
/// in. The state informs about what to do with the snippet and how to
/// continue the breaking process.
#[derive(Debug, PartialEq)]
pub enum SnippetState<'a> {
    /// The input could not be broken and so rewriting the string is
    /// finished.
    EndOfInput(&'a str),
    /// The input could be broken and the returned snippet should be ended
    /// with the format's `line_end`. The next snippet needs to be indented.
    ///
    /// The number is the length that got read in the text being rewritten.
    /// It may be greater than the length of the returned string if trailing
    /// white space got trimmed.
    LineEnd(&'a str, usize),
    /// The input could be broken but a line feed is present that cannot be
    /// trimmed. The next snippet could use more width than what is given by
    /// the shape.
    EndWithLineFeed(&'a str, usize),
    /// As `EndWithLineFeed`, but the line feed and the white space before it
    /// were trimmed off the returned string.
    RemovedSignificantLineFeed(&'a str, usize),
}

impl<'a> View for SnippetState<'a> {
    type V = Snippet;

    open spec fn view(&self) -> Snippet {
        match *self {
            SnippetState::EndOfInput(line) => Snippet::EndOfInput(line@),
            SnippetState::LineEnd(line, read) => Snippet::LineEnd(line@, read),
            SnippetState::EndWithLineFeed(line, read) => Snippet::EndWithLineFeed(line@, read),
            SnippetState::RemovedSignificantLineFeed(line, read) => {
                Snippet::RemovedSignificantLineFeed(line@, read)
            },
        }
    }
}

/// The position of the first mandatory break among `breaks`.
pub open spec fn first_mandatory(breaks: Seq<(usize, BreakKind)>) -> Option<usize>
    decreases breaks.len(),
{
    if breaks.len() == 0 {
        None
    } else if breaks[0].1 == BreakKind::Mandatory {
        Some(breaks[0].0)
    } else {
        first_mandatory(breaks.drop_first())
    }
}

/// The break that is taken from what the scanner kept: the first mandatory
/// one, whatever comes before it; where there is none, the last one, so that
/// the line takes as much as fits. `None` where the scanner kept nothing
/// behind the start of the text.
pub open spec fn scanner_choice(breaks: Seq<(usize, BreakKind)>) -> Option<usize> {
    match first_mandatory(breaks) {
        Some(pos) => Some(pos),
        None => if breaks.len() > 0 && breaks.last().0 != 0 {
            Some(breaks.last().0)
        } else {
            None
        },
    }
}

/// The break that is taken where the scanner offers none: the last of the
/// finder's, or else the end of the text.
pub open spec fn fallback_choice(punctuation: Seq<usize>, len: usize) -> usize {
    if punctuation.len() > 0 {
        punctuation.last()
    } else {
        len
    }
}

/// The splitter as a value: the text that is left, and the budgets.
pub struct Cursor {
    /// The text that has not been handed out.
    pub text: Seq<char>,
    /// How many bytes have been handed out.
    pub offset: usize,
    /// The budget of the next line.
    pub max_graphemes: usize,
    /// The budget of a line that is indented.
    pub max_graphemes_with_indent: usize,
    /// The budget of a line that starts at the left edge.
    pub max_graphemes_without_indent: usize,
    /// The budget of a line that follows a break.
    pub newline_max_graphemes: usize,
    /// Whether a line may start without the format's `line_start`.
    pub is_bareline_ok: bool,
    /// Whether white space at the end of a line is dropped.
    pub trim_end: bool,
    /// Whether the text that is left may hold a URL.
    pub contains_url: bool,
}

impl Cursor {
    /// What holds of every splitter: the bytes handed out and the bytes left
    /// can be counted together, and a URL in the text that is left has not
    /// gone unnoticed.
    pub open spec fn well_formed(self) -> bool {
        &&& self.offset + byte_len(self.text) <= usize::MAX
        &&& has_url_marker(self.text) ==> self.contains_url
    }

    /// The splitter at the start of `text`, laid out by `format`. `None`
    /// where the format leaves no room for text.
    pub open spec fn from_format(
        text: Seq<char>,
        format: StringFormat,
        newline_max_graphemes: usize,
    ) -> Option<Cursor> {
        match (format.budget_with_indent(), format.budget_without_indent()) {
            (Some(with_indent), Some(without_indent)) => Some(
                Cursor {
                    text,
                    offset: 0,
                    max_graphemes: with_indent,
                    max_graphemes_with_indent: with_indent,
                    max_graphemes_without_indent: without_indent,
                    newline_max_graphemes,
                    is_bareline_ok: is_bareline(format.line_start@),
                    trim_end: format.trim_end,
                    contains_url: has_url_marker(text),
                },
            ),
            _ => None,
        }
    }

    /// Whether a cut at `split_index` passes the first URL of the text: it
    /// lies behind the first byte of the URL.
    pub open spec fn passes_url(self, split_index: usize) -> bool {
        &&& self.contains_url
        &&& safe_break_of(self.text) is Some
        &&& url_start_byte(self.text) < split_index
    }

    /// Whether a break at `split_index` would fall inside the first URL of
    /// the text: behind the first byte of the URL, and before the safe
    /// break behind it.
    pub open spec fn breaks_url(self, split_index: usize) -> bool {
        self.passes_url(split_index) && split_index < safe_break_of(self.text)->0
    }

    /// Where the text is cut when a break at `split_index` is asked for: at
    /// `split_index`, or, where that would fall inside the first URL of the
    /// text, at the safe break behind that URL.
    pub open spec fn guarded_index(self, split_index: usize) -> usize {
        if self.breaks_url(split_index) {
            safe_break_of(self.text)->0
        } else {
            split_index
        }
    }

    /// Whether the text that is left behind the cut may hold a URL. Once the
    /// cut has passed the first URL, moved or not, this is whether the text
    /// behind the safe break of that URL holds a marker. A cut at the first
    /// byte of the URL or before it leaves the answer as it was.
    pub open spec fn url_after(self, split_index: usize) -> bool {
        if self.passes_url(split_index) {
            has_url_marker(tail_at(self.text, safe_break_of(self.text)->0 as int))
        } else {
            self.contains_url
        }
    }

    /// The budget of the line behind a line feed of the text.
    pub open spec fn budget_after_line_feed(self) -> usize {
        if self.is_bareline_ok {
            self.max_graphemes_without_indent
        } else {
            self.max_graphemes_with_indent
        }
    }

    /// The line that a break at `split_index` hands out, and the splitter
    /// behind it.
    pub open spec fn update(self, split_index: usize) -> (Snippet, Cursor) {
        let index = self.guarded_index(split_index);
        let consumed = head_at(self.text, index as int);
        let remainder = tail_at(self.text, index as int);
        let offset = (self.offset + index) as usize;
        let moved = Cursor {
            text: remainder,
            offset,
            contains_url: self.url_after(split_index),
            ..self
        };
        if ends_with(consumed, '\n') {
            if remainder.len() == 0 {
                (Snippet::EndOfInput(consumed), moved)
            } else if self.trim_end {
                (
                    Snippet::RemovedSignificantLineFeed(trim_end_of(consumed), offset),
                    Cursor { max_graphemes: self.budget_after_line_feed(), ..moved },
                )
            } else {
                (
                    Snippet::EndWithLineFeed(consumed, offset),
                    Cursor { max_graphemes: self.budget_after_line_feed(), ..moved },
                )
            }
        } else {
            let line = if self.trim_end {
                trim_end_of(consumed)
            } else {
                consumed
            };
            if remainder.len() == 0 {
                (Snippet::EndOfInput(line), moved)
            } else {
                (
                    Snippet::LineEnd(line, offset),
                    Cursor { max_graphemes: self.newline_max_graphemes, ..moved },
                )
            }
        }
    }

    /// Where the next line ends, before URLs are looked at.
    pub open spec fn break_index(self) -> usize {
        match scanner_choice(break_opportunities(self.text, self.max_graphemes, self.trim_end)) {
            Some(pos) => pos,
            None => fallback_choice(
                punctuation_breaks(self.text, self.max_graphemes, self.trim_end),
                byte_len(self.text) as usize,
            ),
        }
    }

    /// The next line, and the splitter behind it.
    pub open spec fn step(self) -> (Snippet, Cursor) {
        self.update(self.break_index())
    }

    /// The lines that the splitter hands out until nothing is left, in
    /// order.
    pub open spec fn snippets(self) -> Seq<Snippet>
        decreases byte_len(self.text),
    {
        if self.text.len() == 0 {
            Seq::empty()
        } else {
            let (line, next) = self.step();
            if byte_len(next.text) < byte_len(self.text) {
                seq![line] + next.snippets()
            } else {
                seq![line]
            }
        }
    }
}

/// Whether lines may start without the format's `line_start`: it is empty or
/// white space only.
pub open spec fn is_bareline(line_start: Seq<char>) -> bool {
    crate::breaks::is_white_space_text(line_start)
}

/// Walks over a text and hands it out line by line.
///
/// Mandatory and allowed break opportunities come from the Unicode line
/// breaking algorithm. Further ones are found behind punctuation.
pub struct StringSplitter<'a> {
    text: &'a str,
    offset: usize,
    max_graphemes: usize,
    max_graphemes_with_indent: usize,
    max_graphemes_without_indent: usize,
    newline_max_graphemes: usize,
    is_bareline_ok: bool,
    trim_end: bool,
    contains_url: bool,
}

impl<'a> View for StringSplitter<'a> {
    type V = Cursor;

    closed spec fn view(&self) -> Cursor {
        Cursor {
            text: self.text@,
            offset: self.offset,
            max_graphemes: self.max_graphemes,
            max_graphemes_with_indent: self.max_graphemes_with_indent,
            max_graphemes_without_indent: self.max_graphemes_without_indent,
            newline_max_graphemes: self.newline_max_graphemes,
            is_bareline_ok: self.is_bareline_ok,
            trim_end: self.trim_end,
            contains_url: self.contains_url,
        }
    }
}

/// The break that is taken from what the scanner kept is one of them.
pub proof fn lemma_scanner_choice_is_kept(breaks: Seq<(usize, BreakKind)>) -> (j: int)
    requires
        scanner_choice(breaks) is Some,
    ensures
        0 <= j < breaks.len(),
        breaks[j].0 == scanner_choice(breaks)->0,
    decreases breaks.len(),
{
    if first_mandatory(breaks) is Some {
        if breaks[0].1 == BreakKind::Mandatory {
            0
        } else {
            let rest = breaks.drop_first();
            assert(first_mandatory(rest) == first_mandatory(breaks));
            let j = lemma_scanner_choice_is_kept(rest);
            j + 1
        }
    } else {
        breaks.len() - 1
    }
}

/// A step cuts a text that is not empty behind at least one character, so
/// that less is left than before, and leaves a splitter of which all holds
/// that held before.
pub proof fn lemma_step(cursor: Cursor)
    requires
        cursor.well_formed(),
        cursor.text.len() > 0,
    ensures
        0 < cursor.break_index(),
        is_boundary(cursor.text, cursor.break_index() as int),
        cursor.break_index() <= cursor.guarded_index(cursor.break_index()),
        is_boundary(cursor.text, cursor.guarded_index(cursor.break_index()) as int),
        cursor.step().1.text == tail_at(
            cursor.text,
            cursor.guarded_index(cursor.break_index()) as int,
        ),
        byte_len(cursor.step().1.text) < byte_len(cursor.text),
        cursor.step().1.well_formed(),
{
    let text = cursor.text;
    let breaks = break_opportunities(text, cursor.max_graphemes, cursor.trim_end);
    let punctuation = punctuation_breaks(text, cursor.max_graphemes, cursor.trim_end);
    let index = cursor.break_index();
    lemma_ends_are_boundaries(text);
    crate::text::lemma_byte_len_positive(text);
    if scanner_choice(breaks) is Some {
        let j = lemma_scanner_choice_is_kept(breaks);
        crate::breaks::lemma_scanner_accepts(text, cursor.max_graphemes, cursor.trim_end, j);
    } else if punctuation.len() > 0 {
        crate::breaks::lemma_finder_offers(
            text,
            cursor.max_graphemes,
            cursor.trim_end,
            punctuation.len() - 1,
        );
    }
    lemma_update(cursor, index);
}

/// A cut behind at least one character leaves less than before, and leaves
/// a splitter of which all holds that held before.
pub proof fn lemma_update(cursor: Cursor, split_index: usize)
    requires
        cursor.well_formed(),
        0 < split_index,
        is_boundary(cursor.text, split_index as int),
    ensures
        split_index <= cursor.guarded_index(split_index),
        is_boundary(cursor.text, cursor.guarded_index(split_index) as int),
        cursor.update(split_index).1.text == tail_at(
            cursor.text,
            cursor.guarded_index(split_index) as int,
        ),
        byte_len(cursor.update(split_index).1.text) < byte_len(cursor.text),
        cursor.update(split_index).1.well_formed(),
{
    let text = cursor.text;
    let index = cursor.guarded_index(split_index);
    lemma_ends_are_boundaries(text);
    crate::url::lemma_safe_break(text);
    lemma_cut(text, index as int);
    if has_url_marker(tail_at(text, index as int)) {
        lemma_url_marker_in_tail(text, index as int);
        if cursor.passes_url(split_index) {
            // what is left stands behind the safe break of the URL
            let safe = safe_break_of(text)->0;
            lemma_nested_tail(text, safe as int, index as int);
            lemma_url_marker_in_tail(tail_at(text, safe as int), index - safe);
        }
    }
}

/// The break that is taken from what the scanner kept.
pub fn scanner_break(breaks: &Vec<(usize, BreakKind)>) -> (chosen: Option<usize>)
    ensures
        chosen == scanner_choice(breaks@),
        chosen matches Some(pos) ==> exists|j: int|
            0 <= j < breaks@.len() && (#[trigger] breaks@[j]).0 == pos,
{
    let mut allowed_break_idx: usize = 0;
    proof {
        assert(breaks@.skip(0) =~= breaks@);
    }
    for j in 0..breaks.len()
        invariant
            first_mandatory(breaks@) == first_mandatory(breaks@.skip(j as int)),
            j > 0 ==> allowed_break_idx == breaks@[j - 1].0,
            j == 0 ==> allowed_break_idx == 0,
    {
        let (pos, kind) = breaks[j];
        proof {
            assert(breaks@.skip(j as int)[0] == breaks@[j as int]);
            assert(breaks@.skip(j as int).drop_first() =~= breaks@.skip(j + 1));
        }
        if kind == BreakKind::Mandatory {
            return Some(pos);
        }
        allowed_break_idx = pos;
    }
    if allowed_break_idx != 0 {
        Some(allowed_break_idx)
    } else {
        None
    }
}

/// The break that is taken where the scanner offers none.
pub fn fallback_break(punctuation: &Vec<usize>, len: usize) -> (chosen: usize)
    ensures
        chosen == fallback_choice(punctuation@, len),
{
    if punctuation.len() > 0 {
        punctuation[punctuation.len() - 1]
    } else {
        len
    }
}

impl<'a> StringSplitter<'a> {
    #[verifier::type_invariant]
    spec fn holds(self) -> bool {
        self@.well_formed()
    }

    /// The splitter at the start of `text`, laid out by `fmt`. Lines that
    /// follow a break have `newline_max_graphemes` columns for text.
    pub fn from_format(
        text: &'a str,
        fmt: &'a StringFormat<'a>,
        newline_max_graphemes: usize,
    ) -> (splitter: Option<Self>)
        ensures
            match splitter {
                Some(splitter) => Cursor::from_format(text@, *fmt, newline_max_graphemes) == Some(
                    splitter@,
                ),
                None => Cursor::from_format(text@, *fmt, newline_max_graphemes) is None,
            },
    {
        let max_graphemes_with_indent = fmt.max_width_with_indent()?;
        let max_graphemes_without_indent = fmt.max_width_without_indent()?;
        let is_bareline_ok = fmt.line_start.is_empty() || crate::breaks::is_whitespace(
            fmt.line_start,
        );
        let contains_url = contains_url(text);
        // Counting the bytes shows that the machine's integers can hold their
        // number, which the offset relies on.
        let _ = byte_length(text);
        Some(
            Self {
                text,
                offset: 0,
                max_graphemes: max_graphemes_with_indent,
                max_graphemes_with_indent,
                max_graphemes_without_indent,
                newline_max_graphemes,
                is_bareline_ok,
                trim_end: fmt.trim_end,
                contains_url,
            },
        )
    }

    /// Whether lines may start without the format's `line_start`.
    pub fn is_bareline_ok(&self) -> (ok: bool)
        ensures
            ok == self@.is_bareline_ok,
    {
        self.is_bareline_ok
    }

    /// Cuts the text at `split_index`, or behind its first URL where
    /// `split_index` falls inside that, and hands out the line before the
    /// cut.
    pub fn update(&mut self, split_index: usize) -> (state: SnippetState<'a>)
        requires
            is_boundary(old(self)@.text, split_index as int),
        ensures
            (state@, final(self)@) == old(self)@.update(split_index),
            byte_len(final(self)@.text) == byte_len(old(self)@.text) - old(self)@.guarded_index(
                split_index,
            ),
    {
        proof {
            use_type_invariant(&*self);
        }
        let whole = self.text;
        let mut index = split_index;
        let mut contains_url = self.contains_url;
        // adjust the index in case it falls inside a URL
        if contains_url {
            if let Some((start, safe)) = first_url(whole) {
                if start < index {
                    if index < safe {
                        index = safe;
                    }
                    // past the URL, it is the text behind it that matters
                    let (_, behind) = cut(whole, safe);
                    contains_url = crate::url::contains_url(behind);
                    proof {
                        lemma_nested_tail(whole@, safe as int, index as int);
                        if has_url_marker(tail_at(whole@, index as int)) {
                            lemma_url_marker_in_tail(behind@, index - safe);
                        }
                    }
                }
            }
        }
        proof {
            lemma_cut(whole@, index as int);
            if has_url_marker(tail_at(whole@, index as int)) {
                lemma_url_marker_in_tail(whole@, index as int);
            }
        }
        let (consumed, remainder) = cut(whole, index);
        let offset = self.offset + index;
        let ends_with_newline = last_char(consumed) == Some('\n');
        let after_line_feed = if self.is_bareline_ok {
            // the next line can benefit from the full width
            self.max_graphemes_without_indent
        } else {
            self.max_graphemes_with_indent
        };
        let line = if self.trim_end && !ends_with_newline {
            trim_end(consumed)
        } else {
            consumed
        };
        let (state, max_graphemes) = if remainder.is_empty() {
            (SnippetState::EndOfInput(line), self.max_graphemes)
        } else if ends_with_newline {
            if self.trim_end {
                (SnippetState::RemovedSignificantLineFeed(trim_end(line), offset), after_line_feed)
            } else {
                (SnippetState::EndWithLineFeed(line, offset), after_line_feed)
            }
        } else {
            (SnippetState::LineEnd(line, offset), self.newline_max_graphemes)
        };
        *self = StringSplitter {
            text: remainder,
            offset,
            max_graphemes,
            max_graphemes_with_indent: self.max_graphemes_with_indent,
            max_graphemes_without_indent: self.max_graphemes_without_indent,
            newline_max_graphemes: self.newline_max_graphemes,
            is_bareline_ok: self.is_bareline_ok,
            trim_end: self.trim_end,
            contains_url,
        };
        state
    }

    /// Hands out the next line of the text; `None` once nothing is left.
    ///
    /// The line ends at the first mandatory break that the scanner kept, or
    /// else at the last break that it kept, or else at the last place that
    /// the finder offers, or else at the end of the text. Where that falls
    /// inside the first URL of the text, the line ends behind that URL.
    pub fn next(&mut self) -> (state: Option<SnippetState<'a>>)
        ensures
            match state {
                Some(line) => {
                    &&& old(self)@.text.len() > 0
                    &&& (line@, final(self)@) == old(self)@.step()
                    &&& byte_len(final(self)@.text) < byte_len(old(self)@.text)
                },
                None => old(self)@.text.len() == 0 && final(self)@ == old(self)@,
            },
    {
        if self.text.is_empty() {
            return None;
        }
        proof {
            use_type_invariant(&*self);
        }
        let break_opportunities = line_break_opportunities(
            self.text,
            self.max_graphemes,
            self.trim_end,
        );
        let index = match scanner_break(&break_opportunities) {
            Some(index) => index,
            None => {
                let punctuation_breaks = alternative_punctuation_breaks(
                    self.text,
                    self.max_graphemes,
                    self.trim_end,
                );
                let len = byte_length(self.text);
                proof {
                    lemma_ends_are_boundaries(self@.text);
                    crate::text::lemma_byte_len_positive(self@.text);
                }
                // where none is found, the text cannot be broken
                fallback_break(&punctuation_breaks, len)
            },
        };
        Some(self.update(index))
    }
}

} // verus!
