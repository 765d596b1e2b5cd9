//! What holds of every text that is taken apart and put together again.

use vstd::prelude::*;

use crate::breaks::{
    break_opportunities, grapheme_at, is_punctuation_break, is_punctuation_text,
    lemma_finder_offers, lemma_scanner_accepts, punctuation_breaks, within_budget,
};
use crate::chars::is_white_space;
use crate::format::StringFormat;
use crate::pattern::stripped_of;
use crate::rewrite::{emit, emit_all, fits, laid_out, reindent, rewritten};
use crate::splitter::{
    lemma_scanner_choice_is_kept, lemma_step, lemma_update, scanner_choice, Cursor, Snippet,
};
use crate::text::{
    byte_len, ends_with_escape, head_at, is_boundary, lemma_cut, lemma_cut_concat,
    lemma_ends_are_boundaries, lemma_nested_cut, tail_at, trim_end_of,
};
use crate::unicode::{display_width_of, grapheme_starts_of, is_space_separator};
use crate::url::{has_url_marker, lemma_safe_break, safe_break_of, url_end_byte, url_start_byte};

verus! {

/// The lines of `states`, one behind the other.
pub open spec fn joined(states: Seq<Snippet>) -> Seq<char>
    decreases states.len(),
{
    if states.len() == 0 {
        Seq::empty()
    } else {
        states[0].line() + joined(states.drop_first())
    }
}

/// `s` without its white space.
pub open spec fn without_white_space(s: Seq<char>) -> Seq<char> {
    s.filter(|c: char| !is_white_space(c))
}

/// Whether the step that `cursor` takes next ends the line where the scanner
/// or the finder found a break, and not further on.
pub open spec fn breaks_within_line(cursor: Cursor) -> bool {
    &&& cursor.guarded_index(cursor.break_index()) == cursor.break_index()
    &&& (scanner_choice(
        break_opportunities(cursor.text, cursor.max_graphemes, cursor.trim_end),
    ) is Some || punctuation_breaks(cursor.text, cursor.max_graphemes, cursor.trim_end).len() > 0)
}

/// Whether none of `states` is a line that was broken off, and none is a
/// last line that holds a line feed only.
pub open spec fn is_unbroken(states: Seq<Snippet>) -> bool {
    forall|i: int|
        0 <= i < states.len() ==> !((#[trigger] states[i]) is LineEnd) && states[i]
            != Snippet::EndOfInput(seq!['\n'])
}

/// Trimming takes away white space only.
pub proof fn lemma_trim_keeps_content(s: Seq<char>)
    ensures
        without_white_space(trim_end_of(s)) == without_white_space(s),
    decreases s.len(),
{
    reveal(Seq::filter);
    if s.len() > 0 && is_white_space(s.last()) {
        lemma_trim_keeps_content(s.drop_last());
    }
}

/// The line that a step hands out holds what the step took off the text,
/// but for white space; all of it where white space is kept.
proof fn lemma_step_keeps_content(cursor: Cursor)
    requires
        cursor.well_formed(),
        cursor.text.len() > 0,
    ensures
        without_white_space(cursor.step().0.line()) + without_white_space(cursor.step().1.text)
            == without_white_space(cursor.text),
        !cursor.trim_end ==> cursor.step().0.line() + cursor.step().1.text == cursor.text,
{
    broadcast use Seq::filter_distributes_over_add;

    lemma_step(cursor);
    let index = cursor.guarded_index(cursor.break_index());
    let consumed = head_at(cursor.text, index as int);
    lemma_cut(cursor.text, index as int);
    lemma_trim_keeps_content(consumed);
    lemma_trim_keeps_content(trim_end_of(consumed));
    assert(cursor.text == consumed + tail_at(cursor.text, index as int));
}

/// Nothing of the text is lost: the lines that the splitter hands out, one
/// behind the other, hold the characters of the text in their order, but
/// for white space. Where white space is kept, they are the text.
pub proof fn no_content_is_lost(cursor: Cursor)
    requires
        cursor.well_formed(),
    ensures
        without_white_space(joined(cursor.snippets())) == without_white_space(cursor.text),
        !cursor.trim_end ==> joined(cursor.snippets()) == cursor.text,
    decreases byte_len(cursor.text),
{
    broadcast use Seq::filter_distributes_over_add;

    if cursor.text.len() == 0 {
        assert(joined(cursor.snippets()) =~= cursor.text);
    } else {
        let (line, next) = cursor.step();
        lemma_step(cursor);
        lemma_step_keeps_content(cursor);
        no_content_is_lost(next);
        let rest = next.snippets();
        assert((seq![line] + rest).drop_first() =~= rest);
        assert(joined(cursor.snippets()) == line.line() + joined(rest));
    }
}

/// The splitter comes to an end: it hands out no more lines than the text
/// has bytes.
pub proof fn steps_are_bounded(cursor: Cursor)
    requires
        cursor.well_formed(),
    ensures
        cursor.snippets().len() <= byte_len(cursor.text),
    decreases byte_len(cursor.text),
{
    if cursor.text.len() > 0 {
        lemma_step(cursor);
        steps_are_bounded(cursor.step().1);
    }
}

/// A line that ends where the scanner or the finder found a break is within
/// the budget of its step: it is no wider than the budget, or one column
/// wider and ends in a space that will be trimmed.
///
/// This leaves out the text that cannot be broken, which is handed out
/// whole, and the line that a URL has made longer.
pub proof fn line_is_within_budget(cursor: Cursor)
    requires
        cursor.well_formed(),
        cursor.text.len() > 0,
        breaks_within_line(cursor),
    ensures
        ({
            let line = head_at(cursor.text, cursor.break_index() as int);
            within_budget(
                display_width_of(line),
                cursor.max_graphemes,
                cursor.trim_end,
                is_space_separator(line.last()),
            )
        }),
{
    let breaks = break_opportunities(cursor.text, cursor.max_graphemes, cursor.trim_end);
    let punctuation = punctuation_breaks(cursor.text, cursor.max_graphemes, cursor.trim_end);
    if scanner_choice(breaks) is Some {
        let j = lemma_scanner_choice_is_kept(breaks);
        lemma_scanner_accepts(cursor.text, cursor.max_graphemes, cursor.trim_end, j);
    } else {
        lemma_finder_offers(
            cursor.text,
            cursor.max_graphemes,
            cursor.trim_end,
            punctuation.len() - 1,
        );
    }
}

/// Where the text holds no URL, every line but the last one is within the
/// budget of its step: as it stands in the text, it is no wider than the
/// budget, or one column wider and ends in a space that will be trimmed.
/// Where white space is kept, that is the line that is handed out.
///
/// Only the rest of a text that cannot be broken, which is handed out as
/// its last line, may be wider. Of a line that has been trimmed, only its
/// width before trimming is known.
pub proof fn line_before_the_last_is_within_budget(cursor: Cursor)
    requires
        cursor.well_formed(),
        cursor.text.len() > 0,
        !has_url_marker(cursor.text),
        !(cursor.step().0 is EndOfInput),
    ensures
        ({
            let line = head_at(cursor.text, cursor.break_index() as int);
            within_budget(
                display_width_of(line),
                cursor.max_graphemes,
                cursor.trim_end,
                is_space_separator(line.last()),
            )
        }),
        !cursor.trim_end ==> display_width_of(cursor.step().0.line()) <= cursor.max_graphemes,
{
    lemma_safe_break(cursor.text);
    lemma_ends_are_boundaries(cursor.text);
    let punctuation = punctuation_breaks(cursor.text, cursor.max_graphemes, cursor.trim_end);
    let breaks = break_opportunities(cursor.text, cursor.max_graphemes, cursor.trim_end);
    if scanner_choice(breaks) is None && punctuation.len() == 0 {
        assert(cursor.step().0 is EndOfInput);
    }
    line_is_within_budget(cursor);
}

/// Where white space is kept, the line that is handed out at a break of the
/// scanner does not end in a backslash that is not escaped.
pub proof fn kept_line_does_not_end_in_escape(cursor: Cursor)
    requires
        cursor.well_formed(),
        cursor.text.len() > 0,
        !cursor.trim_end,
        scanner_choice(
            break_opportunities(cursor.text, cursor.max_graphemes, cursor.trim_end),
        ) is Some,
        cursor.guarded_index(cursor.break_index()) == cursor.break_index(),
    ensures
        !ends_with_escape(cursor.step().0.line()),
{
    no_break_behind_backslash(cursor);
}

/// A place that the finder hands out lies behind a backslash only where the
/// punctuation before it ends in one: behind other punctuation, the line
/// does not end in a backslash.
pub proof fn finder_break_behind_other_punctuation(
    text: Seq<char>,
    max_graphemes: usize,
    trim_end: bool,
    i: int,
)
    requires
        0 <= i < punctuation_breaks(text, max_graphemes, trim_end).len(),
    ensures
        exists|k: int|
            {
                let pos = punctuation_breaks(text, max_graphemes, trim_end)[i];
                &&& grapheme_starts_of(text)[k + 1] == pos
                &&& is_punctuation_text(#[trigger] grapheme_at(text, grapheme_starts_of(text), k))
                &&& head_at(text, pos as int).last() == grapheme_at(
                    text,
                    grapheme_starts_of(text),
                    k,
                ).last()
                &&& (grapheme_at(text, grapheme_starts_of(text), k).last() != '\\'
                    ==> !ends_with_escape(head_at(text, pos as int)))
            },
{
    lemma_finder_offers(text, max_graphemes, trim_end, i);
    let starts = grapheme_starts_of(text);
    let pos = punctuation_breaks(text, max_graphemes, trim_end)[i];
    let k = choose|k: int|
        is_punctuation_break(text, starts, k, max_graphemes, trim_end) && starts[k + 1] == pos;
    lemma_nested_cut(text, starts[k] as int, pos as int);
    let grapheme = grapheme_at(text, starts, k);
    if grapheme.len() == 0 {
        assert(byte_len(grapheme) == 0);
    }
    assert(head_at(text, pos as int).last() == grapheme.last());
}

/// A line that ends at a break of the scanner does not end in a backslash
/// that is not escaped, so that no escape sequence is torn.
///
/// This leaves out the lines that end elsewhere: where the finder found the
/// break, at the end of a text that cannot be broken, and behind a URL.
pub proof fn no_break_behind_backslash(cursor: Cursor)
    requires
        cursor.well_formed(),
        cursor.text.len() > 0,
        scanner_choice(
            break_opportunities(cursor.text, cursor.max_graphemes, cursor.trim_end),
        ) is Some,
        cursor.guarded_index(cursor.break_index()) == cursor.break_index(),
    ensures
        !ends_with_escape(head_at(cursor.text, cursor.break_index() as int)),
{
    let breaks = break_opportunities(cursor.text, cursor.max_graphemes, cursor.trim_end);
    let j = lemma_scanner_choice_is_kept(breaks);
    lemma_scanner_accepts(cursor.text, cursor.max_graphemes, cursor.trim_end, j);
}

/// The splitter reads the text from front to back: behind every step, the
/// text that is left is what stands in the whole text behind the bytes that
/// were read, and more bytes were read than before.
pub proof fn offset_follows_the_text(whole: Seq<char>, cursor: Cursor)
    requires
        cursor.well_formed(),
        cursor.text.len() > 0,
        is_boundary(whole, cursor.offset as int),
        cursor.text == tail_at(whole, cursor.offset as int),
    ensures
        cursor.step().1.offset > cursor.offset,
        is_boundary(whole, cursor.step().1.offset as int),
        cursor.step().1.text == tail_at(whole, cursor.step().1.offset as int),
{
    lemma_step(cursor);
    let index = cursor.guarded_index(cursor.break_index());
    lemma_cut(whole, cursor.offset as int);
    lemma_cut(cursor.text, index as int);
    let read = head_at(whole, cursor.offset as int) + head_at(cursor.text, index as int);
    let left = tail_at(cursor.text, index as int);
    assert(whole =~= read + left);
    lemma_cut_concat(head_at(whole, cursor.offset as int), cursor.text);
    lemma_cut_concat(head_at(cursor.text, index as int), left);
    lemma_cut_concat(read, left);
    lemma_cut_concat(head_at(whole, cursor.offset as int), head_at(cursor.text, index as int));
}

/// The first URL of the text that is left is not broken: wherever a break
/// is asked for, the text is cut at the first byte of the URL or before it,
/// or at the white space that ends the URL or behind it.
///
/// This says nothing of a URL that follows the first one on the same line.
pub proof fn first_url_stays_whole(cursor: Cursor, split_index: usize)
    requires
        cursor.well_formed(),
        has_url_marker(cursor.text),
    ensures
        cursor.guarded_index(split_index) <= url_start_byte(cursor.text) || url_end_byte(
            cursor.text,
        ) <= cursor.guarded_index(split_index),
{
    lemma_safe_break(cursor.text);
}

/// A break that does not fall inside the first URL of the text stays where
/// it is: before the URL, behind it, or in a text without one.
pub proof fn break_outside_url_stays(cursor: Cursor, split_index: usize)
    requires
        cursor.well_formed(),
        !has_url_marker(cursor.text) || split_index <= url_start_byte(cursor.text)
            || safe_break_of(cursor.text)->0 <= split_index,
    ensures
        cursor.guarded_index(split_index) == split_index,
{
    lemma_safe_break(cursor.text);
}

/// A cut that does not pass a URL leaves untouched what is known of URLs:
/// in a text without one, and at the first byte of the first URL or before
/// it.
pub proof fn url_before_the_cut_is_not_forgotten(cursor: Cursor, split_index: usize)
    requires
        cursor.well_formed(),
        !has_url_marker(cursor.text) || split_index <= url_start_byte(cursor.text),
    ensures
        cursor.update(split_index).1.contains_url == cursor.contains_url,
{
    lemma_safe_break(cursor.text);
}

/// Once a cut has passed the first URL of the text, moved or not, what is
/// known of URLs is looked up again: whether the text behind the safe break
/// of that URL holds a marker. The text that is left stands behind that
/// safe break, so that a URL in it is not overlooked.
pub proof fn url_behind_the_cut_is_looked_up(cursor: Cursor, split_index: usize)
    requires
        cursor.well_formed(),
        has_url_marker(cursor.text),
        url_start_byte(cursor.text) < split_index,
        is_boundary(cursor.text, split_index as int),
    ensures
        safe_break_of(cursor.text) matches Some(safe) && cursor.update(split_index).1.contains_url
            == has_url_marker(tail_at(cursor.text, safe as int)) && safe <= cursor.guarded_index(
            split_index,
        ),
        has_url_marker(cursor.update(split_index).1.text) ==> cursor.update(
            split_index,
        ).1.contains_url,
{
    lemma_safe_break(cursor.text);
    lemma_update(cursor, split_index);
}

/// The finder does not part punctuation from punctuation: each place that
/// it hands out lies between a grapheme that is punctuation and one that is
/// not.
pub proof fn punctuation_stays_together(
    text: Seq<char>,
    max_graphemes: usize,
    trim_end: bool,
    i: int,
)
    requires
        0 <= i < punctuation_breaks(text, max_graphemes, trim_end).len(),
    ensures
        exists|k: int|
            {
                &&& grapheme_starts_of(text)[k + 1] == punctuation_breaks(
                    text,
                    max_graphemes,
                    trim_end,
                )[i]
                &&& is_punctuation_text(#[trigger] grapheme_at(text, grapheme_starts_of(text), k))
                &&& !is_punctuation_text(grapheme_at(text, grapheme_starts_of(text), k + 1))
            },
{
    lemma_finder_offers(text, max_graphemes, trim_end, i);
}

/// What the driver writes behind a line: behind a line that was broken
/// off, the format's `line_end`, a line feed, the indentation and the
/// format's `line_start`; behind a line feed of the text, the indentation
/// and `line_start` where lines cannot start bare, with the line feed
/// itself where it was trimmed off the line; behind the last line, nothing.
pub open spec fn separator(fmt: StringFormat, is_bareline_ok: bool, state: Snippet) -> Seq<char> {
    match state {
        Snippet::LineEnd(_, _) => fmt.line_end@ + fmt.shape.indent.text_with_newline()
            + fmt.line_start@,
        Snippet::EndWithLineFeed(_, _) => reindent(fmt, is_bareline_ok),
        Snippet::RemovedSignificantLineFeed(_, _) => seq!['\n'] + reindent(fmt, is_bareline_ok),
        Snippet::EndOfInput(_) => Seq::empty(),
    }
}

/// The lines of `states`, each with what the driver writes behind it.
pub open spec fn written(fmt: StringFormat, is_bareline_ok: bool, states: Seq<Snippet>) -> Seq<char>
    decreases states.len(),
{
    if states.len() == 0 {
        Seq::empty()
    } else {
        states[0].line() + separator(fmt, is_bareline_ok, states[0]) + written(
            fmt,
            is_bareline_ok,
            states.drop_first(),
        )
    }
}

/// Whether the driver takes white space off the end of what it has written
/// before it writes `state`: the line is a line feed and nothing else, or a
/// line feed that was trimmed off an empty line.
pub open spec fn trims_buffer(fmt: StringFormat, state: Snippet) -> bool {
    match state {
        Snippet::LineEnd(_, _) => false,
        Snippet::EndWithLineFeed(line, _) => line == seq!['\n'] && fmt.trim_end,
        Snippet::RemovedSignificantLineFeed(line, _) => line.len() == 0,
        Snippet::EndOfInput(line) => line == seq!['\n'],
    }
}

/// The driver adds to the lines and takes nothing away: what it writes is
/// the lines in their order, each followed by its separator.
///
/// This leaves out the blank lines before which the driver takes white
/// space off the end of what it has written.
pub proof fn only_separators_are_inserted(
    fmt: StringFormat,
    is_bareline_ok: bool,
    buffer: Seq<char>,
    states: Seq<Snippet>,
)
    requires
        forall|i: int| 0 <= i < states.len() ==> !trims_buffer(fmt, #[trigger] states[i]),
    ensures
        emit_all(fmt, is_bareline_ok, buffer, states) == buffer + written(
            fmt,
            is_bareline_ok,
            states,
        ),
    decreases states.len(),
{
    if states.len() == 0 {
        assert(buffer + written(fmt, is_bareline_ok, states) =~= buffer);
    } else {
        let first = states[0];
        let rest = states.drop_first();
        assert(!trims_buffer(fmt, first));
        assert(forall|i: int| 0 <= i < rest.len() ==> rest[i] == states[i + 1]);
        let next = buffer + first.line() + separator(fmt, is_bareline_ok, first);
        assert(emit(fmt, is_bareline_ok, buffer, first) =~= next);
        only_separators_are_inserted(fmt, is_bareline_ok, next, rest);
        assert(next + written(fmt, is_bareline_ok, rest) =~= buffer + written(
            fmt,
            is_bareline_ok,
            states,
        ));
    }
}

/// Rewriting keeps the text: where white space is kept, the result is the
/// opener, the lines of the text in their order, each followed by its
/// separator, and the closer; and the lines, one behind the other, are the
/// text.
///
/// This leaves out the blank lines before which the driver takes white
/// space off the end of what it has written, and speaks of the text
/// without its line continuations.
pub proof fn rewrite_keeps_the_text(stripped: Seq<char>, fmt: StringFormat, newline_max_chars: usize)
    requires
        byte_len(stripped) <= usize::MAX,
        !fmt.trim_end,
        Cursor::from_format(stripped, fmt, newline_max_chars) matches Some(cursor) && forall|
            i: int,
        |
            0 <= i < cursor.snippets().len() ==> !trims_buffer(fmt, #[trigger] cursor.snippets()[i]),
    ensures
        ({
            let cursor = Cursor::from_format(stripped, fmt, newline_max_chars)->0;
            let lines = cursor.snippets();
            &&& joined(lines) == stripped
            &&& laid_out(stripped, fmt, newline_max_chars) matches Some(text) ==> text
                == fmt.opener@ + written(fmt, cursor.is_bareline_ok, lines) + fmt.closer@
        }),
{
    let cursor = Cursor::from_format(stripped, fmt, newline_max_chars)->0;
    no_content_is_lost(cursor);
    only_separators_are_inserted(fmt, cursor.is_bareline_ok, fmt.opener@, cursor.snippets());
}

/// Writing lines that were not broken off appends them as they are, where
/// white space is kept and lines may start bare.
proof fn lemma_emit_unbroken(fmt: StringFormat, buffer: Seq<char>, states: Seq<Snippet>)
    requires
        !fmt.trim_end,
        is_unbroken(states),
        forall|i: int|
            0 <= i < states.len() ==> !((#[trigger] states[i]) is RemovedSignificantLineFeed),
    ensures
        emit_all(fmt, true, buffer, states) == buffer + joined(states),
    decreases states.len(),
{
    if states.len() == 0 {
        assert(buffer + joined(states) =~= buffer);
    } else {
        let first = states[0];
        let rest = states.drop_first();
        assert(forall|i: int| 0 <= i < rest.len() ==> rest[i] == states[i + 1]);
        assert(emit(fmt, true, buffer, first) =~= buffer + first.line());
        lemma_emit_unbroken(fmt, buffer + first.line(), rest);
        assert(buffer + first.line() + joined(rest) =~= buffer + joined(states));
    }
}

/// Where white space is kept, no step hands out a line with its line feed
/// trimmed.
proof fn lemma_no_trimmed_line_feed(cursor: Cursor, i: int)
    requires
        cursor.well_formed(),
        !cursor.trim_end,
        0 <= i < cursor.snippets().len(),
    ensures
        !(cursor.snippets()[i] is RemovedSignificantLineFeed),
    decreases byte_len(cursor.text),
{
    if cursor.text.len() > 0 {
        lemma_step(cursor);
        if i > 0 {
            lemma_no_trimmed_line_feed(cursor.step().1, i - 1);
        }
    }
}

/// A text that is wrapped already comes back unchanged: where no line has
/// to be broken off, white space is kept and lines may start bare, the
/// lines are written one behind the other as they stand in the text.
///
/// This leaves out the text whose last line is a line feed and nothing
/// else: before it the white space at the end of the line above goes.
pub proof fn wrapped_text_is_unchanged(fmt: StringFormat, buffer: Seq<char>, cursor: Cursor)
    requires
        cursor.well_formed(),
        !fmt.trim_end,
        !cursor.trim_end,
        cursor.is_bareline_ok,
        is_unbroken(cursor.snippets()),
    ensures
        emit_all(fmt, cursor.is_bareline_ok, buffer, cursor.snippets()) == buffer + cursor.text,
{
    no_content_is_lost(cursor);
    assert forall|i: int| 0 <= i < cursor.snippets().len() implies !((#[trigger] cursor.snippets()[i])
        is RemovedSignificantLineFeed) by {
        lemma_no_trimmed_line_feed(cursor, i);
    }
    lemma_emit_unbroken(fmt, buffer, cursor.snippets());
}

/// Rewriting a text that is wrapped already puts it between the opener and
/// the closer and changes nothing else, where the result fits.
pub proof fn rewrap_is_idempotent(stripped: Seq<char>, fmt: StringFormat, newline_max_chars: usize)
    requires
        byte_len(stripped) <= usize::MAX,
        !fmt.trim_end,
        Cursor::from_format(stripped, fmt, newline_max_chars) matches Some(cursor)
            && cursor.is_bareline_ok && is_unbroken(cursor.snippets()),
        fits(fmt.opener@ + stripped + fmt.closer@, fmt.config.max_width, fmt.shape),
    ensures
        laid_out(stripped, fmt, newline_max_chars) == Some(fmt.opener@ + stripped + fmt.closer@),
{
    let cursor = Cursor::from_format(stripped, fmt, newline_max_chars)->0;
    wrapped_text_is_unchanged(fmt, fmt.opener@, cursor);
}

/// The rewrite of a source depends on it only by way of its text without
/// line continuations: two sources that are the same text come out the
/// same. So a result comes back unchanged when it is rewritten again,
/// wherever taking the line continuations out of it gives the text that it
/// was made from.
pub proof fn same_text_same_rewrite(
    first: Seq<char>,
    second: Seq<char>,
    fmt: StringFormat,
    newline_max_chars: usize,
)
    requires
        stripped_of(first) == stripped_of(second),
    ensures
        rewritten(first, fmt, newline_max_chars) == rewritten(second, fmt, newline_max_chars),
{
}

} // verus!
