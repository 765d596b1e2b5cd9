//! Puts the lines of a text together again.

use vstd::prelude::*;
use vstd::string::StringExecFns;

use crate::format::StringFormat;
use crate::pattern::{strip_line_breaks, stripped_of};
use crate::shape::Shape;
use crate::splitter::{Cursor, Snippet, SnippetState, StringSplitter};
use crate::text::{
    byte_len, byte_length, cut, ends_with, find_line_feed, last_char, lemma_cut_concat,
    line_feed_index, trim_end, trim_end_of,
};
use crate::unicode::{display_width, display_width_of};

verus! {

/// `s` without its trailing white space where `trim_end` is set; a line feed
/// at its very end is put back.
pub open spec fn trimmed_but_line_feed(s: Seq<char>, trim_end: bool) -> Seq<char> {
    if !trim_end {
        s
    } else if ends_with(s, '\n') {
        trim_end_of(s).push('\n')
    } else {
        trim_end_of(s)
    }
}

/// What a line that continues a text starts with when lines cannot start
/// bare: the indentation and the format's `line_start`.
pub open spec fn reindent(fmt: StringFormat, is_bareline_ok: bool) -> Seq<char> {
    if is_bareline_ok {
        Seq::empty()
    } else {
        fmt.shape.indent.text() + fmt.line_start@
    }
}

/// The buffer after `state` was written behind `buffer`.
///
/// A line that was broken off is followed by the format's `line_end`, a line
/// feed, the indentation and the format's `line_start`. A line feed of the
/// text itself stays as it is; where lines cannot start bare, the
/// indentation and `line_start` follow it. Before a line that is nothing but
/// a line feed, the white space at the end of the buffer goes.
pub open spec fn emit(
    fmt: StringFormat,
    is_bareline_ok: bool,
    buffer: Seq<char>,
    state: Snippet,
) -> Seq<char> {
    match state {
        Snippet::LineEnd(line, _) => buffer + line + fmt.line_end@
            + fmt.shape.indent.text_with_newline() + fmt.line_start@,
        Snippet::EndWithLineFeed(line, _) => (if line == seq!['\n'] && fmt.trim_end {
            trimmed_but_line_feed(buffer, true)
        } else {
            buffer
        }) + line + reindent(fmt, is_bareline_ok),
        Snippet::RemovedSignificantLineFeed(line, _) => (if line.len() == 0 {
            trimmed_but_line_feed(buffer, true)
        } else {
            buffer + line
        }).push('\n') + reindent(fmt, is_bareline_ok),
        Snippet::EndOfInput(line) => (if line == seq!['\n'] {
            trimmed_but_line_feed(buffer, true)
        } else {
            buffer
        }) + line,
    }
}

/// The buffer after all of `states` were written behind `buffer`, in order.
pub open spec fn emit_all(
    fmt: StringFormat,
    is_bareline_ok: bool,
    buffer: Seq<char>,
    states: Seq<Snippet>,
) -> Seq<char>
    decreases states.len(),
{
    if states.len() == 0 {
        buffer
    } else {
        emit_all(
            fmt,
            is_bareline_ok,
            emit(fmt, is_bareline_ok, buffer, states[0]),
            states.drop_first(),
        )
    }
}

/// The first line of `s`: what stands before its first line feed.
pub open spec fn first_line(s: Seq<char>) -> Seq<char> {
    s.take(line_feed_index(s))
}

/// Whether the lines of `s` are at most `max_width` columns wide, and the
/// last of them at most `last_width`. A line ends at a line feed; what
/// stands behind the last line feed is the last line.
pub open spec fn lines_fit(s: Seq<char>, max_width: usize, last_width: int) -> bool
    decreases s.len(),
{
    let end = line_feed_index(s);
    if 0 <= end < s.len() {
        display_width_of(first_line(s)) <= max_width && lines_fit(
            s.skip(end + 1),
            max_width,
            last_width,
        )
    } else {
        display_width_of(s) <= max_width && display_width_of(s) <= last_width
    }
}

/// Whether `s` fits `shape` in a document of `max_width` columns: its first
/// line is no wider than the shape, the lines that follow are no wider than
/// the document, and the last of them leaves the shape's width free behind
/// the columns that are taken to its left. An empty text fits.
pub open spec fn fits(s: Seq<char>, max_width: usize, shape: Shape) -> bool {
    let end = line_feed_index(s);
    s.len() == 0 || (display_width_of(first_line(s)) <= shape.width && (0 <= end < s.len()
        ==> lines_fit(s.skip(end + 1), max_width, shape.used_columns() + shape.width)))
}

/// The text that `stripped` is rewritten to; `None` where the format leaves
/// no room for text, or the result does not fit.
pub open spec fn laid_out(
    stripped: Seq<char>,
    fmt: StringFormat,
    newline_max_chars: usize,
) -> Option<Seq<char>> {
    match Cursor::from_format(stripped, fmt, newline_max_chars) {
        Some(cursor) => {
            let text = emit_all(fmt, cursor.is_bareline_ok, fmt.opener@, cursor.snippets())
                + fmt.closer@;
            if fits(text, fmt.config.max_width, fmt.shape) {
                Some(text)
            } else {
                None
            }
        },
        None => None,
    }
}

/// The text that the source `orig` of a string literal is rewritten to.
pub open spec fn rewritten(
    orig: Seq<char>,
    fmt: StringFormat,
    newline_max_chars: usize,
) -> Option<Seq<char>> {
    match stripped_of(orig) {
        Some(stripped) => laid_out(stripped, fmt, newline_max_chars),
        None => None,
    }
}

/// Whether `n` is a power of two.
pub open spec fn is_power_of_two(n: int) -> bool {
    exists|e: nat| n == vstd::arithmetic::power2::pow2(e)
}

/// What an optional string holds.
pub open spec fn text_of(s: Option<String>) -> Option<Seq<char>> {
    match s {
        Some(s) => Some(s@),
        None => None,
    }
}

/// Removes the white space from the end of an owned string.
pub fn trim_end_whitespace(text: String) -> (trimmed: String)
    ensures
        trimmed@ == trim_end_of(text@),
{
    trim_end(text.as_str()).to_owned()
}

/// Removes all white space from the end of the string except a single
/// trailing line feed when `trim_end` is true. If `trim_end` is false no
/// white space is removed.
pub fn trim_end_but_line_feed(text: String, trim_end: bool) -> (trimmed: String)
    ensures
        trimmed@ == trimmed_but_line_feed(text@, trim_end),
{
    if !trim_end {
        return text;
    }
    let ends_with_newline = last_char(text.as_str()) == Some('\n');
    let mut text = trim_end_whitespace(text);
    if ends_with_newline {
        proof {
            reveal_strlit("\n");
            assert(text@ + "\n"@ =~= text@.push('\n'));
        }
        text.append("\n");
    }
    text
}

/// Whether `line` is a line feed and nothing else.
fn is_line_feed(line: &str) -> (b: bool)
    ensures
        b == (line@ == seq!['\n']),
{
    broadcast use vstd::string::group_string_axioms;

    let mut chars = line.chars();
    let first = chars.next();
    let second = chars.next();
    proof {
        if line@.len() == 1 {
            assert(line@ =~= seq![line@[0]]);
        }
    }
    first == Some('\n') && second.is_none()
}

/// Splits `s` into its first line and what stands behind the line feed that
/// ends it.
fn split_line<'a>(s: &'a str) -> (parts: (&'a str, Option<&'a str>))
    ensures
        parts.0@ == first_line(s@),
        0 <= line_feed_index(s@) <= s@.len(),
        match parts.1 {
            Some(rest) => line_feed_index(s@) < s@.len() && rest@ == s@.skip(
                line_feed_index(s@) + 1,
            ),
            None => line_feed_index(s@) == s@.len(),
        },
{
    match find_line_feed(s) {
        Some(pos) => {
            let ghost end = line_feed_index(s@);
            proof {
                assert(s@ =~= s@.take(end) + s@.skip(end));
                lemma_cut_concat(s@.take(end), s@.skip(end));
                assert(s@.skip(end) =~= seq!['\n'] + s@.skip(end + 1));
                lemma_cut_concat(seq!['\n'], s@.skip(end + 1));
            }
            let (line, tail) = cut(s, pos);
            let (_, rest) = cut(tail, '\n'.len_utf8());
            (line, Some(rest))
        },
        None => {
            proof {
                assert(s@.take(s@.len() as int) =~= s@);
            }
            (s, None)
        },
    }
}

/// Whether `s` fits `shape` in a document of `max_width` columns.
pub fn str_fits(s: &str, max_width: usize, shape: Shape) -> (b: bool)
    ensures
        b == fits(s@, max_width, shape),
{
    if s.is_empty() {
        return true;
    }
    let (first, behind) = split_line(s);
    // the first line must fit the shape
    if display_width(first) > shape.width {
        return false;
    }
    let mut rest = match behind {
        Some(rest) => rest,
        None => {
            return true;
        },
    };
    let last_width = match shape.used_width() {
        Some(used) => used.checked_add(shape.width),
        None => None,
    };
    let ghost lines = rest@;
    let ghost room = shape.used_columns() + shape.width;
    loop
        invariant
            lines_fit(rest@, max_width, room) == lines_fit(lines, max_width, room),
            fits(s@, max_width, shape) == lines_fit(lines, max_width, room),
            room == shape.used_columns() + shape.width,
            match last_width {
                Some(width) => width == room,
                None => room > usize::MAX,
            },
        decreases rest@.len(),
    {
        let (line, behind) = split_line(rest);
        let width = display_width(line);
        proof {
            assert(rest@.take(rest@.len() as int) =~= rest@);
        }
        // the other lines must fit the document
        if width > max_width {
            return false;
        }
        match behind {
            Some(more) => {
                rest = more;
            },
            None => {
                // the last line leaves room for what stands behind the text
                return match last_width {
                    Some(last_width) => width <= last_width,
                    None => true,
                };
            },
        }
    }
}

/// Hands `s` back if it fits `shape` in a document of `max_width` columns.
pub fn wrap_str(s: String, max_width: usize, shape: Shape) -> (wrapped: Option<String>)
    ensures
        wrapped == (if fits(s@, max_width, shape) {
            Some(s)
        } else {
            None
        }),
{
    if str_fits(s.as_str(), max_width, shape) {
        Some(s)
    } else {
        None
    }
}

/// Writes `state` behind `result`.
fn push_snippet(
    result: String,
    state: &SnippetState,
    fmt: &StringFormat,
    is_bareline_ok: bool,
    indent_with_newline: &str,
    indent_without_newline: &str,
) -> (written: String)
    requires
        indent_with_newline@ == fmt.shape.indent.text_with_newline(),
        indent_without_newline@ == fmt.shape.indent.text(),
    ensures
        written@ == emit(*fmt, is_bareline_ok, result@, state@),
{
    let mut result = result;
    proof {
        reveal_strlit("\n");
        assert("\n"@ =~= seq!['\n']);
    }
    match *state {
        SnippetState::LineEnd(line, _) => {
            result.append(line);
            result.append(fmt.line_end);
            result.append(indent_with_newline);
            result.append(fmt.line_start);
        },
        SnippetState::EndWithLineFeed(line, _) => {
            if is_line_feed(line) && fmt.trim_end {
                result = trim_end_but_line_feed(result, true);
            }
            result.append(line);
            if !is_bareline_ok {
                result.append(indent_without_newline);
                result.append(fmt.line_start);
            }
        },
        SnippetState::RemovedSignificantLineFeed(line, _) => {
            if line.is_empty() {
                result = trim_end_but_line_feed(result, true);
            } else {
                result.append(line);
            }
            proof {
                assert(result@ + "\n"@ =~= result@.push('\n'));
            }
            result.append("\n");
            if !is_bareline_ok {
                result.append(indent_without_newline);
                result.append(fmt.line_start);
            }
        },
        SnippetState::EndOfInput(line) => {
            if is_line_feed(line) {
                result = trim_end_but_line_feed(result, true);
            }
            result.append(line);
        },
    }
    result
}

/// The room to set aside for rewriting a text of `len` bytes: the least
/// power of two that holds it, as long as a string can be that large.
pub fn buffer_capacity(len: usize) -> (capacity: usize)
    ensures
        is_power_of_two(capacity as int),
        capacity <= isize::MAX,
        capacity >= len || capacity > isize::MAX / 2,
        capacity == 1 || capacity / 2 < len,
{
    let mut capacity: usize = 1;
    let ghost mut e: nat = 0;
    proof {
        vstd::arithmetic::power2::lemma2_to64();
    }
    while capacity < len && capacity <= isize::MAX as usize / 2
        invariant
            capacity == vstd::arithmetic::power2::pow2(e),
            1 <= capacity <= isize::MAX,
            capacity == 1 || capacity / 2 < len,
        decreases isize::MAX - capacity,
    {
        proof {
            vstd::arithmetic::power2::lemma_pow2_unfold(e + 1);
            e = e + 1;
        }
        capacity = capacity * 2;
    }
    capacity
}

/// Splits `stripped` into lines and writes them behind `buffer`, between the
/// format's opener and closer.
fn assemble<'a>(
    buffer: String,
    stripped: &'a str,
    fmt: &'a StringFormat<'a>,
    newline_max_chars: usize,
) -> (text: Option<String>)
    requires
        buffer@.len() == 0,
    ensures
        text_of(text) == laid_out(stripped@, *fmt, newline_max_chars),
{
    let indent_with_newline = fmt.shape.indent.to_string_with_newline();
    let indent_without_newline = fmt.shape.indent.to_string();
    let mut result = buffer;
    result.append(fmt.opener);
    let mut str_splitter = StringSplitter::from_format(stripped, fmt, newline_max_chars)?;
    let is_bareline_ok = str_splitter.is_bareline_ok();
    let ghost start = str_splitter@;
    proof {
        assert(result@ =~= fmt.opener@);
    }
    loop
        invariant
            is_bareline_ok == start.is_bareline_ok,
            indent_with_newline@ == fmt.shape.indent.text_with_newline(),
            indent_without_newline@ == fmt.shape.indent.text(),
            emit_all(*fmt, is_bareline_ok, result@, str_splitter@.snippets()) == emit_all(
                *fmt,
                is_bareline_ok,
                fmt.opener@,
                start.snippets(),
            ),
        ensures
            result@ == emit_all(*fmt, is_bareline_ok, fmt.opener@, start.snippets()),
        decreases byte_len(str_splitter@.text),
    {
        let ghost before = str_splitter@;
        match str_splitter.next() {
            Some(snippet_state) => {
                proof {
                    let rest = str_splitter@.snippets();
                    assert(before.snippets() == seq![snippet_state@] + rest);
                    assert((seq![snippet_state@] + rest).drop_first() =~= rest);
                }
                result = push_snippet(
                    result,
                    &snippet_state,
                    fmt,
                    is_bareline_ok,
                    indent_with_newline.as_str(),
                    indent_without_newline.as_str(),
                );
            },
            None => {
                break;
            },
        }
    }
    result.append(fmt.closer);
    wrap_str(result, fmt.config.max_width(), fmt.shape)
}

/// Rewrites a text without line continuations: breaks it into lines that
/// fit the format, and joins them as the format says.
///
/// Returns `None` where the format leaves no room for text, or where the
/// result does not fit the shape after all.
pub fn lay_out<'a>(
    stripped: &'a str,
    fmt: &'a StringFormat<'a>,
    newline_max_chars: usize,
) -> (text: Option<String>)
    ensures
        text_of(text) == laid_out(stripped@, *fmt, newline_max_chars),
{
    let buffer = String::with_capacity(buffer_capacity(byte_length(stripped)));
    assemble(buffer, stripped, fmt, newline_max_chars)
}

/// Rewrites the source of a string literal so that it fits the format.
///
/// Line continuations are taken out first: all white space that is left is
/// part of the text. Lines that follow a break have `newline_max_chars`
/// columns for text.
///
/// Returns `None` where the format leaves no room for text, or where the
/// result does not fit the shape after all.
pub fn rewrite_string<'a>(
    orig: &str,
    fmt: &StringFormat<'a>,
    newline_max_chars: usize,
) -> (text: Option<String>)
    ensures
        text_of(text) == rewritten(orig@, *fmt, newline_max_chars),
{
    // With the line continuations gone, all remaining white space is
    // significant.
    let stripped_str = strip_line_breaks(orig)?;
    let buffer = String::with_capacity(buffer_capacity(byte_length(orig)));
    assemble(buffer, stripped_str.as_str(), fmt, newline_max_chars)
}

} // verus!
