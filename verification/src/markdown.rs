//! The decisions taken while a Markdown document is rewritten event by
//! event: which code blocks are formatted, how indented code is kept, and
//! when the list and emphasis markers of the output have to change.
//!
//! Reading the document and writing it out is left to the caller, who hands
//! over what each event is and does what comes back.

use vstd::prelude::*;
use vstd::string::StringExecFns;

use crate::text::{first_char, trim_end, trim_end_of};

verus! {

/// What an event of the document is, as far as code blocks go.
#[derive(Clone, Copy, Debug, PartialEq, Eq, Structural)]
pub enum BlockEvent {
    /// A fenced code block starts. `formattable` says whether its
    /// attributes mark it as Rust code that is to be formatted.
    FencedStart { formattable: bool },
    /// A fenced code block ends.
    FencedEnd,
    /// An indented code block starts.
    IndentedStart,
    /// An indented code block ends.
    IndentedEnd,
    /// Text.
    Text,
    /// Anything else.
    Other,
}

/// What is to be done with an event before it is written out.
#[derive(Clone, Copy, Debug, PartialEq, Eq, Structural)]
pub enum Rewrite {
    /// The event stays as it is.
    Keep,
    /// The text is code to format; where that fails, it stays as it is.
    FormatCode,
    /// The event becomes the start of a paragraph.
    StartParagraph,
    /// The event becomes the end of a paragraph.
    EndParagraph,
    /// The text is indented code: its indentation is put back. `last` says
    /// whether white space at its end goes, as this is the last of the
    /// block.
    IndentCode { last: bool },
}

/// Which code block the events are in.
#[derive(Clone, Copy, Debug, PartialEq, Eq, Structural)]
pub struct CodeBlockFormatter {
    /// In a fenced code block that is to be formatted.
    pub format_code_block: bool,
    /// In an indented code block.
    pub indented_code_block: bool,
}

impl CodeBlockFormatter {
    /// What is to be done with `event`, and the state behind it.
    ///
    /// A fenced block decides by its attributes whether text is formatted
    /// until the block ends. An indented block is written as a paragraph, so
    /// that no fence appears around it, and its text is indented again.
    /// `next_ends_indented_block` says whether the event that follows ends
    /// an indented code block.
    pub open spec fn step(self, event: BlockEvent, next_ends_indented_block: bool) -> (
        Rewrite,
        CodeBlockFormatter,
    ) {
        match event {
            BlockEvent::FencedStart { formattable } => (
                Rewrite::Keep,
                CodeBlockFormatter { format_code_block: formattable, ..self },
            ),
            BlockEvent::Text if self.format_code_block => (Rewrite::FormatCode, self),
            BlockEvent::FencedEnd if self.format_code_block => (
                Rewrite::Keep,
                CodeBlockFormatter { format_code_block: false, ..self },
            ),
            BlockEvent::IndentedStart => (
                Rewrite::StartParagraph,
                CodeBlockFormatter { indented_code_block: true, ..self },
            ),
            BlockEvent::Text if self.indented_code_block => (
                Rewrite::IndentCode { last: next_ends_indented_block },
                self,
            ),
            BlockEvent::IndentedEnd if self.indented_code_block => (
                Rewrite::EndParagraph,
                CodeBlockFormatter { indented_code_block: false, ..self },
            ),
            _ => (Rewrite::Keep, self),
        }
    }

    /// Outside of any code block.
    pub fn new() -> (formatter: Self)
        ensures
            !formatter.format_code_block,
            !formatter.indented_code_block,
    {
        CodeBlockFormatter { format_code_block: false, indented_code_block: false }
    }

    /// Takes the next event and says what is to be done with it.
    pub fn next(&mut self, event: BlockEvent, next_ends_indented_block: bool) -> (rewrite: Rewrite)
        ensures
            (rewrite, *final(self)) == old(self).step(event, next_ends_indented_block),
    {
        match event {
            BlockEvent::FencedStart { formattable } => {
                // The text that follows is the content of the code block.
                self.format_code_block = formattable;
                Rewrite::Keep
            },
            BlockEvent::Text => {
                if self.format_code_block {
                    Rewrite::FormatCode
                } else if self.indented_code_block {
                    Rewrite::IndentCode { last: next_ends_indented_block }
                } else {
                    Rewrite::Keep
                }
            },
            BlockEvent::FencedEnd => {
                self.format_code_block = false;
                Rewrite::Keep
            },
            BlockEvent::IndentedStart => {
                // Written as a paragraph, the block gets no code fence.
                self.indented_code_block = true;
                Rewrite::StartParagraph
            },
            BlockEvent::IndentedEnd => {
                if self.indented_code_block {
                    self.indented_code_block = false;
                    Rewrite::EndParagraph
                } else {
                    Rewrite::Keep
                }
            },
            BlockEvent::Other => Rewrite::Keep,
        }
    }
}

/// The event that is written out: what the event was rewritten to, or the
/// event itself where nothing came of rewriting it.
pub fn rewritten_or_kept<T>(rewritten: Option<T>, event: T) -> (written: T)
    ensures
        written == (match rewritten {
            Some(rewritten) => rewritten,
            None => event,
        }),
{
    match rewritten {
        Some(rewritten) => rewritten,
        None => event,
    }
}

/// The text of an indented code block with its indentation of four spaces
/// put back; without the white space at its end where it is the last of the
/// block.
pub open spec fn indented_code(code: Seq<char>, last: bool) -> Seq<char> {
    "    "@ + (if last {
        trim_end_of(code)
    } else {
        code
    })
}

/// Puts the indentation of an indented code block back.
pub fn indent_code(code: &str, last: bool) -> (indented: String)
    ensures
        indented@ == indented_code(code@, last),
{
    let mut indented = String::from_str("    ");
    if last {
        indented.append(trim_end(code));
    } else {
        indented.append(code);
    }
    indented
}

/// The markers that the output is written with.
#[derive(Clone, Copy, Debug, PartialEq, Eq, Structural)]
pub struct Markers {
    /// What the items of an unordered list start with.
    pub list_token: char,
    /// What emphasised text stands between.
    pub emphasis_token: char,
}

/// What an event of the document is, as far as markers go.
#[derive(Clone, Copy, Debug, PartialEq, Eq, Structural)]
pub enum MarkerEvent {
    /// An unordered list starts, with this marker.
    ListStart(char),
    /// Emphasised text starts, with this marker.
    EmphasisStart(char),
    /// Anything else.
    Other,
}

/// The markers that the output has to be written with from `event` on,
/// where they are not `markers`.
pub open spec fn markers_for(event: MarkerEvent, markers: Markers) -> Option<Markers> {
    match event {
        MarkerEvent::ListStart(bullet) if bullet != markers.list_token => Some(
            Markers { list_token: bullet, ..markers },
        ),
        MarkerEvent::EmphasisStart(emphasis) if emphasis != markers.emphasis_token => Some(
            Markers { emphasis_token: emphasis, ..markers },
        ),
        _ => None,
    }
}

/// How many of `events` can be written with `markers`: the index of the
/// first that asks for other markers, or the number of events.
pub open spec fn events_before_update(events: Seq<MarkerEvent>, markers: Markers) -> int
    decreases events.len(),
{
    if events.len() == 0 || markers_for(events[0], markers) is Some {
        0
    } else {
        1 + events_before_update(events.drop_first(), markers)
    }
}

/// The marker that the source of an event starts with; `*` where the source
/// is empty.
pub fn marker_of(source: &str) -> (marker: char)
    ensures
        marker == (if source@.len() > 0 {
            source@[0]
        } else {
            '*'
        }),
{
    match first_char(source) {
        Some(marker) => marker,
        None => '*',
    }
}

/// The markers that the output has to be written with from `event` on,
/// where they are not `markers`.
pub fn updated_markers(event: MarkerEvent, markers: Markers) -> (update: Option<Markers>)
    ensures
        update == markers_for(event, markers),
{
    match event {
        MarkerEvent::ListStart(bullet) => {
            // The items of an unordered list start with `-`, `+` or `*`.
            if bullet != markers.list_token {
                Some(Markers { list_token: bullet, emphasis_token: markers.emphasis_token })
            } else {
                None
            }
        },
        MarkerEvent::EmphasisStart(emphasis) => {
            // Emphasised text stands between `*` or `_`.
            if emphasis != markers.emphasis_token {
                Some(Markers { list_token: markers.list_token, emphasis_token: emphasis })
            } else {
                None
            }
        },
        MarkerEvent::Other => None,
    }
}

/// Collects events until one asks for other markers than `markers`.
///
/// Returns how many events that is, and the markers to go on with where the
/// events have not run out.
pub fn collect_events_until_fmt_options_update(
    events: &[MarkerEvent],
    markers: Markers,
) -> (found: (usize, Option<Markers>))
    ensures
        found.0 == events_before_update(events@, markers),
        found.0 <= events@.len(),
        found.1 == (if found.0 < events@.len() {
            markers_for(events@[found.0 as int], markers)
        } else {
            None
        }),
        found.0 < events@.len() ==> found.1 is Some,
{
    proof {
        assert(events@.skip(0) =~= events@);
    }
    for k in 0..events.len()
        invariant
            events_before_update(events@, markers) == k + events_before_update(
                events@.skip(k as int),
                markers,
            ),
    {
        let update = updated_markers(events[k], markers);
        proof {
            assert(events@.skip(k as int)[0] == events@[k as int]);
            assert(events@.skip(k as int).drop_first() =~= events@.skip(k + 1));
        }
        if update.is_some() {
            return (k, update);
        }
    }
    (events.len(), None)
}

} // verus!
