//! The layout of a piece of text: what opens and closes it, what opens and
//! closes each of its lines, and the box it has to fit.

use vstd::prelude::*;

use crate::shape::{Config, Shape};
use crate::text::{byte_len, byte_length};

verus! {

/// Describes the layout of a piece of text.
pub struct StringFormat<'a> {
    /// What the whole text starts with.
    pub opener: &'a str,
    /// What the whole text ends with.
    pub closer: &'a str,
    /// What every line but the first starts with.
    pub line_start: &'a str,
    /// What every line that is broken off ends with.
    pub line_end: &'a str,
    /// The box to fit the text into.
    pub shape: Shape,
    /// Whether white space at the end of a line is dropped.
    pub trim_end: bool,
    /// The settings of the document.
    pub config: &'a Config,
}

impl<'a> StringFormat<'a> {
    /// The columns that a line has for text when it starts behind the opener
    /// and ends with the line's closing sequence. `None` where not even one
    /// column is left.
    pub open spec fn budget_with_indent(self) -> Option<usize> {
        let taken = byte_len(self.opener@) + byte_len(self.line_end@) + 1;
        if self.shape.width >= taken {
            Some((self.shape.width - taken + 1) as usize)
        } else {
            None
        }
    }

    /// The columns that a line has for text when it starts at the left edge
    /// of the document. `None` where the line's closing sequence alone is
    /// wider than the document.
    pub open spec fn budget_without_indent(self) -> Option<usize> {
        if self.config.max_width >= byte_len(self.line_end@) {
            Some((self.config.max_width - byte_len(self.line_end@)) as usize)
        } else {
            None
        }
    }

    /// The layout of a string literal: between double quotes, broken lines
    /// end with a backslash, and the lines that follow start with a space.
    pub fn new(shape: Shape, config: &'a Config) -> (format: StringFormat<'a>)
        ensures
            format.opener@ == "\""@,
            format.closer@ == "\""@,
            format.line_start@ == " "@,
            format.line_end@ == "\\"@,
            format.shape == shape,
            !format.trim_end,
            format.config == config,
    {
        StringFormat {
            opener: "\"",
            closer: "\"",
            line_start: " ",
            line_end: "\\",
            shape,
            trim_end: false,
            config,
        }
    }

    /// The most columns of text that a line can take with the indentation
    /// taken into account.
    pub fn max_width_with_indent(&self) -> (budget: Option<usize>)
        ensures
            budget == self.budget_with_indent(),
    {
        let fixed = byte_length(self.opener).checked_add(byte_length(self.line_end))?;
        let taken = fixed.checked_add(1)?;
        let spare = self.shape.width.checked_sub(taken)?;
        Some(spare + 1)
    }

    /// Like `max_width_with_indent`, but measured from the left edge of the
    /// document.
    pub fn max_width_without_indent(&self) -> (budget: Option<usize>)
        ensures
            budget == self.budget_without_indent(),
    {
        self.config.max_width().checked_sub(byte_length(self.line_end))
    }
}

} // verus!
