//! The box that a piece of text is laid out in.

use vstd::prelude::*;
use vstd::string::StringExecFns;

verus! {

/// The settings that hold for the whole document.
#[derive(Clone, Copy, Debug)]
pub struct Config {
    /// The widest that any line may be, in columns.
    pub max_width: usize,
}

impl Config {
    /// Settings with the given maximum line width.
    pub fn new(max_width: usize) -> (config: Self)
        ensures
            config.max_width == max_width,
    {
        Config { max_width }
    }

    /// The widest that any line may be.
    pub fn max_width(&self) -> (width: usize)
        ensures
            width == self.max_width,
    {
        self.max_width
    }

    /// Changes the maximum line width.
    pub fn set_max_width(&mut self, max_width: usize)
        ensures
            final(self).max_width == max_width,
    {
        self.max_width = max_width;
    }
}

impl Default for Config {
    /// Lines of up to 100 columns.
    fn default() -> (config: Self)
        ensures
            config.max_width == 100,
    {
        Config { max_width: 100 }
    }
}

/// How far a line is pushed to the right: by whole block levels, and by
/// further columns that align it with something above.
#[derive(Clone, Copy, Debug)]
pub struct Indent {
    /// Columns of block indentation.
    pub block_indent: usize,
    /// Columns of alignment on top of the block indentation.
    pub alignment: usize,
}

/// `n` spaces.
pub open spec fn spaces(n: nat) -> Seq<char> {
    Seq::new(n, |i: int| ' ')
}

impl Indent {
    /// The columns that the indentation takes; a sum that does not fit the
    /// machine's integers stops at the largest one.
    pub open spec fn columns(self) -> nat {
        if self.block_indent + self.alignment > usize::MAX {
            usize::MAX as nat
        } else {
            (self.block_indent + self.alignment) as nat
        }
    }

    /// The indentation as text, which is spaces.
    pub open spec fn text(self) -> Seq<char> {
        spaces(self.columns())
    }

    /// The indentation as text, behind a line feed.
    pub open spec fn text_with_newline(self) -> Seq<char> {
        seq!['\n'] + self.text()
    }

    pub fn new(block_indent: usize, alignment: usize) -> (indent: Self)
        ensures
            indent.block_indent == block_indent,
            indent.alignment == alignment,
    {
        Indent { block_indent, alignment }
    }

    /// Block indentation of `width` columns and no alignment.
    pub fn from_width(width: usize) -> (indent: Self)
        ensures
            indent.block_indent == width,
            indent.alignment == 0,
    {
        Indent { block_indent: width, alignment: 0 }
    }

    /// No indentation.
    pub fn empty() -> (indent: Self)
        ensures
            indent.block_indent == 0,
            indent.alignment == 0,
    {
        Indent { block_indent: 0, alignment: 0 }
    }

    /// The columns that the indentation takes.
    pub fn width(&self) -> (width: usize)
        ensures
            width == self.columns(),
    {
        self.block_indent.saturating_add(self.alignment)
    }

    /// The indentation as text.
    pub fn to_string(&self) -> (text: String)
        ensures
            text@ == self.text(),
    {
        let mut text = String::new();
        let width = self.width();
        for i in 0..width
            invariant
                text@ == spaces(i as nat),
        {
            proof {
                reveal_strlit(" ");
                assert(spaces(i as nat) + " "@ =~= spaces((i + 1) as nat));
            }
            text.append(" ");
        }
        text
    }

    /// A line feed and the indentation behind it.
    pub fn to_string_with_newline(&self) -> (text: String)
        ensures
            text@ == self.text_with_newline(),
    {
        let mut text = String::from_str("\n");
        proof {
            reveal_strlit("\n");
            assert(text@ =~= seq!['\n']);
        }
        let indentation = self.to_string();
        text.append(indentation.as_str());
        text
    }
}

/// The room that a piece of text has: a number of columns at some
/// indentation.
#[derive(Clone, Copy, Debug)]
pub struct Shape {
    /// The columns that the text may take on its first line.
    pub width: usize,
    /// The indentation of the lines that follow.
    pub indent: Indent,
    /// The columns before the text that are taken on top of the block
    /// indentation.
    pub offset: usize,
}

impl Shape {
    /// The columns taken to the left of the box.
    pub open spec fn used_columns(self) -> int {
        self.indent.block_indent + self.offset
    }

    /// A box of `width` columns at `indent`.
    pub fn legacy(width: usize, indent: Indent) -> (shape: Self)
        ensures
            shape.width == width,
            shape.indent == indent,
            shape.offset == indent.alignment,
    {
        Shape { width, indent, offset: indent.alignment }
    }

    /// The columns taken to the left of the box, if the machine's integers
    /// can hold their number.
    pub fn used_width(&self) -> (used: Option<usize>)
        ensures
            used == (if self.used_columns() <= usize::MAX {
                Some(self.used_columns() as usize)
            } else {
                None
            }),
    {
        self.indent.block_indent.checked_add(self.offset)
    }
}

} // verus!
