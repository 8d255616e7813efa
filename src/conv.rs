//! Conversions between the editor's positions and the library's own.
use vstd::prelude::*;

verus! {

/// A conversion that needs no context.
pub trait Conv {
    type Output;

    fn conv(self) -> Self::Output;
}

/// A conversion that needs a context, such as an index of line starts.
pub trait ConvWith<CTX> {
    type Output;

    fn conv_with(self, ctx: CTX) -> Self::Output;
}

/// A position as the editor reports it: line and column both count from one.
#[derive(Clone, Copy, Debug, PartialEq, Eq, Structural)]
pub struct Position {
    pub line_number: u32,
    pub column: u32,
}

/// A position whose line and column count from zero.
#[derive(Clone, Copy, Debug, PartialEq, Eq, Structural)]
pub struct LineCol {
    pub line: u32,
    pub col: u32,
}

impl Position {
    /// The zero-based position of `self`; none when a coordinate is zero, which no
    /// editor position has.
    pub fn to_line_col(self) -> (r: Option<LineCol>)
        ensures
            self.line_number >= 1 && self.column >= 1 ==> r == Some(
                LineCol { line: (self.line_number - 1) as u32, col: (self.column - 1) as u32 },
            ),
            self.line_number == 0 || self.column == 0 ==> r is None,
    {
        if self.line_number >= 1 && self.column >= 1 {
            Some(LineCol { line: self.line_number - 1, col: self.column - 1 })
        } else {
            None
        }
    }
}

impl Conv for Position {
    type Output = Option<LineCol>;

    fn conv(self) -> Option<LineCol> {
        self.to_line_col()
    }
}

impl LineCol {
    /// The editor position of `self`; none when a coordinate is `u32::MAX`.
    pub fn to_position(self) -> (r: Option<Position>)
        ensures
            self.line < u32::MAX && self.col < u32::MAX ==> r == Some(
                Position { line_number: (self.line + 1) as u32, column: (self.col + 1) as u32 },
            ),
            self.line == u32::MAX || self.col == u32::MAX ==> r is None,
    {
        if self.line < u32::MAX && self.col < u32::MAX {
            Some(Position { line_number: self.line + 1, column: self.col + 1 })
        } else {
            None
        }
    }
}

impl Conv for LineCol {
    type Output = Option<Position>;

    fn conv(self) -> Option<Position> {
        self.to_position()
    }
}

} // verus!
