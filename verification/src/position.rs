//! Coordinates on the fixed 3x3 board, with edge-aware neighbor navigation.

use vstd::prelude::*;

verus! {

/// A coordinate on the 3x3 board: `line` and `column` each range over 0..=2.
#[derive(Clone, Copy, PartialEq, Eq, Structural, Debug)]
pub struct Position {
    pub line: usize,
    pub column: usize,
}

impl Position {
    /// The coordinate lies on the board.
    pub open spec fn wf(self) -> bool {
        self.line < 3 && self.column < 3
    }

    /// Row-major flat index of the coordinate, in 0..9 for well-formed positions.
    pub open spec fn idx(self) -> int {
        3 * self.line + self.column
    }

    /// The cell above, or `None` on the first row.
    pub open spec fn top_spec(self) -> Option<Position> {
        if self.line >= 1 {
            Some(Position { line: (self.line - 1) as usize, column: self.column })
        } else {
            None
        }
    }

    /// The cell to the right, or `None` on the last column.
    pub open spec fn right_spec(self) -> Option<Position> {
        if self.column < 2 {
            Some(Position { line: self.line, column: (self.column + 1) as usize })
        } else {
            None
        }
    }

    /// The cell below, or `None` on the last row.
    pub open spec fn bottom_spec(self) -> Option<Position> {
        if self.line < 2 {
            Some(Position { line: (self.line + 1) as usize, column: self.column })
        } else {
            None
        }
    }

    /// The cell to the left, or `None` on the first column.
    pub open spec fn left_spec(self) -> Option<Position> {
        if self.column >= 1 {
            Some(Position { line: self.line, column: (self.column - 1) as usize })
        } else {
            None
        }
    }

    pub fn new(line: usize, column: usize) -> (r: Self)
        requires
            line < 3,
            column < 3,
        ensures
            r == (Position { line, column }),
            r.wf(),
    {
        Position { line, column }
    }

    /// The position whose row-major flat index is `i`.
    pub fn from_index(i: usize) -> (r: Self)
        requires
            i < 9,
        ensures
            r.wf(),
            r.idx() == i,
    {
        Position { line: i / 3, column: i % 3 }
    }

    pub fn top(&self) -> (r: Option<Self>)
        ensures
            r == self.top_spec(),
    {
        if self.line >= 1 {
            Some(Position { line: self.line - 1, column: self.column })
        } else {
            None
        }
    }

    pub fn right(&self) -> (r: Option<Self>)
        ensures
            r == self.right_spec(),
    {
        if self.column < 2 {
            Some(Position { line: self.line, column: self.column + 1 })
        } else {
            None
        }
    }

    pub fn bottom(&self) -> (r: Option<Self>)
        ensures
            r == self.bottom_spec(),
    {
        if self.line < 2 {
            Some(Position { line: self.line + 1, column: self.column })
        } else {
            None
        }
    }

    pub fn left(&self) -> (r: Option<Self>)
        ensures
            r == self.left_spec(),
    {
        if self.column >= 1 {
            Some(Position { line: self.line, column: self.column - 1 })
        } else {
            None
        }
    }
}

/// The position whose row-major flat index is `i`, as a specification value.
pub open spec fn pos_of_index(i: int) -> Position {
    Position { line: (i / 3) as usize, column: (i % 3) as usize }
}

/// Every neighbor of a well-formed position is itself well-formed, and its
/// flat index differs from the position's own.
pub proof fn lemma_neighbor_wf(p: Position)
    requires
        p.wf(),
    ensures
        p.top_spec() matches Some(q) ==> q.wf() && q.idx() == p.idx() - 3,
        p.right_spec() matches Some(q) ==> q.wf() && q.idx() == p.idx() + 1,
        p.bottom_spec() matches Some(q) ==> q.wf() && q.idx() == p.idx() + 3,
        p.left_spec() matches Some(q) ==> q.wf() && q.idx() == p.idx() - 1,
{
}

} // verus!
