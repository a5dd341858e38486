use vstd::prelude::*;

verus! {

/// What a cell of the grid holds: the mark of one of the two players, or nothing.
#[derive(PartialEq, Eq, Structural, Clone, Copy, Debug)]
pub enum Square {
    X,
    O,
    Empty,
}

impl Square {
    /// The opponent of a mark; `Empty` has no opponent and maps to itself.
    pub open spec fn opponent(self) -> Square {
        match self {
            Square::X => Square::O,
            Square::O => Square::X,
            Square::Empty => Square::Empty,
        }
    }

    /// One of the two players' marks.
    pub open spec fn is_mark(self) -> bool {
        self != Square::Empty
    }

    /// The character a cell shows on the board.
    pub open spec fn spec_symbol(self) -> char {
        match self {
            Square::X => 'X',
            Square::O => 'O',
            Square::Empty => ' ',
        }
    }

    pub fn flip(&self) -> (r: Square)
        ensures
            r == self.opponent(),
    {
        match self {
            Square::X => Square::O,
            Square::O => Square::X,
            Square::Empty => Square::Empty,
        }
    }

    pub fn symbol(&self) -> (r: char)
        ensures
            r == self.spec_symbol(),
    {
        match self {
            Square::X => 'X',
            Square::O => 'O',
            Square::Empty => ' ',
        }
    }
}

} // verus!
