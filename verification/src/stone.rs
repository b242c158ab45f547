use vstd::prelude::*;

verus! {

/// The two stone colours.
#[derive(Clone, Copy, Debug, PartialEq, Eq, Structural)]
pub enum StoneType {
    Black,
    White,
}

impl StoneType {
    /// The colour that plays against `self`.
    pub open spec fn spec_opponent(self) -> StoneType {
        match self {
            StoneType::Black => StoneType::White,
            StoneType::White => StoneType::Black,
        }
    }

    /// The colour that plays against `self`.
    #[verifier::when_used_as_spec(spec_opponent)]
    pub fn opponent(self) -> (other: StoneType)
        ensures
            other == self.spec_opponent(),
    {
        match self {
            StoneType::Black => StoneType::White,
            StoneType::White => StoneType::Black,
        }
    }
}

/// A stone lying on the board, showing one of its two faces.
#[derive(Clone, Copy, Debug, PartialEq, Eq, Structural)]
pub struct Stone {
    pub stone_type: StoneType,
}

impl Stone {
    pub fn new(stone_type: StoneType) -> (stone: Stone)
        ensures
            stone.stone_type == stone_type,
    {
        Stone { stone_type }
    }

    pub fn black() -> (stone: Stone)
        ensures
            stone.stone_type == StoneType::Black,
    {
        Stone { stone_type: StoneType::Black }
    }

    pub fn white() -> (stone: Stone)
        ensures
            stone.stone_type == StoneType::White,
    {
        Stone { stone_type: StoneType::White }
    }

    /// Turns the stone over, so that it shows the other colour.
    pub fn reverse(&mut self)
        ensures
            final(self).stone_type == old(self).stone_type.opponent(),
    {
        self.stone_type = self.stone_type.opponent();
    }
}

/// A cell coordinate: column `x` and row `y`. A position names a cell of the
/// board when both are below 8.
#[derive(Clone, Copy, Debug, PartialEq, Eq, Structural)]
pub struct Position {
    pub x: u32,
    pub y: u32,
}

impl Position {
    /// Whether the position names one of the 64 cells.
    pub open spec fn spec_on_board(self) -> bool {
        self.x < 8 && self.y < 8
    }

    /// Whether the position names one of the 64 cells.
    #[verifier::when_used_as_spec(spec_on_board)]
    pub fn on_board(self) -> (inside: bool)
        ensures
            inside == self.spec_on_board(),
    {
        self.x < 8 && self.y < 8
    }
}

} // verus!
