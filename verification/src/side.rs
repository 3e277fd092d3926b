//! The six faces of the cube.

use vstd::prelude::*;

verus! {

/// One face of the cube, laid out as the net
///
/// ```text
///         +---+
///         | U |
///     +---+---+---+---+
///     | L | B | R | F |
///     +---+---+---+---+
///         | D |
///         +---+
/// ```
#[derive(Debug, Clone, Copy, PartialEq, Eq, Hash, Structural)]
pub enum Side {
    /// left (-x)
    L,
    /// back (-y)
    B,
    /// right (+x)
    R,
    /// front (+y)
    F,
    /// up (+z)
    U,
    /// down (-z)
    D,
}

/// Number of faces of a cube.
pub const SIDE_COUNT: usize = 6;

impl Side {
    /// Position of the face in the order L, B, R, F, U, D.
    pub open spec fn ordinal(self) -> int {
        match self {
            Side::L => 0,
            Side::B => 1,
            Side::R => 2,
            Side::F => 3,
            Side::U => 4,
            Side::D => 5,
        }
    }

    /// The face at position `i` of the order L, B, R, F, U, D.
    pub open spec fn at(i: int) -> Side {
        if i == 0 {
            Side::L
        } else if i == 1 {
            Side::B
        } else if i == 2 {
            Side::R
        } else if i == 3 {
            Side::F
        } else if i == 4 {
            Side::U
        } else {
            Side::D
        }
    }

    /// The lower-case letter that names the face in file names.
    pub open spec fn letter_of(self) -> char {
        match self {
            Side::L => 'l',
            Side::B => 'b',
            Side::R => 'r',
            Side::F => 'f',
            Side::U => 'u',
            Side::D => 'd',
        }
    }

    pub fn to_index(self) -> (i: usize)
        ensures
            i == self.ordinal(),
            i < SIDE_COUNT,
    {
        match self {
            Side::L => 0,
            Side::B => 1,
            Side::R => 2,
            Side::F => 3,
            Side::U => 4,
            Side::D => 5,
        }
    }

    /// Inverse of [`Side::to_index`].
    pub fn from_index(value: usize) -> (side: Side)
        requires
            value < SIDE_COUNT,
        ensures
            side == Side::at(value as int),
            side.ordinal() == value,
    {
        if value == 0 {
            Side::L
        } else if value == 1 {
            Side::B
        } else if value == 2 {
            Side::R
        } else if value == 3 {
            Side::F
        } else if value == 4 {
            Side::U
        } else {
            Side::D
        }
    }

    /// Like [`Side::from_index`], for a number that may be out of range.
    pub fn try_from_index(value: usize) -> (side: Option<Side>)
        ensures
            value < SIDE_COUNT ==> side == Some(Side::at(value as int)),
            value >= SIDE_COUNT ==> side.is_none(),
    {
        if value < SIDE_COUNT {
            Some(Side::from_index(value))
        } else {
            None
        }
    }

    pub fn letter(self) -> (c: char)
        ensures
            c == self.letter_of(),
    {
        match self {
            Side::L => 'l',
            Side::B => 'b',
            Side::R => 'r',
            Side::F => 'f',
            Side::U => 'u',
            Side::D => 'd',
        }
    }

    /// The face's letter as an owned string.
    pub fn to_string(self) -> (s: String)
        ensures
            s@ == seq![self.letter_of()],
    {
        proof {
            reveal_strlit("l");
            reveal_strlit("b");
            reveal_strlit("r");
            reveal_strlit("f");
            reveal_strlit("u");
            reveal_strlit("d");
        }
        let name = match self {
            Side::L => "l",
            Side::B => "b",
            Side::R => "r",
            Side::F => "f",
            Side::U => "u",
            Side::D => "d",
        };
        assert(name@ =~= seq![self.letter_of()]);
        name.to_owned()
    }
}

impl Default for Side {
    fn default() -> (side: Side)
        ensures
            side == Side::L,
    {
        Side::L
    }
}

/// Numbering the faces and reading the number back are inverse to each other.
pub proof fn lemma_ordinal_roundtrip(side: Side, i: int)
    ensures
        Side::at(side.ordinal()) == side,
        0 <= side.ordinal() < 6,
        0 <= i < 6 ==> Side::at(i).ordinal() == i,
{
}

} // verus!
