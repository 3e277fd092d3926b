//! Quarter turns of the grid plane.
//!
//! Grid coordinates have `x` growing to the right and `y` growing downwards,
//! as in an image. "Clockwise" is meant as seen on such an image: a clockwise
//! quarter turn carries the direction "right" `(1, 0)` to "down" `(0, 1)`.

use vstd::prelude::*;

verus! {

/// How a direction or gradient has to be turned when it is carried across a
/// seam between two faces.
#[derive(Debug, Clone, Copy, PartialEq, Eq, Hash, Structural)]
pub enum Rotation {
    Identity,
    /// 90 degrees clockwise
    Clockwise,
    /// 180 degrees
    Half,
    /// 90 degrees counter-clockwise
    CounterClockwise,
}

impl Rotation {
    /// Number of clockwise quarter turns, `0..=3`.
    pub open spec fn quarter_turns(self) -> int {
        match self {
            Rotation::Identity => 0,
            Rotation::Clockwise => 1,
            Rotation::Half => 2,
            Rotation::CounterClockwise => 3,
        }
    }

    /// The rotation made of `n` clockwise quarter turns.
    pub open spec fn of_quarter_turns(n: int) -> Rotation {
        let r = n % 4;
        if r == 0 {
            Rotation::Identity
        } else if r == 1 {
            Rotation::Clockwise
        } else if r == 2 {
            Rotation::Half
        } else {
            Rotation::CounterClockwise
        }
    }

    /// `self` followed by `next`.
    pub open spec fn followed_by(self, next: Rotation) -> Rotation {
        Rotation::of_quarter_turns(self.quarter_turns() + next.quarter_turns())
    }

    /// The rotation that undoes `self`.
    pub open spec fn reversed(self) -> Rotation {
        Rotation::of_quarter_turns(4 - self.quarter_turns())
    }

    /// The image of the vector `(x, y)`.
    pub open spec fn turn(self, x: int, y: int) -> (int, int) {
        match self {
            Rotation::Identity => (x, y),
            Rotation::Clockwise => (-y, x),
            Rotation::Half => (-x, -y),
            Rotation::CounterClockwise => (y, -x),
        }
    }

    pub fn compose(self, next: Rotation) -> (r: Rotation)
        ensures
            r == self.followed_by(next),
    {
        let total: u8 = self.to_quarter_turns() + next.to_quarter_turns();
        Rotation::from_quarter_turns(total)
    }

    pub fn inverse(self) -> (r: Rotation)
        ensures
            r == self.reversed(),
    {
        match self {
            Rotation::Identity => Rotation::Identity,
            Rotation::Clockwise => Rotation::CounterClockwise,
            Rotation::Half => Rotation::Half,
            Rotation::CounterClockwise => Rotation::Clockwise,
        }
    }

    pub fn to_quarter_turns(self) -> (n: u8)
        ensures
            n == self.quarter_turns(),
            n < 4,
    {
        match self {
            Rotation::Identity => 0,
            Rotation::Clockwise => 1,
            Rotation::Half => 2,
            Rotation::CounterClockwise => 3,
        }
    }

    pub fn from_quarter_turns(n: u8) -> (r: Rotation)
        ensures
            r == Rotation::of_quarter_turns(n as int),
    {
        let m: u8 = n % 4;
        if m == 0 {
            Rotation::Identity
        } else if m == 1 {
            Rotation::Clockwise
        } else if m == 2 {
            Rotation::Half
        } else {
            Rotation::CounterClockwise
        }
    }

    /// Turns the vector `(x, y)`.
    pub fn apply(self, x: i64, y: i64) -> (v: (i64, i64))
        requires
            x > i64::MIN,
            y > i64::MIN,
        ensures
            (v.0 as int, v.1 as int) == self.turn(x as int, y as int),
    {
        match self {
            Rotation::Identity => (x, y),
            Rotation::Clockwise => (-y, x),
            Rotation::Half => (-x, -y),
            Rotation::CounterClockwise => (y, -x),
        }
    }
}

/// The four rotations form a group under composition: composing is
/// associative and commutative, the identity is neutral, and every rotation
/// followed by its reverse is the identity.
pub proof fn lemma_rotation_group(a: Rotation, b: Rotation, c: Rotation)
    ensures
        a.followed_by(b).followed_by(c) == a.followed_by(b.followed_by(c)),
        a.followed_by(b) == b.followed_by(a),
        a.followed_by(Rotation::Identity) == a,
        a.followed_by(a.reversed()) == Rotation::Identity,
        a.reversed().reversed() == a,
{
}

/// Turning by a composition is turning twice, and the reverse rotation brings
/// every vector back.
pub proof fn lemma_turn_composes(a: Rotation, b: Rotation, x: int, y: int)
    ensures
        ({
            let (x1, y1) = a.turn(x, y);
            a.followed_by(b).turn(x, y) == b.turn(x1, y1)
        }),
        ({
            let (x1, y1) = a.turn(x, y);
            a.reversed().turn(x1, y1) == (x, y)
        }),
{
}

/// A rotation is linear: it commutes with sums and differences of vectors.
pub proof fn lemma_turn_linear(a: Rotation, x: int, y: int, u: int, v: int)
    ensures
        ({
            let (x1, y1) = a.turn(x, y);
            let (u1, v1) = a.turn(u, v);
            a.turn(x + u, y + v) == (x1 + u1, y1 + v1) && a.turn(x - u, y - v) == (x1 - u1, y1
                - v1)
        }),
{
}

} // verus!
