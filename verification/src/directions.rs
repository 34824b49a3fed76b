//! The four directions of movement and the keys that stand for them.

use vstd::prelude::*;

verus! {

/// A direction in which the player can be pushed.
#[derive(PartialEq, Eq, Structural, Hash, Clone, Copy, Debug)]
pub enum Directions {
    Left,
    Up,
    Right,
    Down,
}

/// The keys that the game reacts to; every other key is `Other`.
#[derive(PartialEq, Eq, Structural, Hash, Clone, Copy, Debug)]
pub enum Key {
    /// Walk to the left.
    A,
    /// Walk to the right.
    D,
    /// Jump.
    W,
    /// A key without a meaning in the game.
    Other,
}

impl Directions {
    /// Whether the direction lies on the horizontal axis.
    pub open spec fn horizontal(self) -> bool {
        self == Directions::Left || self == Directions::Right
    }

    /// The unit vector of the direction, with `y` growing downwards.
    pub open spec fn unit(self) -> (int, int) {
        match self {
            Directions::Up => (0, -1),
            Directions::Down => (0, 1),
            Directions::Right => (1, 0),
            Directions::Left => (-1, 0),
        }
    }

    /// The direction that a key is bound to: `A` to `Left`, `D` to `Right`,
    /// no other key to any.
    pub open spec fn of_key(k: Key) -> Option<Directions> {
        match k {
            Key::A => Some(Directions::Left),
            Key::D => Some(Directions::Right),
            _ => None,
        }
    }

    /// Whether moving in this direction changes the `x` coordinate.
    pub fn change_x(self) -> (r: bool)
        ensures
            r == self.horizontal(),
            r == (self.unit().0 != 0),
    {
        match self {
            Self::Up | Self::Down => false,
            _ => true,
        }
    }

    /// Whether moving in this direction changes the `y` coordinate.
    pub fn change_y(self) -> (r: bool)
        ensures
            r == !self.horizontal(),
            r == (self.unit().1 != 0),
    {
        !self.change_x()
    }

    /// The unit vector of the direction as `(x, y)`, with `y` growing
    /// downwards.
    pub fn vector(self) -> (r: (i32, i32))
        ensures
            r.0 == self.unit().0,
            r.1 == self.unit().1,
    {
        match self {
            Directions::Up => (0, -1),
            Directions::Down => (0, 1),
            Directions::Right => (1, 0),
            Directions::Left => (-1, 0),
        }
    }

    /// The direction that a key is bound to, if it is bound to one.
    pub fn try_from_key(k: Key) -> (r: Option<Directions>)
        ensures
            r == Self::of_key(k),
    {
        match k {
            Key::A => Some(Directions::Left),
            Key::D => Some(Directions::Right),
            _ => None,
        }
    }
}

} // verus!
