//! The kinds of cell a level grid is made of.

use vstd::prelude::*;

verus! {

/// One cell of a level grid.
#[derive(PartialEq, Eq, Structural, Hash, Clone, Copy, Debug)]
pub enum Block {
    /// Solid ground: drawn, and collided with.
    Dirt,
    /// Empty space.
    Air,
    /// Empty space in which the player spawns.
    PlayerStart,
    /// The exit of the level: drawn, and collided with.
    PlayerEnd,
}

/// The block that a character of a level file stands for, in either case.
pub open spec fn block_of_char(c: char) -> Option<Block> {
    if c == 'b' || c == 'B' {
        Some(Block::Dirt)
    } else if c == 'a' || c == 'A' {
        Some(Block::Air)
    } else if c == 'p' || c == 'P' {
        Some(Block::PlayerStart)
    } else if c == 'e' || c == 'E' {
        Some(Block::PlayerEnd)
    } else {
        None
    }
}

impl Block {
    /// Whether a physics body stands for this block.
    pub open spec fn collides(self) -> bool {
        self == Block::Dirt || self == Block::PlayerEnd
    }

    /// Whether a physics body stands for this block: true of `Dirt` and
    /// `PlayerEnd`, false of `Air` and `PlayerStart`.
    pub fn is_colideable(self) -> (r: bool)
        ensures
            r == self.collides(),
    {
        match self {
            Block::Air | Block::PlayerStart => false,
            _ => true,
        }
    }

    /// Reads one character of a level file: `b`, `a`, `p`, `e` in either
    /// case; any other character stands for no block.
    pub fn from_char(c: char) -> (r: Option<Block>)
        ensures
            r == block_of_char(c),
    {
        match c {
            'b' | 'B' => Some(Block::Dirt),
            'a' | 'A' => Some(Block::Air),
            'p' | 'P' => Some(Block::PlayerStart),
            'e' | 'E' => Some(Block::PlayerEnd),
            _ => None,
        }
    }

    /// The path of the image that the block is drawn with; the two kinds of
    /// empty space are not drawn and have none.
    pub fn image_path(self) -> (r: Option<&'static str>)
        ensures
            r.is_some() == self.collides(),
            self == Block::Dirt ==> r == Some("blocks/dirt.png"),
            self == Block::PlayerEnd ==> r == Some("blocks/grave.png"),
    {
        match self {
            Block::Dirt => Some("blocks/dirt.png"),
            Block::Air | Block::PlayerStart => None,
            Block::PlayerEnd => Some("blocks/grave.png"),
        }
    }
}

} // verus!
