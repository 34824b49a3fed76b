//! The ways in which building a level can fail.

use vstd::prelude::*;

verus! {

/// Why a level could not be generated or built.
#[derive(PartialEq, Eq, Structural, Clone, Copy, Debug)]
pub enum Error {
    /// A maze was asked for with no nodes along one axis.
    InvalidMazeRequest,
    /// The level grid holds no `PlayerStart`.
    MissingPlayerStart,
    /// The level grid holds no `PlayerEnd`.
    MissingPlayerEnd,
    /// An image of the level could not be loaded.
    AssetLoadFailure,
}

impl Error {
    /// A sentence that names the failure.
    pub fn message(self) -> (r: &'static str)
        ensures
            self == Error::InvalidMazeRequest ==> r == "a maze needs at least one node on each axis",
            self == Error::MissingPlayerStart ==> r == "the level has no player position",
            self == Error::MissingPlayerEnd ==> r == "the level does not have an end",
            self == Error::AssetLoadFailure ==> r == "an image of the level could not be loaded",
    {
        match self {
            Error::InvalidMazeRequest => "a maze needs at least one node on each axis",
            Error::MissingPlayerStart => "the level has no player position",
            Error::MissingPlayerEnd => "the level does not have an end",
            Error::AssetLoadFailure => "an image of the level could not be loaded",
        }
    }
}

} // verus!
