//! The progression from level to level: a level is played until the player
//! reaches its exit, then the next one is built while a loading screen is
//! shown, then that one is played.

use vstd::prelude::*;

verus! {

/// What the game is doing.
#[derive(PartialEq, Eq, Structural, Clone, Copy, Debug)]
pub enum Phase {
    /// The level with this id is played.
    Playing(u32),
    /// The level `next` is being built; the level `current` was played
    /// last.
    Loading { current: u32, next: u32 },
}

/// What happened.
#[derive(PartialEq, Eq, Structural, Clone, Copy, Debug)]
pub enum Signal {
    /// The player and the exit began to touch.
    EndReached,
    /// The level that was being built is ready.
    LevelBuilt,
    /// The level that was being built could not be built.
    LoadFailed,
}

/// What is to be done.
#[derive(PartialEq, Eq, Structural, Clone, Copy, Debug)]
pub enum Command {
    /// Go on as before.
    Nothing,
    /// Show the loading screen, then build the level with this id.
    ShowLoadingAndBuild(u32),
    /// Discard the old level's state and physics world and play the level
    /// with this id, which has been built.
    ReplaceLevel(u32),
    /// Show the level with this id, which was played last, again.
    KeepLevel(u32),
}

impl Phase {
    /// The phase that follows when `signal` arrives, and what is to be done
    /// then. Reaching the exit while playing starts loading the level with
    /// the next id. While loading, a level that is ready replaces the old
    /// one and is played, and a failure goes back to the old one. A signal
    /// that does not belong to the phase changes nothing: a level that is
    /// being built is not given up.
    pub open spec fn next(self, signal: Signal) -> (Phase, Command) {
        match (self, signal) {
            (Phase::Playing(level), Signal::EndReached) => (
                Phase::Loading { current: level, next: (level + 1) as u32 },
                Command::ShowLoadingAndBuild((level + 1) as u32),
            ),
            (Phase::Loading { current, next }, Signal::LevelBuilt) => (
                Phase::Playing(next),
                Command::ReplaceLevel(next),
            ),
            (Phase::Loading { current, next }, Signal::LoadFailed) => (
                Phase::Playing(current),
                Command::KeepLevel(current),
            ),
            _ => (self, Command::Nothing),
        }
    }

    /// The id of the level that is shown: the one played, or played last.
    pub open spec fn shown(self) -> u32 {
        match self {
            Phase::Playing(level) => level,
            Phase::Loading { current, next } => current,
        }
    }

    /// The game begins by playing the first level.
    pub fn start() -> (r: Phase)
        ensures
            r == Phase::Playing(1),
    {
        Phase::Playing(1)
    }

    /// Takes a signal: the phase becomes the one that follows, and the
    /// result says what is to be done.
    pub fn advance(&mut self, signal: Signal) -> (r: Command)
        requires
            *old(self) matches Phase::Playing(level) ==> level < u32::MAX,
        ensures
            (*final(self), r) == old(self).next(signal),
    {
        let (phase, command) = match (*self, signal) {
            (Phase::Playing(level), Signal::EndReached) => (
                Phase::Loading { current: level, next: level + 1 },
                Command::ShowLoadingAndBuild(level + 1),
            ),
            (Phase::Loading { current, next }, Signal::LevelBuilt) => (
                Phase::Playing(next),
                Command::ReplaceLevel(next),
            ),
            (Phase::Loading { current, next }, Signal::LoadFailed) => (
                Phase::Playing(current),
                Command::KeepLevel(current),
            ),
            (phase, _) => (phase, Command::Nothing),
        };
        *self = phase;
        command
    }
}

/// Level ids only grow: after a signal the level shown is the one shown
/// before, or, once a level has been built, the one after it.
pub proof fn lemma_levels_grow(phase: Phase, signal: Signal)
    requires
        phase matches Phase::Playing(level) ==> level < u32::MAX,
        phase matches Phase::Loading { current, next } ==> next == current + 1,
    ensures
        phase.next(signal).0.shown() == phase.shown() || (signal == Signal::LevelBuilt
            && phase.next(signal).0.shown() == phase.shown() + 1),
        phase.next(signal).0 matches Phase::Loading { current, next } ==> next == current + 1,
{
}

} // verus!
