use vstd::prelude::*;

verus! {

/// Errors returned by the arena's operations.
#[derive(Clone, Copy, Debug, PartialEq, Eq, Structural)]
pub enum ArenaError {
    NotInitialized,
    InvalidAmount,
    TokenNotSet,
    GameAlreadyFinished,
    RoundAlreadyActive,
    NotEnoughPlayers,
    RoundDeadlineOverflow,
    WrongRoundNumber,
    CommitDeadlinePassed,
    NotASurvivor,
    AlreadyCommitted,
    SubmissionWindowClosed,
    RevealDeadlinePassed,
    NoCommitment,
    CommitmentMismatch,
    SubmissionAlreadyExists,
    NoActiveRound,
    RoundStillOpen,
    Paused,
}

} // verus!
