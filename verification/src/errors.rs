//! The rejection taxonomy: every way an operation can fail.

use vstd::prelude::*;

verus! {

/// Why an operation was rejected.
///
/// Every failure is a whole-call rejection: the ledger is left exactly as it
/// was, and nothing is treated as fatal beyond the one call.
#[derive(Clone, Copy, Debug, PartialEq, Eq, Structural)]
pub enum VotingError {
    /// A vote aimed at a proposal whose activity flag is already cleared.
    ProposalClosed,
    /// The caller of a close or delete is not the proposal's creator.
    Unauthorized,
    /// The description exceeds the permitted length at creation.
    DescriptionTooLong,
    /// The requested voting duration is not strictly positive.
    InvalidDuration,
    /// A vote arrived at or after the proposal's deadline.
    DeadlinePassed,
    /// A close arrived before the proposal's deadline.
    TooEarlyToClose,
    /// Fewer than the minimum number of options were supplied at creation.
    NotEnoughOptions,
    /// More than the maximum number of options were supplied at creation.
    TooManyOptions,
    /// An option's text exceeds the permitted length at creation.
    OptionTooLong,
    /// The chosen option index is out of bounds for the proposal.
    InvalidOption,
    /// A delete aimed at a proposal that has not been closed yet.
    ProposalStillActive,
    /// The store already holds a vote record under this (proposal, voter)
    /// key: the same party tried to cast twice.
    DuplicateVote,
    /// The store holds no proposal record under the given identifier.
    ProposalNotFound,
}

} // verus!
