//! The record types — proposals, votes, notifications, account bundles —
//! their size limits, and the creation-time validation rules.

use vstd::prelude::*;
use crate::errors::VotingError;

verus! {

/// Longest permitted proposal description, in characters.
pub const MAX_DESCRIPTION_LEN: usize = 200;

/// Longest permitted option text, in characters.
pub const MAX_OPTION_LEN: usize = 50;

/// Largest permitted number of options on one proposal.
pub const MAX_OPTIONS: usize = 10;

/// Smallest permitted number of options on one proposal.
pub const MIN_OPTIONS: usize = 2;

/// The votable item: its creator, text, voting window, activity flag, and the
/// per-option tally. Stored in the ledger under an opaque identifier; caller
/// and creator identities are likewise opaque, so they are carried as plain
/// `u64` values and only ever compared for equality.
pub struct Proposal {
    pub creator: u64,
    pub description: String,
    pub options: Vec<String>,
    pub vote_counts: Vec<u64>,
    pub is_active: bool,
    pub start_ts: i64,
    pub end_ts: i64,
}

/// The mathematical value of a [`Proposal`]: texts as character sequences,
/// the tally as a sequence of counters.
#[verifier::ext_equal]
pub struct ProposalView {
    pub creator: u64,
    pub description: Seq<char>,
    pub options: Seq<Seq<char>>,
    pub vote_counts: Seq<u64>,
    pub is_active: bool,
    pub start_ts: i64,
    pub end_ts: i64,
}

impl View for Proposal {
    type V = ProposalView;

    open spec fn view(&self) -> ProposalView {
        ProposalView {
            creator: self.creator,
            description: self.description@,
            options: self.options.deep_view(),
            vote_counts: self.vote_counts@,
            is_active: self.is_active,
            start_ts: self.start_ts,
            end_ts: self.end_ts,
        }
    }
}

impl ProposalView {
    /// The shape every stored proposal keeps from creation to deletion.
    pub open spec fn wf(self) -> bool {
        &&& self.vote_counts.len() == self.options.len()
        &&& MIN_OPTIONS <= self.options.len() <= MAX_OPTIONS
        &&& self.description.len() <= MAX_DESCRIPTION_LEN
        &&& forall|i: int| 0 <= i < self.options.len() ==> self.options[i].len() <= MAX_OPTION_LEN
        &&& self.start_ts < self.end_ts
    }
}

/// A single voter's immutable choice on one proposal. At most one such record
/// exists per (proposal, voter) pair; the pair is the record's store key.
#[derive(Clone, Copy, Debug, PartialEq, Eq, Structural)]
pub struct Vote {
    pub proposal: u64,
    pub voter: u64,
    pub option_index: u8,
}

/// Notification emitted by a successful create.
#[derive(Clone, Copy, Debug)]
pub struct ProposalCreated {
    pub proposal: u64,
    pub creator: u64,
    pub start_ts: i64,
    pub end_ts: i64,
    pub num_options: u8,
}

/// Notification emitted by a successful vote.
#[derive(Clone, Copy, Debug)]
pub struct VoteCast {
    pub proposal: u64,
    pub voter: u64,
    pub option_index: u8,
}

/// Notification emitted by a successful close: the final tally snapshot and
/// the deadline that gated it.
#[derive(Debug)]
pub struct ProposalClosed {
    pub proposal: u64,
    pub vote_counts: Vec<u64>,
    pub end_ts: i64,
}

/// The records and identities a create touches: the fresh proposal key the
/// store assigned, and the authenticated creator.
#[derive(Clone, Copy, Debug)]
pub struct CreateProposal {
    pub proposal: u64,
    pub creator: u64,
}

/// The records and identities a vote touches: the targeted proposal and the
/// authenticated voter.
#[derive(Clone, Copy, Debug)]
pub struct VoteProposal {
    pub proposal: u64,
    pub voter: u64,
}

/// The records and identities a close touches.
#[derive(Clone, Copy, Debug)]
pub struct CloseProposal {
    pub proposal: u64,
    pub creator: u64,
}

/// The records and identities a delete touches.
#[derive(Clone, Copy, Debug)]
pub struct DeleteProposal {
    pub proposal: u64,
    pub creator: u64,
}

/// The first create check that fails, in the order the checks run, or `None`
/// when the inputs are acceptable.
pub open spec fn create_error(
    description: Seq<char>,
    options: Seq<Seq<char>>,
    duration_sec: i64,
) -> Option<VotingError> {
    if description.len() > MAX_DESCRIPTION_LEN {
        Some(VotingError::DescriptionTooLong)
    } else if duration_sec <= 0 {
        Some(VotingError::InvalidDuration)
    } else if options.len() < MIN_OPTIONS {
        Some(VotingError::NotEnoughOptions)
    } else if options.len() > MAX_OPTIONS {
        Some(VotingError::TooManyOptions)
    } else if exists|i: int| 0 <= i < options.len() && options[i].len() > MAX_OPTION_LEN {
        Some(VotingError::OptionTooLong)
    } else {
        None
    }
}

/// The proposal record a successful create stores: tally at zero for every
/// option, active, window starting at the clock reading `now`.
pub open spec fn created_proposal(
    creator: u64,
    description: Seq<char>,
    options: Seq<Seq<char>>,
    duration_sec: i64,
    now: i64,
) -> ProposalView {
    ProposalView {
        creator,
        description,
        options,
        vote_counts: Seq::new(options.len(), |i: int| 0u64),
        is_active: true,
        start_ts: now,
        end_ts: (now + duration_sec) as i64,
    }
}

} // verus!
