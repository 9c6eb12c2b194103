//! A minimal voting core: parties create time-bounded proposals carrying a
//! small set of text options, other parties cast at most one vote each, and
//! after the deadline the creator finalizes the tally and may delete the
//! record.
//!
//! The crate holds the state-transition and invariant-enforcement rules only.
//! The durable keyed store of the host platform is modelled by
//! [`ledger::VotingLedger`]; the clock and the authenticated caller identity
//! are collaborators whose answers are handed in as plain values (`now`, and
//! the identities inside each operation's account bundle).

pub mod errors;
pub mod records;
pub mod ledger;
pub mod laws;

pub use errors::VotingError;
pub use records::{
    CloseProposal, CreateProposal, DeleteProposal, Proposal, ProposalClosed, ProposalCreated,
    ProposalView, Vote, VoteCast, VoteProposal,
};
pub use ledger::{
    close_proposal, create_proposal, delete_proposal, get_proposal, get_vote, vote, LedgerView,
    VotingLedger,
};
