//! Laws that relate the operations to one another: ballots are conserved,
//! and a repeated close is a benign no-op.

use vstd::prelude::*;
use crate::ledger::{
    close_error, closed_ledger, closed_proposal, count_matching, lemma_close_preserves_wf,
    lemma_proposal_index, LedgerView,
};
use crate::records::Vote;

verus! {

/// The total of a tally: the sum of its cells.
pub open spec fn sum(counts: Seq<u64>) -> int
    decreases counts.len(),
{
    if counts.len() == 0 {
        0
    } else {
        sum(counts.drop_last()) + counts.last()
    }
}

/// How many votes in `votes` target proposal `proposal`, on any option.
pub open spec fn count_for_proposal(votes: Seq<Vote>, proposal: u64) -> nat
    decreases votes.len(),
{
    if votes.len() == 0 {
        0
    } else {
        count_for_proposal(votes.drop_last(), proposal) + if votes.last().proposal == proposal {
            1nat
        } else {
            0nat
        }
    }
}

/// How many votes in `votes` target proposal `proposal` on an option below `n`.
spec fn count_below(votes: Seq<Vote>, proposal: u64, n: int) -> nat
    decreases votes.len(),
{
    if votes.len() == 0 {
        0
    } else {
        count_below(votes.drop_last(), proposal, n) + if votes.last().proposal == proposal && (
        votes.last().option_index as int) < n {
            1nat
        } else {
            0nat
        }
    }
}

/// No vote has an option below zero.
proof fn lemma_count_below_nonpos(votes: Seq<Vote>, proposal: u64, n: int)
    requires
        n <= 0,
    ensures
        count_below(votes, proposal, n) == 0,
    decreases votes.len(),
{
    if votes.len() > 0 {
        lemma_count_below_nonpos(votes.drop_last(), proposal, n);
    }
}

/// Raising the option bound by one admits exactly the votes on that option.
proof fn lemma_count_below_step(votes: Seq<Vote>, proposal: u64, n: int)
    ensures
        count_below(votes, proposal, n) == count_below(votes, proposal, n - 1) + count_matching(
            votes,
            proposal,
            n - 1,
        ),
    decreases votes.len(),
{
    if votes.len() > 0 {
        lemma_count_below_step(votes.drop_last(), proposal, n);
    }
}

/// A bound above every cast option admits every vote of the proposal.
proof fn lemma_count_below_full(votes: Seq<Vote>, proposal: u64, n: int)
    requires
        forall|i: int|
            0 <= i < votes.len() && (#[trigger] votes[i]).proposal == proposal ==> (
            votes[i].option_index as int) < n,
    ensures
        count_below(votes, proposal, n) == count_for_proposal(votes, proposal),
    decreases votes.len(),
{
    if votes.len() > 0 {
        assert(votes.last() == votes[votes.len() - 1]);
        lemma_count_below_full(votes.drop_last(), proposal, n);
    }
}

/// Summing per-option counts cell by cell counts each admitted vote once.
proof fn lemma_sum_prefix(votes: Seq<Vote>, proposal: u64, counts: Seq<u64>, n: int)
    requires
        0 <= n <= counts.len(),
        forall|k: int|
            0 <= k < counts.len() ==> counts[k] == count_matching(votes, proposal, k),
    ensures
        sum(counts.take(n)) == count_below(votes, proposal, n),
    decreases n,
{
    if n == 0 {
        assert(counts.take(0) =~= Seq::<u64>::empty());
        lemma_count_below_nonpos(votes, proposal, 0);
    } else {
        lemma_sum_prefix(votes, proposal, counts, n - 1);
        lemma_count_below_step(votes, proposal, n);
        assert(counts.take(n).drop_last() =~= counts.take(n - 1));
        assert(counts.take(n).last() == counts[n - 1]);
    }
}

/// Law: ballots are conserved. In any well-formed ledger, the tally cells of
/// a stored proposal add up to the number of vote records that target it —
/// and those records carry pairwise distinct voters, so the total is exactly
/// the number of distinct voters whose casts succeeded. Every operation
/// keeps the ledger well-formed, so this holds after any sequence of calls.
pub proof fn lemma_tally_totals(lv: LedgerView, proposal: u64)
    requires
        lv.wf(),
        lv.has_proposal(proposal),
    ensures
        sum(lv.proposal_of(proposal).vote_counts) == count_for_proposal(lv.votes, proposal),
        forall|i: int, j: int|
            0 <= i < j < lv.votes.len() && (#[trigger] lv.votes[i]).proposal == proposal && (
            #[trigger] lv.votes[j]).proposal == proposal ==> lv.votes[i].voter
                != lv.votes[j].voter,
{
    lemma_proposal_index(lv, proposal);
    let idx = lv.proposal_index(proposal);
    let p = lv.proposal_of(proposal);
    let n = p.vote_counts.len() as int;
    assert forall|k: int| 0 <= k < p.vote_counts.len() implies p.vote_counts[k] == count_matching(
        lv.votes,
        proposal,
        k,
    ) by {
        assert(lv.proposals[idx].1.vote_counts[k] == count_matching(
            lv.votes,
            lv.proposals[idx].0,
            k,
        ));
    }
    assert forall|i: int|
        0 <= i < lv.votes.len() && (#[trigger] lv.votes[i]).proposal == proposal implies (
    lv.votes[i].option_index as int) < n by {
        assert(lv.has_proposal(lv.votes[i].proposal));
    }
    lemma_sum_prefix(lv.votes, proposal, p.vote_counts, n);
    lemma_count_below_full(lv.votes, proposal, n);
    assert(p.vote_counts.take(n) =~= p.vote_counts);
}

/// Law: a close is idempotent. Once a close has succeeded, closing again —
/// by the same creator, at any time at or past the deadline — passes the
/// same gates and rewrites the record it finds to itself: the stored state,
/// the recorded tally in particular, does not change.
pub proof fn lemma_close_idempotent(
    lv: LedgerView,
    caller: u64,
    proposal: u64,
    now1: i64,
    now2: i64,
)
    requires
        lv.wf(),
        close_error(lv, caller, proposal, now1) is None,
        now2 >= lv.proposal_of(proposal).end_ts,
    ensures
        close_error(closed_ledger(lv, proposal), caller, proposal, now2) is None,
        closed_ledger(closed_ledger(lv, proposal), proposal) == closed_ledger(lv, proposal),
        closed_ledger(lv, proposal).proposal_of(proposal).vote_counts == lv.proposal_of(
            proposal,
        ).vote_counts,
{
    let p = lv.proposal_of(proposal);
    let once = closed_ledger(lv, proposal);
    lemma_proposal_index(lv, proposal);
    lemma_close_preserves_wf(lv, proposal);
    assert(once.proposal_of(proposal) == closed_proposal(p));
    assert(closed_proposal(closed_proposal(p)) =~= closed_proposal(p));
    let twice = closed_ledger(once, proposal);
    assert(twice.proposals =~= once.proposals) by {
        assert(once.proposal_index(proposal) == lv.proposal_index(proposal));
    }
    assert(twice =~= once);
}

} // verus!
