//! The durable keyed store and the four operations against it: create,
//! vote, close, delete — each a whole-call transaction that either performs
//! its full effect or leaves the store untouched.

use vstd::prelude::*;
use crate::errors::VotingError;
use crate::records::{
    CloseProposal, CreateProposal, DeleteProposal, Proposal, ProposalClosed, ProposalCreated,
    ProposalView, Vote, VoteCast, VoteProposal,
};
use crate::records::{create_error, created_proposal};
use crate::records::{MAX_DESCRIPTION_LEN, MAX_OPTIONS, MAX_OPTION_LEN, MIN_OPTIONS};

verus! {

/// The durable keyed store the core runs against: proposal records under
/// their opaque identifiers, and vote records under their (proposal, voter)
/// pair. The store is the sole point of concurrency control; here each
/// operation is one call on an exclusive borrow, which models the single
/// global sequential ordering of transactions.
pub struct VotingLedger {
    proposals: Vec<(u64, Proposal)>,
    votes: Vec<Vote>,
}

/// The mathematical value of a [`VotingLedger`]: the stored proposals as a
/// keyed sequence, and every vote record ever accepted.
#[verifier::ext_equal]
pub struct LedgerView {
    pub proposals: Seq<(u64, ProposalView)>,
    pub votes: Seq<Vote>,
}

impl View for VotingLedger {
    type V = LedgerView;

    closed spec fn view(&self) -> LedgerView {
        LedgerView {
            proposals: self.proposals@.map_values(|e: (u64, Proposal)| (e.0, e.1@)),
            votes: self.votes@,
        }
    }
}

/// How many votes in `votes` target option `k` of proposal `proposal`.
pub open spec fn count_matching(votes: Seq<Vote>, proposal: u64, k: int) -> nat
    decreases votes.len(),
{
    if votes.len() == 0 {
        0
    } else {
        count_matching(votes.drop_last(), proposal, k) + if votes.last().proposal == proposal
            && votes.last().option_index == k {
            1nat
        } else {
            0nat
        }
    }
}

impl LedgerView {
    /// A proposal record exists under `proposal`.
    pub open spec fn has_proposal(self, proposal: u64) -> bool {
        exists|i: int| 0 <= i < self.proposals.len() && self.proposals[i].0 == proposal
    }

    /// Where the record keyed by `proposal` sits; meaningful only when
    /// `has_proposal` holds (keys are unique, so the position is unique).
    pub open spec fn proposal_index(self, proposal: u64) -> int {
        choose|i: int| 0 <= i < self.proposals.len() && self.proposals[i].0 == proposal
    }

    /// The proposal record keyed by `proposal`.
    pub open spec fn proposal_of(self, proposal: u64) -> ProposalView {
        self.proposals[self.proposal_index(proposal)].1
    }

    /// A vote record exists under the (proposal, voter) pair.
    pub open spec fn has_vote(self, proposal: u64, voter: u64) -> bool {
        exists|i: int|
            0 <= i < self.votes.len() && self.votes[i].proposal == proposal
                && self.votes[i].voter == voter
    }

    /// An identifier the store has never handed out: no proposal record and
    /// no vote record mentions it. The host ledger assigns addresses and
    /// never reuses one, so a create always runs under such a key.
    pub open spec fn fresh_id(self, proposal: u64) -> bool {
        &&& !self.has_proposal(proposal)
        &&& forall|i: int| 0 <= i < self.votes.len() ==> (#[trigger] self.votes[i]).proposal != proposal
    }

    /// Proposal keys are unique: the store rejects a second record under an
    /// existing key.
    pub open spec fn proposal_keys_unique(self) -> bool {
        forall|i: int, j: int|
            0 <= i < j < self.proposals.len() ==> (#[trigger] self.proposals[i]).0
                != (#[trigger] self.proposals[j]).0
    }

    /// Vote keys are unique: at most one vote record per (proposal, voter)
    /// pair. This is the one-vote-per-voter rule.
    pub open spec fn vote_keys_unique(self) -> bool {
        forall|i: int, j: int|
            0 <= i < j < self.votes.len() ==> !((#[trigger] self.votes[i]).proposal
                == (#[trigger] self.votes[j]).proposal && self.votes[i].voter
                == self.votes[j].voter)
    }

    /// Every stored proposal keeps its creation-time shape.
    pub open spec fn proposals_wf(self) -> bool {
        forall|i: int| 0 <= i < self.proposals.len() ==> (#[trigger] self.proposals[i]).1.wf()
    }

    /// Every vote on a still-stored proposal names one of its options.
    pub open spec fn vote_indices_in_range(self) -> bool {
        forall|i: int|
            0 <= i < self.votes.len() && self.has_proposal((#[trigger] self.votes[i]).proposal)
                ==> (self.votes[i].option_index as int) < self.proposal_of(
                self.votes[i].proposal,
            ).options.len()
    }

    /// Every tally cell equals the number of vote records for its option:
    /// the counters and the vote records never drift apart.
    pub open spec fn tallies_consistent(self) -> bool {
        forall|i: int, k: int|
            0 <= i < self.proposals.len() && 0 <= k < self.proposals[i].1.vote_counts.len()
                ==> (#[trigger] self.proposals[i].1.vote_counts[k]) == count_matching(
                self.votes,
                self.proposals[i].0,
                k,
            )
    }

    /// The ledger invariant: established by [`VotingLedger::new`] and kept by
    /// every operation.
    pub open spec fn wf(self) -> bool {
        &&& self.proposal_keys_unique()
        &&& self.vote_keys_unique()
        &&& self.proposals_wf()
        &&& self.vote_indices_in_range()
        &&& self.tallies_consistent()
    }
}

/// With unique keys, `proposal_index` is the one position holding `proposal`.
pub proof fn lemma_proposal_index(lv: LedgerView, proposal: u64)
    requires
        lv.proposal_keys_unique(),
        lv.has_proposal(proposal),
    ensures
        0 <= lv.proposal_index(proposal) < lv.proposals.len(),
        lv.proposals[lv.proposal_index(proposal)].0 == proposal,
        forall|j: int|
            0 <= j < lv.proposals.len() && (#[trigger] lv.proposals[j]).0 == proposal ==> j
                == lv.proposal_index(proposal),
{
    let idx = lv.proposal_index(proposal);
    assert(0 <= idx < lv.proposals.len() && lv.proposals[idx].0 == proposal);
    assert forall|j: int|
        0 <= j < lv.proposals.len() && (#[trigger] lv.proposals[j]).0 == proposal implies j
        == idx by {
        if j < idx {
            assert(lv.proposals[j].0 != lv.proposals[idx].0);
        } else if idx < j {
            assert(lv.proposals[idx].0 != lv.proposals[j].0);
        }
    }
}

/// Appending a vote raises exactly the matching count, by one.
proof fn lemma_count_matching_push(votes: Seq<Vote>, v: Vote, proposal: u64, k: int)
    ensures
        count_matching(votes.push(v), proposal, k) == count_matching(votes, proposal, k)
            + if v.proposal == proposal && v.option_index == k {
            1nat
        } else {
            0nat
        },
{
    assert(votes.push(v).drop_last() =~= votes);
    assert(votes.push(v).last() == v);
}

/// No sequence of votes outnumbers its own length on any option.
proof fn lemma_count_matching_le_len(votes: Seq<Vote>, proposal: u64, k: int)
    ensures
        count_matching(votes, proposal, k) <= votes.len(),
    decreases votes.len(),
{
    if votes.len() > 0 {
        lemma_count_matching_le_len(votes.drop_last(), proposal, k);
    }
}

/// Votes that never mention a proposal contribute nothing to its counts.
proof fn lemma_count_matching_none(votes: Seq<Vote>, proposal: u64, k: int)
    requires
        forall|i: int| 0 <= i < votes.len() ==> (#[trigger] votes[i]).proposal != proposal,
    ensures
        count_matching(votes, proposal, k) == 0,
    decreases votes.len(),
{
    if votes.len() > 0 {
        assert(votes.last() == votes[votes.len() - 1]);
        lemma_count_matching_none(votes.drop_last(), proposal, k);
    }
}

impl VotingLedger {
    /// An empty store: no proposals, no votes.
    pub fn new() -> (l: VotingLedger)
        ensures
            l@.wf(),
            l@.proposals.len() == 0,
            l@.votes.len() == 0,
    {
        VotingLedger { proposals: Vec::new(), votes: Vec::new() }
    }
}

/// Linear scan for the record keyed by `proposal`.
fn find_proposal(proposals: &Vec<(u64, Proposal)>, proposal: u64) -> (r: Option<usize>)
    ensures
        match r {
            Some(i) => i < proposals@.len() && proposals@[i as int].0 == proposal,
            None => forall|j: int| 0 <= j < proposals@.len() ==> (#[trigger] proposals@[j]).0 != proposal,
        },
{
    let n = proposals.len();
    let mut i: usize = 0;
    while i < n
        invariant
            n == proposals@.len(),
            i <= n,
            forall|j: int| 0 <= j < i ==> (#[trigger] proposals@[j]).0 != proposal,
        decreases n - i,
    {
        if proposals[i].0 == proposal {
            return Some(i);
        }
        i = i + 1;
    }
    None
}

/// Creates a proposal: validates the inputs, stores the record under the
/// fresh key `ctx.proposal`, and reports the creation event. Rejections touch
/// nothing. On success the stored record starts active, with a zero tally
/// cell per option and the window `[now, now + duration_sec)`. The callers
/// owe only what the machine forces: the key is fresh from the store, and
/// the window's end fits the timestamp type.
#[verifier::loop_isolation(false)]
pub fn create_proposal(
    ledger: &mut VotingLedger,
    ctx: CreateProposal,
    description: String,
    options: Vec<String>,
    duration_sec: i64,
    now: i64,
) -> (r: Result<ProposalCreated, VotingError>)
    requires
        old(ledger)@.wf(),
        old(ledger)@.fresh_id(ctx.proposal),
        duration_sec > 0 ==> now + duration_sec <= i64::MAX,
    ensures
        final(ledger)@.wf(),
        r is Ok <==> create_error(description@, options.deep_view(), duration_sec) is None,
        (r matches Err(e) ==> {
            &&& final(ledger)@ == old(ledger)@
            &&& Some(e) == create_error(description@, options.deep_view(), duration_sec)
        }),
        (r matches Ok(ev) ==> {
            &&& final(ledger)@.proposals == old(ledger)@.proposals.push(
                (
                    ctx.proposal,
                    created_proposal(
                        ctx.creator,
                        description@,
                        options.deep_view(),
                        duration_sec,
                        now,
                    ),
                ),
            )
            &&& final(ledger)@.votes == old(ledger)@.votes
            &&& final(ledger)@.has_proposal(ctx.proposal)
            &&& final(ledger)@.proposal_of(ctx.proposal).vote_counts.len()
                == options.deep_view().len()
            &&& forall|k: int|
                0 <= k < options.deep_view().len() ==> final(ledger)@.proposal_of(
                    ctx.proposal,
                ).vote_counts[k] == 0
            &&& ev.proposal == ctx.proposal
            &&& ev.creator == ctx.creator
            &&& ev.start_ts == now
            &&& ev.end_ts == now + duration_sec
            &&& ev.num_options == options.deep_view().len()
        }),
{
    if description.as_str().unicode_len() > MAX_DESCRIPTION_LEN {
        return Err(VotingError::DescriptionTooLong);
    }
    if duration_sec <= 0 {
        return Err(VotingError::InvalidDuration);
    }
    if options.len() < MIN_OPTIONS {
        return Err(VotingError::NotEnoughOptions);
    }
    if options.len() > MAX_OPTIONS {
        return Err(VotingError::TooManyOptions);
    }
    let n = options.len();
    let mut i: usize = 0;
    while i < n
        invariant
            *ledger == *old(ledger),
            n == options@.len(),
            i <= n,
            forall|j: int| 0 <= j < i ==> (#[trigger] options.deep_view()[j]).len() <= MAX_OPTION_LEN,
        decreases n - i,
    {
        if options[i].as_str().unicode_len() > MAX_OPTION_LEN {
            assert(options.deep_view()[i as int].len() > MAX_OPTION_LEN);
            return Err(VotingError::OptionTooLong);
        }
        i = i + 1;
    }
    assert(create_error(description@, options.deep_view(), duration_sec) is None);
    let mut vote_counts: Vec<u64> = Vec::new();
    let mut j: usize = 0;
    while j < n
        invariant
            *ledger == *old(ledger),
            j <= n,
            vote_counts@.len() == j,
            forall|t: int| 0 <= t < j ==> vote_counts@[t] == 0u64,
        decreases n - j,
    {
        vote_counts.push(0);
        j = j + 1;
    }
    let end_ts = now + duration_sec;
    let record = Proposal {
        creator: ctx.creator,
        description,
        options,
        vote_counts,
        is_active: true,
        start_ts: now,
        end_ts,
    };
    let ghost stored = created_proposal(
        ctx.creator,
        description@,
        options.deep_view(),
        duration_sec,
        now,
    );
    proof {
        assert(record@.vote_counts =~= stored.vote_counts);
        assert(record@ =~= stored);
    }
    let ghost pre = ledger@;
    ledger.proposals.push((ctx.proposal, record));
    proof {
        assert(ledger@.proposals =~= pre.proposals.push((ctx.proposal, stored)));
        assert(ledger@.votes == pre.votes);
        lemma_create_preserves_wf(pre, ctx.proposal, stored);
        let post = ledger@;
        assert(post.proposals[post.proposals.len() - 1].0 == ctx.proposal);
        lemma_proposal_index(post, ctx.proposal);
        assert(post.proposal_of(ctx.proposal) == stored);
    }
    Ok(ProposalCreated {
        proposal: ctx.proposal,
        creator: ctx.creator,
        start_ts: now,
        end_ts,
        num_options: n as u8,
    })
}

/// Pushing a well-formed record under a fresh key keeps the ledger invariant.
proof fn lemma_create_preserves_wf(lv: LedgerView, proposal: u64, record: ProposalView)
    requires
        lv.wf(),
        lv.fresh_id(proposal),
        record.wf(),
        forall|k: int| 0 <= k < record.vote_counts.len() ==> record.vote_counts[k] == 0,
    ensures
        (LedgerView { proposals: lv.proposals.push((proposal, record)), votes: lv.votes }).wf(),
{
    let post = LedgerView { proposals: lv.proposals.push((proposal, record)), votes: lv.votes };
    let m = lv.proposals.len() as int;
    assert forall|i: int, j: int| 0 <= i < j < post.proposals.len() implies (#[trigger] post
        .proposals[i]).0 != (#[trigger] post.proposals[j]).0 by {
        if j < m {
            assert(lv.proposals[i].0 != lv.proposals[j].0);
        } else {
            // j is the new record; its key is fresh, so no earlier key equals it
            assert(post.proposals[j].0 == proposal);
            if lv.proposals[i].0 == proposal {
                assert(lv.has_proposal(proposal));
            }
        }
    }
    // every proposal that existed keeps its record and its position
    assert forall|q: u64| q != proposal && lv.has_proposal(q) implies post.has_proposal(q)
        && post.proposal_of(q) == lv.proposal_of(q) by {
        lemma_proposal_index(lv, q);
        let i = lv.proposal_index(q);
        assert(post.proposals[i].0 == q);
        assert(post.has_proposal(q));
        lemma_proposal_index(post, q);
        assert(post.proposal_index(q) == i);
    }
    assert(post.proposals[m].0 == proposal);
    assert(post.has_proposal(proposal));
    lemma_proposal_index(post, proposal);
    assert(post.proposal_of(proposal) == record);
    assert forall|i: int|
        0 <= i < post.votes.len() && post.has_proposal((#[trigger] post.votes[i]).proposal)
        implies (post.votes[i].option_index as int) < post.proposal_of(
        post.votes[i].proposal,
    ).options.len() by {
        let q = post.votes[i].proposal;
        assert(q != proposal);
        assert(lv.has_proposal(q) == post.has_proposal(q)) by {
            if post.has_proposal(q) {
                let w = post.proposal_index(q);
                lemma_proposal_index(post, q);
                assert(w < m);
                assert(lv.proposals[w].0 == q);
            }
        }
    }
    assert forall|i: int, k: int|
        0 <= i < post.proposals.len() && 0 <= k < post.proposals[i].1.vote_counts.len() implies (
    #[trigger] post.proposals[i].1.vote_counts[k]) == count_matching(
        post.votes,
        post.proposals[i].0,
        k,
    ) by {
        if i < m {
            assert(lv.proposals[i].1.vote_counts[k] == count_matching(
                lv.votes,
                lv.proposals[i].0,
                k,
            ));
        } else {
            lemma_count_matching_none(post.votes, proposal, k);
        }
    }
}

/// The first vote check that fails, in the order the checks run, or `None`
/// when the cast is accepted.
pub open spec fn vote_error(
    lv: LedgerView,
    proposal: u64,
    voter: u64,
    option_index: u8,
    now: i64,
) -> Option<VotingError> {
    if !lv.has_proposal(proposal) {
        Some(VotingError::ProposalNotFound)
    } else if !lv.proposal_of(proposal).is_active {
        Some(VotingError::ProposalClosed)
    } else if now >= lv.proposal_of(proposal).end_ts {
        Some(VotingError::DeadlinePassed)
    } else if lv.proposal_of(proposal).options.len() <= option_index {
        Some(VotingError::InvalidOption)
    } else if lv.has_vote(proposal, voter) {
        Some(VotingError::DuplicateVote)
    } else {
        None
    }
}

/// A proposal record with one more ballot on option `k`.
pub open spec fn with_vote_added(p: ProposalView, k: int) -> ProposalView {
    ProposalView { vote_counts: p.vote_counts.update(k, (p.vote_counts[k] + 1) as u64), ..p }
}

/// The ledger after a successful cast: the vote record appended under its
/// (proposal, voter) key, and the matching tally cell raised by one.
pub open spec fn voted_ledger(
    lv: LedgerView,
    proposal: u64,
    voter: u64,
    option_index: u8,
) -> LedgerView {
    LedgerView {
        proposals: lv.proposals.update(
            lv.proposal_index(proposal),
            (proposal, with_vote_added(lv.proposal_of(proposal), option_index as int)),
        ),
        votes: lv.votes.push(Vote { proposal, voter, option_index }),
    }
}

/// Replacing one record under its own key moves no other record and changes
/// no lookup.
proof fn lemma_lookup_after_update(pre: LedgerView, post: LedgerView, entry: (u64, ProposalView))
    requires
        pre.proposal_keys_unique(),
        pre.has_proposal(entry.0),
        post.proposals == pre.proposals.update(pre.proposal_index(entry.0), entry),
    ensures
        post.proposal_keys_unique(),
        forall|q: u64| post.has_proposal(q) <==> pre.has_proposal(q),
        forall|q: u64|
            pre.has_proposal(q) ==> post.proposal_index(q) == pre.proposal_index(q),
        post.has_proposal(entry.0),
        post.proposal_of(entry.0) == entry.1,
        forall|q: u64|
            q != entry.0 && pre.has_proposal(q) ==> post.proposal_of(q) == pre.proposal_of(q),
{
    lemma_proposal_index(pre, entry.0);
    let idx = pre.proposal_index(entry.0);
    assert forall|j: int| 0 <= j < post.proposals.len() implies (#[trigger] post.proposals[j]).0
        == pre.proposals[j].0 by {}
    assert forall|q: u64| post.has_proposal(q) <==> pre.has_proposal(q) by {
        if pre.has_proposal(q) {
            let w = pre.proposal_index(q);
            lemma_proposal_index(pre, q);
            assert(post.proposals[w].0 == q);
        }
        if post.has_proposal(q) {
            let w = choose|i: int| 0 <= i < post.proposals.len() && post.proposals[i].0 == q;
            assert(pre.proposals[w].0 == q);
        }
    }
    assert forall|q: u64| pre.has_proposal(q) implies post.proposal_index(q)
        == pre.proposal_index(q) by {
        lemma_proposal_index(pre, q);
        let w = pre.proposal_index(q);
        assert(post.proposals[w].0 == q);
        lemma_proposal_index(post, q);
    }
}

/// Recording an admissible vote keeps the ledger invariant.
proof fn lemma_vote_preserves_wf(lv: LedgerView, proposal: u64, voter: u64, option_index: u8)
    requires
        lv.wf(),
        lv.has_proposal(proposal),
        (option_index as int) < lv.proposal_of(proposal).options.len(),
        !lv.has_vote(proposal, voter),
        lv.proposal_of(proposal).vote_counts[option_index as int] < u64::MAX,
    ensures
        voted_ledger(lv, proposal, voter, option_index).wf(),
{
    let post = voted_ledger(lv, proposal, voter, option_index);
    let v = Vote { proposal, voter, option_index };
    let idx = lv.proposal_index(proposal);
    let p = lv.proposal_of(proposal);
    let bumped = with_vote_added(p, option_index as int);
    lemma_proposal_index(lv, proposal);
    lemma_lookup_after_update(lv, post, (proposal, bumped));
    // one vote per pair: the new record's key was absent
    assert forall|i: int, j: int| 0 <= i < j < post.votes.len() implies !((#[trigger] post
        .votes[i]).proposal == (#[trigger] post.votes[j]).proposal && post.votes[i].voter
        == post.votes[j].voter) by {
        if j == lv.votes.len() {
            assert(post.votes[i] == lv.votes[i]);
            if lv.votes[i].proposal == proposal && lv.votes[i].voter == voter {
                assert(lv.has_vote(proposal, voter));
            }
        }
    }
    assert forall|i: int|
        0 <= i < post.votes.len() && post.has_proposal((#[trigger] post.votes[i]).proposal)
        implies (post.votes[i].option_index as int) < post.proposal_of(
        post.votes[i].proposal,
    ).options.len() by {
        let q = post.votes[i].proposal;
        if i < lv.votes.len() {
            assert(post.votes[i] == lv.votes[i]);
            if q == proposal {
                assert(post.proposal_of(q).options == p.options);
            }
        } else {
            assert(post.votes[i] == v);
            assert(post.proposal_of(proposal).options == p.options);
        }
    }
    assert forall|i: int, k: int|
        0 <= i < post.proposals.len() && 0 <= k < post.proposals[i].1.vote_counts.len() implies (
    #[trigger] post.proposals[i].1.vote_counts[k]) == count_matching(
        post.votes,
        post.proposals[i].0,
        k,
    ) by {
        let q = post.proposals[i].0;
        lemma_count_matching_push(lv.votes, v, q, k);
        assert(lv.proposals[i].0 == q);
        if i == idx {
            assert(post.proposals[i].1 == bumped);
            assert(lv.proposals[i].1 == p);
            assert(lv.proposals[i].1.vote_counts[k] == count_matching(lv.votes, q, k));
        } else {
            // a different record: its key differs, so the new vote is not its
            assert(post.proposals[i] == lv.proposals[i]);
            assert(lv.proposals[i].1.vote_counts[k] == count_matching(lv.votes, q, k));
            assert(q != proposal) by {
                lemma_proposal_index(lv, proposal);
            }
        }
    }
}

/// Casts a vote: checks the proposal is open and the deadline not passed,
/// rejects a second vote under the same (proposal, voter) key, then — as one
/// step — appends the vote record and raises the chosen tally cell by one.
/// The one machine bound callers owe: the store holds fewer than `u64::MAX`
/// vote records, so no tally cell can wrap.
#[verifier::loop_isolation(false)]
pub fn vote(
    ledger: &mut VotingLedger,
    ctx: VoteProposal,
    option_index: u8,
    now: i64,
) -> (r: Result<VoteCast, VotingError>)
    requires
        old(ledger)@.wf(),
        old(ledger)@.votes.len() < u64::MAX,
    ensures
        final(ledger)@.wf(),
        r is Ok <==> vote_error(old(ledger)@, ctx.proposal, ctx.voter, option_index, now) is None,
        (r matches Err(e) ==> {
            &&& final(ledger)@ == old(ledger)@
            &&& Some(e) == vote_error(old(ledger)@, ctx.proposal, ctx.voter, option_index, now)
        }),
        (r matches Ok(ev) ==> {
            &&& final(ledger)@ == voted_ledger(old(ledger)@, ctx.proposal, ctx.voter, option_index)
            &&& final(ledger)@.has_proposal(ctx.proposal)
            &&& final(ledger)@.proposal_of(ctx.proposal) == with_vote_added(
                old(ledger)@.proposal_of(ctx.proposal),
                option_index as int,
            )
            &&& final(ledger)@.has_vote(ctx.proposal, ctx.voter)
            &&& ev.proposal == ctx.proposal
            &&& ev.voter == ctx.voter
            &&& ev.option_index == option_index
        }),
{
    let ghost pre = ledger@;
    let i = match find_proposal(&ledger.proposals, ctx.proposal) {
        Some(i) => i,
        None => {
            proof {
                assert forall|j: int| 0 <= j < pre.proposals.len() implies (#[trigger] pre
                    .proposals[j]).0 != ctx.proposal by {
                    assert(pre.proposals[j].0 == ledger.proposals@[j].0);
                }
            }
            return Err(VotingError::ProposalNotFound);
        },
    };
    proof {
        assert(pre.proposals[i as int].0 == ctx.proposal);
        lemma_proposal_index(pre, ctx.proposal);
        assert(pre.proposal_index(ctx.proposal) == i);
        assert(pre.proposal_of(ctx.proposal) == ledger.proposals@[i as int].1@);
    }
    if !ledger.proposals[i].1.is_active {
        return Err(VotingError::ProposalClosed);
    }
    if now >= ledger.proposals[i].1.end_ts {
        return Err(VotingError::DeadlinePassed);
    }
    let k = option_index as usize;
    if k >= ledger.proposals[i].1.options.len() {
        return Err(VotingError::InvalidOption);
    }
    if vote_exists(&ledger.votes, ctx.proposal, ctx.voter) {
        return Err(VotingError::DuplicateVote);
    }
    let mut entry = ledger.proposals.remove(i);
    let c = entry.1.vote_counts[k];
    proof {
        assert(c == pre.proposal_of(ctx.proposal).vote_counts[k as int]);
        assert(c == count_matching(pre.votes, ctx.proposal, k as int));
        lemma_count_matching_le_len(pre.votes, ctx.proposal, k as int);
    }
    entry.1.vote_counts[k] = c + 1;
    ledger.proposals.insert(i, entry);
    ledger.votes.push(Vote { proposal: ctx.proposal, voter: ctx.voter, option_index });
    proof {
        let post = voted_ledger(pre, ctx.proposal, ctx.voter, option_index);
        assert(entry.1@ =~= with_vote_added(pre.proposal_of(ctx.proposal), k as int));
        assert(ledger.proposals@ =~= old(ledger).proposals@.update(
            i as int,
            (ctx.proposal, entry.1),
        ));
        assert(ledger@.proposals =~= post.proposals);
        assert(ledger@.votes =~= post.votes);
        assert(ledger@ =~= post);
        lemma_vote_preserves_wf(pre, ctx.proposal, ctx.voter, option_index);
        let idx = pre.proposal_index(ctx.proposal);
        assert(post.proposals[idx].0 == ctx.proposal);
        assert(post.has_proposal(ctx.proposal));
        lemma_proposal_index(post, ctx.proposal);
        assert(post.proposal_of(ctx.proposal) == with_vote_added(
            pre.proposal_of(ctx.proposal),
            k as int,
        ));
        assert(post.votes[post.votes.len() - 1] == Vote {
            proposal: ctx.proposal,
            voter: ctx.voter,
            option_index,
        });
        assert(post.has_vote(ctx.proposal, ctx.voter));
    }
    Ok(VoteCast { proposal: ctx.proposal, voter: ctx.voter, option_index })
}

/// The first close check that fails, in the order the checks run, or `None`
/// when the close is accepted. A close does not test the activity flag, so a
/// repeated close passes the same gates again and lands as a benign no-op.
pub open spec fn close_error(lv: LedgerView, caller: u64, proposal: u64, now: i64) -> Option<
    VotingError,
> {
    if !lv.has_proposal(proposal) {
        Some(VotingError::ProposalNotFound)
    } else if lv.proposal_of(proposal).creator != caller {
        Some(VotingError::Unauthorized)
    } else if now < lv.proposal_of(proposal).end_ts {
        Some(VotingError::TooEarlyToClose)
    } else {
        None
    }
}

/// A proposal record with its activity flag cleared; every other field,
/// the tally included, is kept.
pub open spec fn closed_proposal(p: ProposalView) -> ProposalView {
    ProposalView { is_active: false, ..p }
}

/// The ledger after a successful close.
pub open spec fn closed_ledger(lv: LedgerView, proposal: u64) -> LedgerView {
    LedgerView {
        proposals: lv.proposals.update(
            lv.proposal_index(proposal),
            (proposal, closed_proposal(lv.proposal_of(proposal))),
        ),
        ..lv
    }
}

/// Clearing an activity flag keeps the ledger invariant.
pub(crate) proof fn lemma_close_preserves_wf(lv: LedgerView, proposal: u64)
    requires
        lv.wf(),
        lv.has_proposal(proposal),
    ensures
        closed_ledger(lv, proposal).wf(),
        closed_ledger(lv, proposal).has_proposal(proposal),
        closed_ledger(lv, proposal).proposal_index(proposal) == lv.proposal_index(proposal),
        closed_ledger(lv, proposal).proposal_of(proposal) == closed_proposal(
            lv.proposal_of(proposal),
        ),
        forall|q: u64|
            closed_ledger(lv, proposal).has_proposal(q) <==> lv.has_proposal(q),
        forall|q: u64|
            q != proposal && lv.has_proposal(q) ==> closed_ledger(lv, proposal).proposal_of(q)
                == lv.proposal_of(q),
{
    let post = closed_ledger(lv, proposal);
    let p = lv.proposal_of(proposal);
    lemma_proposal_index(lv, proposal);
    lemma_lookup_after_update(lv, post, (proposal, closed_proposal(p)));
    assert forall|i: int|
        0 <= i < post.votes.len() && post.has_proposal((#[trigger] post.votes[i]).proposal)
        implies (post.votes[i].option_index as int) < post.proposal_of(
        post.votes[i].proposal,
    ).options.len() by {
        let q = post.votes[i].proposal;
        if q == proposal {
            assert(post.proposal_of(q).options == p.options);
        }
    }
    assert forall|i: int, k: int|
        0 <= i < post.proposals.len() && 0 <= k < post.proposals[i].1.vote_counts.len() implies (
    #[trigger] post.proposals[i].1.vote_counts[k]) == count_matching(
        post.votes,
        post.proposals[i].0,
        k,
    ) by {
        assert(lv.proposals[i].0 == post.proposals[i].0);
        assert(post.proposals[i].1.vote_counts == lv.proposals[i].1.vote_counts);
        assert(lv.proposals[i].1.vote_counts[k] == count_matching(lv.votes, lv.proposals[i].0, k));
    }
}

/// Closes a proposal: only the creator may close, only once the deadline has
/// passed. Clears the activity flag — everything else, the tally included,
/// is kept — and reports the final tally snapshot. Repeating a successful
/// close re-runs the same gates and rewrites the same record: a benign no-op.
#[verifier::loop_isolation(false)]
pub fn close_proposal(
    ledger: &mut VotingLedger,
    ctx: CloseProposal,
    now: i64,
) -> (r: Result<ProposalClosed, VotingError>)
    requires
        old(ledger)@.wf(),
    ensures
        final(ledger)@.wf(),
        r is Ok <==> close_error(old(ledger)@, ctx.creator, ctx.proposal, now) is None,
        (r matches Err(e) ==> {
            &&& final(ledger)@ == old(ledger)@
            &&& Some(e) == close_error(old(ledger)@, ctx.creator, ctx.proposal, now)
        }),
        (r matches Ok(ev) ==> {
            &&& final(ledger)@ == closed_ledger(old(ledger)@, ctx.proposal)
            &&& final(ledger)@.has_proposal(ctx.proposal)
            &&& final(ledger)@.proposal_of(ctx.proposal) == closed_proposal(
                old(ledger)@.proposal_of(ctx.proposal),
            )
            &&& ev.proposal == ctx.proposal
            &&& ev.vote_counts@ == old(ledger)@.proposal_of(ctx.proposal).vote_counts
            &&& ev.end_ts == old(ledger)@.proposal_of(ctx.proposal).end_ts
        }),
{
    let ghost pre = ledger@;
    let i = match find_proposal(&ledger.proposals, ctx.proposal) {
        Some(i) => i,
        None => {
            proof {
                assert forall|j: int| 0 <= j < pre.proposals.len() implies (#[trigger] pre
                    .proposals[j]).0 != ctx.proposal by {
                    assert(pre.proposals[j].0 == ledger.proposals@[j].0);
                }
            }
            return Err(VotingError::ProposalNotFound);
        },
    };
    proof {
        assert(pre.proposals[i as int].0 == ctx.proposal);
        lemma_proposal_index(pre, ctx.proposal);
        assert(pre.proposal_of(ctx.proposal) == ledger.proposals@[i as int].1@);
    }
    if ledger.proposals[i].1.creator != ctx.creator {
        return Err(VotingError::Unauthorized);
    }
    if now < ledger.proposals[i].1.end_ts {
        return Err(VotingError::TooEarlyToClose);
    }
    let mut entry = ledger.proposals.remove(i);
    entry.1.is_active = false;
    let snapshot = copy_counts(&entry.1.vote_counts);
    let end_ts = entry.1.end_ts;
    ledger.proposals.insert(i, entry);
    proof {
        let post = closed_ledger(pre, ctx.proposal);
        assert(entry.1@ =~= closed_proposal(pre.proposal_of(ctx.proposal)));
        assert(ledger.proposals@ =~= old(ledger).proposals@.update(
            i as int,
            (ctx.proposal, entry.1),
        ));
        assert(ledger@.proposals =~= post.proposals);
        assert(ledger@ =~= post);
        lemma_close_preserves_wf(pre, ctx.proposal);
    }
    Ok(ProposalClosed { proposal: ctx.proposal, vote_counts: snapshot, end_ts })
}

/// The first delete check that fails, in the order the checks run, or `None`
/// when the delete is accepted.
pub open spec fn delete_error(lv: LedgerView, caller: u64, proposal: u64) -> Option<VotingError> {
    if !lv.has_proposal(proposal) {
        Some(VotingError::ProposalNotFound)
    } else if lv.proposal_of(proposal).creator != caller {
        Some(VotingError::Unauthorized)
    } else if lv.proposal_of(proposal).is_active {
        Some(VotingError::ProposalStillActive)
    } else {
        None
    }
}

/// The ledger after a successful delete: the proposal record is gone; vote
/// records are never deleted by this core.
pub open spec fn deleted_ledger(lv: LedgerView, proposal: u64) -> LedgerView {
    LedgerView { proposals: lv.proposals.remove(lv.proposal_index(proposal)), ..lv }
}

/// Removing one record under its key keeps the invariant and leaves every
/// other record in place.
proof fn lemma_delete_preserves_wf(lv: LedgerView, proposal: u64)
    requires
        lv.wf(),
        lv.has_proposal(proposal),
    ensures
        deleted_ledger(lv, proposal).wf(),
        !deleted_ledger(lv, proposal).has_proposal(proposal),
        forall|q: u64|
            q != proposal ==> (deleted_ledger(lv, proposal).has_proposal(q) <==> lv.has_proposal(
                q,
            )),
        forall|q: u64|
            q != proposal && lv.has_proposal(q) ==> deleted_ledger(lv, proposal).proposal_of(q)
                == lv.proposal_of(q),
{
    let post = deleted_ledger(lv, proposal);
    lemma_proposal_index(lv, proposal);
    let idx = lv.proposal_index(proposal);
    // each surviving position holds the old record from before or after idx
    assert forall|j: int| 0 <= j < post.proposals.len() implies #[trigger] post.proposals[j] == (
    if j < idx {
        lv.proposals[j]
    } else {
        lv.proposals[j + 1]
    }) by {}
    assert(post.proposal_keys_unique());
    if post.has_proposal(proposal) {
        let w = choose|i: int|
            0 <= i < post.proposals.len() && post.proposals[i].0 == proposal;
        assert(if w < idx {
            lv.proposals[w].0 == proposal
        } else {
            lv.proposals[w + 1].0 == proposal
        });
        assert(false);
    }
    assert forall|q: u64| q != proposal && lv.has_proposal(q) implies post.has_proposal(q)
        && post.proposal_of(q) == lv.proposal_of(q) by {
        lemma_proposal_index(lv, q);
        let w = lv.proposal_index(q);
        if w < idx {
            assert(post.proposals[w].0 == q);
        } else {
            assert(w > idx);
            assert(post.proposals[w - 1].0 == q);
        }
        assert(post.has_proposal(q));
        lemma_proposal_index(post, q);
    }
    assert forall|q: u64| post.has_proposal(q) implies q == proposal || lv.has_proposal(q) by {
        let w = choose|i: int| 0 <= i < post.proposals.len() && post.proposals[i].0 == q;
        if w < idx {
            assert(lv.proposals[w].0 == q);
        } else {
            assert(lv.proposals[w + 1].0 == q);
        }
    }
    assert forall|i: int, k: int|
        0 <= i < post.proposals.len() && 0 <= k < post.proposals[i].1.vote_counts.len() implies (
    #[trigger] post.proposals[i].1.vote_counts[k]) == count_matching(
        post.votes,
        post.proposals[i].0,
        k,
    ) by {
        if i < idx {
            assert(lv.proposals[i].1.vote_counts[k] == count_matching(
                lv.votes,
                lv.proposals[i].0,
                k,
            ));
        } else {
            assert(lv.proposals[i + 1].1.vote_counts[k] == count_matching(
                lv.votes,
                lv.proposals[i + 1].0,
                k,
            ));
        }
    }
}

/// Deletes a closed proposal: only the creator may delete, and only after a
/// close. The record leaves the store for good; a later read misses. The
/// released storage goes back to the creator outside this core.
#[verifier::loop_isolation(false)]
pub fn delete_proposal(
    ledger: &mut VotingLedger,
    ctx: DeleteProposal,
) -> (r: Result<(), VotingError>)
    requires
        old(ledger)@.wf(),
    ensures
        final(ledger)@.wf(),
        r is Ok <==> delete_error(old(ledger)@, ctx.creator, ctx.proposal) is None,
        (r matches Err(e) ==> {
            &&& final(ledger)@ == old(ledger)@
            &&& Some(e) == delete_error(old(ledger)@, ctx.creator, ctx.proposal)
        }),
        (r is Ok ==> {
            &&& final(ledger)@ == deleted_ledger(old(ledger)@, ctx.proposal)
            &&& !final(ledger)@.has_proposal(ctx.proposal)
            &&& final(ledger)@.votes == old(ledger)@.votes
        }),
{
    let ghost pre = ledger@;
    let i = match find_proposal(&ledger.proposals, ctx.proposal) {
        Some(i) => i,
        None => {
            proof {
                assert forall|j: int| 0 <= j < pre.proposals.len() implies (#[trigger] pre
                    .proposals[j]).0 != ctx.proposal by {
                    assert(pre.proposals[j].0 == ledger.proposals@[j].0);
                }
            }
            return Err(VotingError::ProposalNotFound);
        },
    };
    proof {
        assert(pre.proposals[i as int].0 == ctx.proposal);
        lemma_proposal_index(pre, ctx.proposal);
        assert(pre.proposal_of(ctx.proposal) == ledger.proposals@[i as int].1@);
    }
    if ledger.proposals[i].1.creator != ctx.creator {
        return Err(VotingError::Unauthorized);
    }
    if ledger.proposals[i].1.is_active {
        return Err(VotingError::ProposalStillActive);
    }
    let _ = ledger.proposals.remove(i);
    proof {
        assert(ledger@.proposals =~= deleted_ledger(pre, ctx.proposal).proposals);
        assert(ledger@ =~= deleted_ledger(pre, ctx.proposal));
        lemma_delete_preserves_wf(pre, ctx.proposal);
    }
    Ok(())
}

/// Copies a tally, cell for cell.
fn copy_counts(counts: &Vec<u64>) -> (r: Vec<u64>)
    ensures
        r@ == counts@,
{
    let n = counts.len();
    let mut r: Vec<u64> = Vec::new();
    let mut i: usize = 0;
    while i < n
        invariant
            n == counts@.len(),
            i <= n,
            r@ =~= counts@.take(i as int),
        decreases n - i,
    {
        r.push(counts[i]);
        i = i + 1;
    }
    proof {
        assert(r@ =~= counts@);
    }
    r
}

/// Reads the proposal record under `proposal`, if the store holds one.
pub fn get_proposal<'a>(ledger: &'a VotingLedger, proposal: u64) -> (r: Option<&'a Proposal>)
    requires
        ledger@.wf(),
    ensures
        r is Some <==> ledger@.has_proposal(proposal),
        (r matches Some(p) ==> p@ == ledger@.proposal_of(proposal)),
{
    match find_proposal(&ledger.proposals, proposal) {
        Some(i) => {
            proof {
                assert(ledger@.proposals[i as int].0 == proposal);
                lemma_proposal_index(ledger@, proposal);
            }
            Some(&ledger.proposals[i].1)
        },
        None => {
            proof {
                assert forall|j: int| 0 <= j < ledger@.proposals.len() implies (#[trigger] ledger@
                    .proposals[j]).0 != proposal by {
                    assert(ledger@.proposals[j].0 == ledger.proposals@[j].0);
                }
            }
            None
        },
    }
}

/// Reads the vote record under the (proposal, voter) pair, if the store
/// holds one.
pub fn get_vote(ledger: &VotingLedger, proposal: u64, voter: u64) -> (r: Option<Vote>)
    ensures
        r is Some <==> ledger@.has_vote(proposal, voter),
        (r matches Some(v) ==> {
            &&& v.proposal == proposal
            &&& v.voter == voter
            &&& ledger@.votes.contains(v)
        }),
{
    let n = ledger.votes.len();
    let mut i: usize = 0;
    while i < n
        invariant
            n == ledger@.votes.len(),
            i <= n,
            forall|j: int|
                0 <= j < i ==> !((#[trigger] ledger@.votes[j]).proposal == proposal && ledger@
                    .votes[j].voter == voter),
        decreases n - i,
    {
        let v = ledger.votes[i];
        if v.proposal == proposal && v.voter == voter {
            proof {
                assert(ledger@.votes[i as int] == v);
            }
            return Some(v);
        }
        i = i + 1;
    }
    None
}

/// Linear scan for a vote record keyed by the (proposal, voter) pair.
fn vote_exists(votes: &Vec<Vote>, proposal: u64, voter: u64) -> (r: bool)
    ensures
        r == exists|i: int|
            0 <= i < votes@.len() && votes@[i].proposal == proposal && votes@[i].voter == voter,
{
    let n = votes.len();
    let mut i: usize = 0;
    while i < n
        invariant
            n == votes@.len(),
            i <= n,
            forall|j: int|
                0 <= j < i ==> !((#[trigger] votes@[j]).proposal == proposal && votes@[j].voter
                    == voter),
        decreases n - i,
    {
        if votes[i].proposal == proposal && votes[i].voter == voter {
            assert(votes@[i as int].proposal == proposal && votes@[i as int].voter == voter);
            return true;
        }
        i = i + 1;
    }
    false
}

} // verus!
