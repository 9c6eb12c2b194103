use voting_dapp::{
    close_proposal, create_proposal, delete_proposal, get_proposal, get_vote, vote, CloseProposal,
    CreateProposal, DeleteProposal, VoteProposal, VotingError, VotingLedger,
};

fn opts(names: &[&str]) -> Vec<String> {
    names.iter().map(|s| s.to_string()).collect()
}

const CREATOR: u64 = 7;

/// A ledger holding one proposal with options ["A", "B"], created by
/// `CREATOR` at t0 = 1000 with duration 100 under the identifier 1.
fn ledger_with_ab() -> VotingLedger {
    let mut l = VotingLedger::new();
    let r = create_proposal(
        &mut l,
        CreateProposal { proposal: 1, creator: CREATOR },
        "favorite letter".to_string(),
        opts(&["A", "B"]),
        100,
        1000,
    );
    assert!(r.is_ok());
    l
}

#[test]
fn create_zeroes_the_tally() {
    let mut l = VotingLedger::new();
    let r = create_proposal(
        &mut l,
        CreateProposal { proposal: 9, creator: CREATOR },
        "pick one".to_string(),
        opts(&["A", "B", "C"]),
        60,
        500,
    );
    let ev = r.unwrap();
    assert_eq!(ev.proposal, 9);
    assert_eq!(ev.creator, CREATOR);
    assert_eq!(ev.start_ts, 500);
    assert_eq!(ev.end_ts, 560);
    assert_eq!(ev.num_options, 3);
    let p = get_proposal(&l, 9).unwrap();
    assert_eq!(p.vote_counts.len(), p.options.len());
    assert_eq!(p.vote_counts, vec![0, 0, 0]);
    assert!(p.is_active);
    assert_eq!(p.creator, CREATOR);
    assert_eq!(p.description, "pick one");
    assert_eq!(p.start_ts, 500);
    assert_eq!(p.end_ts, 560);
}

#[test]
fn create_rejects_long_description() {
    let mut l = VotingLedger::new();
    let r = create_proposal(
        &mut l,
        CreateProposal { proposal: 1, creator: CREATOR },
        "x".repeat(201),
        opts(&["A", "B"]),
        100,
        1000,
    );
    assert_eq!(r.unwrap_err(), VotingError::DescriptionTooLong);
    assert!(get_proposal(&l, 1).is_none());
}

#[test]
fn create_accepts_description_at_limit() {
    let mut l = VotingLedger::new();
    let r = create_proposal(
        &mut l,
        CreateProposal { proposal: 1, creator: CREATOR },
        "x".repeat(200),
        opts(&["A", "B"]),
        100,
        1000,
    );
    assert!(r.is_ok());
}

#[test]
fn create_rejects_one_option() {
    let mut l = VotingLedger::new();
    let r = create_proposal(
        &mut l,
        CreateProposal { proposal: 1, creator: CREATOR },
        "q".to_string(),
        opts(&["A"]),
        100,
        1000,
    );
    assert_eq!(r.unwrap_err(), VotingError::NotEnoughOptions);
}

#[test]
fn create_rejects_eleven_options() {
    let mut l = VotingLedger::new();
    let r = create_proposal(
        &mut l,
        CreateProposal { proposal: 1, creator: CREATOR },
        "q".to_string(),
        opts(&["a", "b", "c", "d", "e", "f", "g", "h", "i", "j", "k"]),
        100,
        1000,
    );
    assert_eq!(r.unwrap_err(), VotingError::TooManyOptions);
}

#[test]
fn create_accepts_two_and_ten_options() {
    let mut l = VotingLedger::new();
    assert!(create_proposal(
        &mut l,
        CreateProposal { proposal: 1, creator: CREATOR },
        "q".to_string(),
        opts(&["a", "b"]),
        100,
        1000,
    )
    .is_ok());
    assert!(create_proposal(
        &mut l,
        CreateProposal { proposal: 2, creator: CREATOR },
        "q".to_string(),
        opts(&["a", "b", "c", "d", "e", "f", "g", "h", "i", "j"]),
        100,
        1000,
    )
    .is_ok());
}

#[test]
fn create_rejects_long_option() {
    let mut l = VotingLedger::new();
    let r = create_proposal(
        &mut l,
        CreateProposal { proposal: 1, creator: CREATOR },
        "q".to_string(),
        vec!["A".to_string(), "y".repeat(51)],
        100,
        1000,
    );
    assert_eq!(r.unwrap_err(), VotingError::OptionTooLong);
}

#[test]
fn create_accepts_option_at_limit() {
    let mut l = VotingLedger::new();
    let r = create_proposal(
        &mut l,
        CreateProposal { proposal: 1, creator: CREATOR },
        "q".to_string(),
        vec!["A".to_string(), "y".repeat(50)],
        100,
        1000,
    );
    assert!(r.is_ok());
}

#[test]
fn create_rejects_zero_duration() {
    let mut l = VotingLedger::new();
    let r = create_proposal(
        &mut l,
        CreateProposal { proposal: 1, creator: CREATOR },
        "q".to_string(),
        opts(&["A", "B"]),
        0,
        1000,
    );
    assert_eq!(r.unwrap_err(), VotingError::InvalidDuration);
}

#[test]
fn create_rejects_negative_duration() {
    let mut l = VotingLedger::new();
    let r = create_proposal(
        &mut l,
        CreateProposal { proposal: 1, creator: CREATOR },
        "q".to_string(),
        opts(&["A", "B"]),
        -5,
        1000,
    );
    assert_eq!(r.unwrap_err(), VotingError::InvalidDuration);
}

#[test]
fn cast_scenario() {
    let mut l = ledger_with_ab();
    let ev = vote(&mut l, VoteProposal { proposal: 1, voter: 11 }, 0, 1010).unwrap();
    assert_eq!(ev.proposal, 1);
    assert_eq!(ev.voter, 11);
    assert_eq!(ev.option_index, 0);
    assert_eq!(get_proposal(&l, 1).unwrap().vote_counts, vec![1, 0]);

    let r = vote(&mut l, VoteProposal { proposal: 1, voter: 11 }, 1, 1020);
    assert_eq!(r.unwrap_err(), VotingError::DuplicateVote);
    assert_eq!(get_proposal(&l, 1).unwrap().vote_counts, vec![1, 0]);

    let ev = vote(&mut l, VoteProposal { proposal: 1, voter: 12 }, 1, 1099).unwrap();
    assert_eq!(ev.option_index, 1);
    assert_eq!(get_proposal(&l, 1).unwrap().vote_counts, vec![1, 1]);

    let r = vote(&mut l, VoteProposal { proposal: 1, voter: 13 }, 0, 1101);
    assert_eq!(r.unwrap_err(), VotingError::DeadlinePassed);
    assert_eq!(get_proposal(&l, 1).unwrap().vote_counts, vec![1, 1]);
}

#[test]
fn cast_records_the_vote() {
    let mut l = ledger_with_ab();
    assert!(get_vote(&l, 1, 11).is_none());
    vote(&mut l, VoteProposal { proposal: 1, voter: 11 }, 1, 1010).unwrap();
    let v = get_vote(&l, 1, 11).unwrap();
    assert_eq!(v.proposal, 1);
    assert_eq!(v.voter, 11);
    assert_eq!(v.option_index, 1);
}

#[test]
fn cast_rejects_exactly_at_deadline() {
    let mut l = ledger_with_ab();
    let r = vote(&mut l, VoteProposal { proposal: 1, voter: 11 }, 0, 1100);
    assert_eq!(r.unwrap_err(), VotingError::DeadlinePassed);
}

#[test]
fn cast_rejects_bad_option_index() {
    let mut l = ledger_with_ab();
    let r = vote(&mut l, VoteProposal { proposal: 1, voter: 11 }, 2, 1010);
    assert_eq!(r.unwrap_err(), VotingError::InvalidOption);
    let r = vote(&mut l, VoteProposal { proposal: 1, voter: 11 }, 255, 1010);
    assert_eq!(r.unwrap_err(), VotingError::InvalidOption);
}

#[test]
fn cast_rejects_missing_proposal() {
    let mut l = ledger_with_ab();
    let r = vote(&mut l, VoteProposal { proposal: 2, voter: 11 }, 0, 1010);
    assert_eq!(r.unwrap_err(), VotingError::ProposalNotFound);
}

#[test]
fn close_gates() {
    let mut l = ledger_with_ab();
    vote(&mut l, VoteProposal { proposal: 1, voter: 11 }, 0, 1010).unwrap();
    vote(&mut l, VoteProposal { proposal: 1, voter: 12 }, 1, 1099).unwrap();

    let r = close_proposal(&mut l, CloseProposal { proposal: 1, creator: CREATOR }, 1050);
    assert_eq!(r.unwrap_err(), VotingError::TooEarlyToClose);
    assert!(get_proposal(&l, 1).unwrap().is_active);

    let r = close_proposal(&mut l, CloseProposal { proposal: 1, creator: 999 }, 1100);
    assert_eq!(r.unwrap_err(), VotingError::Unauthorized);
    assert!(get_proposal(&l, 1).unwrap().is_active);

    let ev = close_proposal(&mut l, CloseProposal { proposal: 1, creator: CREATOR }, 1100)
        .unwrap();
    assert_eq!(ev.proposal, 1);
    assert_eq!(ev.vote_counts, vec![1, 1]);
    assert_eq!(ev.end_ts, 1100);
    let p = get_proposal(&l, 1).unwrap();
    assert!(!p.is_active);
    assert_eq!(p.vote_counts, vec![1, 1]);
}

#[test]
fn close_rejects_missing_proposal() {
    let mut l = ledger_with_ab();
    let r = close_proposal(&mut l, CloseProposal { proposal: 2, creator: CREATOR }, 1100);
    assert_eq!(r.unwrap_err(), VotingError::ProposalNotFound);
}

#[test]
fn close_again_changes_nothing() {
    let mut l = ledger_with_ab();
    vote(&mut l, VoteProposal { proposal: 1, voter: 11 }, 0, 1010).unwrap();
    close_proposal(&mut l, CloseProposal { proposal: 1, creator: CREATOR }, 1100).unwrap();

    let ev = close_proposal(&mut l, CloseProposal { proposal: 1, creator: CREATOR }, 1200)
        .unwrap();
    assert_eq!(ev.vote_counts, vec![1, 0]);
    assert_eq!(ev.end_ts, 1100);
    let p = get_proposal(&l, 1).unwrap();
    assert!(!p.is_active);
    assert_eq!(p.vote_counts, vec![1, 0]);
    assert_eq!(p.end_ts, 1100);
}

#[test]
fn vote_after_close_is_rejected_as_closed() {
    let mut l = ledger_with_ab();
    close_proposal(&mut l, CloseProposal { proposal: 1, creator: CREATOR }, 1100).unwrap();
    let r = vote(&mut l, VoteProposal { proposal: 1, voter: 11 }, 0, 1200);
    assert_eq!(r.unwrap_err(), VotingError::ProposalClosed);
}

#[test]
fn delete_gates() {
    let mut l = ledger_with_ab();
    let r = delete_proposal(&mut l, DeleteProposal { proposal: 1, creator: CREATOR });
    assert_eq!(r.unwrap_err(), VotingError::ProposalStillActive);
    assert!(get_proposal(&l, 1).is_some());

    close_proposal(&mut l, CloseProposal { proposal: 1, creator: CREATOR }, 1100).unwrap();

    let r = delete_proposal(&mut l, DeleteProposal { proposal: 1, creator: 999 });
    assert_eq!(r.unwrap_err(), VotingError::Unauthorized);

    delete_proposal(&mut l, DeleteProposal { proposal: 1, creator: CREATOR }).unwrap();
    assert!(get_proposal(&l, 1).is_none());

    let r = delete_proposal(&mut l, DeleteProposal { proposal: 1, creator: CREATOR });
    assert_eq!(r.unwrap_err(), VotingError::ProposalNotFound);
    let r = close_proposal(&mut l, CloseProposal { proposal: 1, creator: CREATOR }, 1300);
    assert_eq!(r.unwrap_err(), VotingError::ProposalNotFound);
}

#[test]
fn tally_total_matches_distinct_voters() {
    let mut l = VotingLedger::new();
    create_proposal(
        &mut l,
        CreateProposal { proposal: 1, creator: CREATOR },
        "first".to_string(),
        opts(&["A", "B", "C"]),
        100,
        1000,
    )
    .unwrap();
    create_proposal(
        &mut l,
        CreateProposal { proposal: 2, creator: CREATOR },
        "second".to_string(),
        opts(&["X", "Y"]),
        100,
        1000,
    )
    .unwrap();

    let mut accepted_on_1 = 0u64;
    for (voter, k, now) in [(11u64, 0u8, 1010i64), (12, 2, 1020), (13, 0, 1030), (14, 1, 1099)] {
        vote(&mut l, VoteProposal { proposal: 1, voter }, k, now).unwrap();
        accepted_on_1 += 1;
    }
    // repeats fail and change nothing
    assert_eq!(
        vote(&mut l, VoteProposal { proposal: 1, voter: 12 }, 1, 1040).unwrap_err(),
        VotingError::DuplicateVote
    );
    // the same party may still vote on the other proposal
    vote(&mut l, VoteProposal { proposal: 2, voter: 12 }, 1, 1050).unwrap();

    let p1 = get_proposal(&l, 1).unwrap();
    let total1: u64 = p1.vote_counts.iter().sum();
    assert_eq!(total1, accepted_on_1);
    assert_eq!(p1.vote_counts, vec![2, 1, 1]);

    let p2 = get_proposal(&l, 2).unwrap();
    let total2: u64 = p2.vote_counts.iter().sum();
    assert_eq!(total2, 1);

    // one record per (proposal, voter) pair, each with the cast option
    assert_eq!(get_vote(&l, 1, 12).unwrap().option_index, 2);
    assert_eq!(get_vote(&l, 2, 12).unwrap().option_index, 1);
    assert!(get_vote(&l, 2, 11).is_none());
}

#[test]
fn votes_survive_deletion_of_their_proposal() {
    let mut l = ledger_with_ab();
    vote(&mut l, VoteProposal { proposal: 1, voter: 11 }, 0, 1010).unwrap();
    close_proposal(&mut l, CloseProposal { proposal: 1, creator: CREATOR }, 1100).unwrap();
    delete_proposal(&mut l, DeleteProposal { proposal: 1, creator: CREATOR }).unwrap();
    // the core never deletes vote records
    assert_eq!(get_vote(&l, 1, 11).unwrap().option_index, 0);
}
