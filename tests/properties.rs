use voting::{
    Balances, DispatchError, Error, Event, Origin, Pallet, Proposal, ProposalStatus,
    ReservableCurrency, Vote,
    VoteDecision,
};

fn module(e: Error) -> DispatchError {
    DispatchError::Module(e)
}

fn ledger_with(accounts: &[u64], amount: u64) -> Balances {
    let mut ledger = Balances::new();
    for who in accounts {
        ledger.set_free_balance(*who, amount);
    }
    ledger
}

/// A pallet with voters 1 and 2 registered and proposal 1 of account 1
/// ending at `end`, made at block 1.
fn setup(threshold: u64, end: u64) -> Pallet {
    let mut voting = Pallet::new(threshold);
    assert!(voting.register_voter(Origin::Root, 1).is_ok());
    assert!(voting.register_voter(Origin::Root, 2).is_ok());
    assert!(voting.make_proposal(Origin::Signed(1), [7u8; 32], end, 1).is_ok());
    voting
}

#[test]
fn scenario_two_voters_rejected() {
    let mut voting = setup(10, 5);
    let mut ledger = ledger_with(&[1, 2], 100);
    assert!(voting.vote(&mut ledger, Origin::Signed(1), 1, VoteDecision::Aye(1), 1).is_ok());
    assert_eq!(ledger.reserved_balance_of(1), 1);
    assert_eq!(ledger.free_balance(1), 99);
    assert!(voting.vote(&mut ledger, Origin::Signed(2), 1, VoteDecision::Nay(3), 1).is_ok());
    assert_eq!(ledger.reserved_balance_of(2), 9);
    assert_eq!(
        voting.finish_proposal(Origin::Signed(1), 1, 6),
        Ok(Event::ProposalEnded { proposal_id: 1, status: ProposalStatus::Rejected })
    );
    assert_eq!(voting.get_proposal(&1).unwrap().status, ProposalStatus::Rejected);
}

#[test]
fn update_raises_reservation_by_difference_of_squares() {
    let mut voting = setup(10, 90);
    let mut ledger = ledger_with(&[1, 2], 100);
    assert!(voting.vote(&mut ledger, Origin::Signed(2), 1, VoteDecision::Aye(3), 1).is_ok());
    assert!(voting.vote(&mut ledger, Origin::Signed(1), 1, VoteDecision::Aye(2), 1).is_ok());
    assert_eq!(ledger.reserved_balance_of(1), 4);
    assert_eq!(
        voting.update_vote(&mut ledger, Origin::Signed(1), 1, VoteDecision::Aye(5), 2),
        Ok(Event::VoteCasted { proposal_id: 1, who: 1 })
    );
    assert_eq!(ledger.reserved_balance_of(1), 25);
    assert_eq!(ledger.free_balance(1), 75);
    assert_eq!(voting.get_proposal(&1).unwrap().ayes, 3 + 5);
    assert_eq!(
        voting.get_vote(&1, &1),
        Some(Vote { vote_decision: VoteDecision::Aye(5), locked: true })
    );
}

#[test]
fn update_lowering_amount_releases_difference() {
    let mut voting = setup(10, 90);
    let mut ledger = ledger_with(&[1], 100);
    assert!(voting.vote(&mut ledger, Origin::Signed(1), 1, VoteDecision::Nay(4), 1).is_ok());
    assert_eq!(ledger.reserved_balance_of(1), 16);
    assert!(voting.update_vote(&mut ledger, Origin::Signed(1), 1, VoteDecision::Aye(2), 1).is_ok());
    assert_eq!(ledger.reserved_balance_of(1), 4);
    let p = voting.get_proposal(&1).unwrap();
    assert_eq!((p.ayes, p.nays), (2, 0));
}

#[test]
fn update_to_nay_after_threshold_is_refused() {
    let mut voting = setup(10, 20);
    let mut ledger = ledger_with(&[1], 100);
    assert!(voting.vote(&mut ledger, Origin::Signed(1), 1, VoteDecision::Aye(2), 1).is_ok());
    assert_eq!(
        voting.update_vote(&mut ledger, Origin::Signed(1), 1, VoteDecision::Nay(1), 15),
        Err(module(Error::PassedRemovalThreshold))
    );
    assert_eq!(voting.get_proposal(&1).unwrap().ayes, 2);
    assert_eq!(voting.get_proposal(&1).unwrap().nays, 0);
    assert_eq!(ledger.reserved_balance_of(1), 4);
    // Raising an aye late is still allowed.
    assert!(voting.update_vote(&mut ledger, Origin::Signed(1), 1, VoteDecision::Aye(3), 15).is_ok());
    assert_eq!(ledger.reserved_balance_of(1), 9);
}

#[test]
fn update_errors() {
    let mut voting = setup(10, 90);
    let mut ledger = ledger_with(&[1], 100);
    assert_eq!(
        voting.update_vote(&mut ledger, Origin::Signed(1), 1, VoteDecision::Aye(2), 1),
        Err(module(Error::VoteNotFound))
    );
    assert!(voting.vote(&mut ledger, Origin::Signed(1), 1, VoteDecision::Aye(2), 1).is_ok());
    assert_eq!(
        voting.update_vote(&mut ledger, Origin::Signed(1), 1, VoteDecision::Aye(0), 1),
        Err(module(Error::InvalidUpdateAmount))
    );
    assert_eq!(
        voting.update_vote(&mut ledger, Origin::Signed(1), 1, VoteDecision::Aye(11), 1),
        Err(DispatchError::InsufficientBalance)
    );
    assert_eq!(ledger.reserved_balance_of(1), 4);
    assert_eq!(voting.get_proposal(&1).unwrap().ayes, 2);
    assert_eq!(
        voting.update_vote(&mut ledger, Origin::Signed(3), 1, VoteDecision::Aye(1), 1),
        Err(module(Error::VoterIsNotRegistered))
    );
}

#[test]
fn make_proposal_at_82() {
    let mut voting = Pallet::new(10);
    assert_eq!(
        voting.make_proposal(Origin::Signed(1), [0u8; 32], 80, 82),
        Err(module(Error::TimePeriodTooLow))
    );
    assert_eq!(
        voting.make_proposal(Origin::Signed(1), [3u8; 32], 90, 82),
        Ok(Event::ProposalSubmitted { proposal_id: 1, who: 1 })
    );
    let p = voting.get_proposal(&1).unwrap();
    assert_eq!(p.id, 1);
    assert_eq!(p.proposer, 1);
    assert_eq!(p.text, [3u8; 32]);
    assert_eq!(p.time_period, 90);
    assert_eq!(p.status, ProposalStatus::InProgress);
    assert_eq!((p.ayes, p.nays), (0, 0));
    assert!(voting.get_proposal(&2).is_none());
    assert_eq!(voting.make_proposal(Origin::Root, [0u8; 32], 90, 82), Err(DispatchError::BadOrigin));
}

#[test]
fn cancel_vote_after_threshold_changes_nothing() {
    let mut voting = setup(10, 20);
    let mut ledger = ledger_with(&[1], 100);
    assert!(voting.vote(&mut ledger, Origin::Signed(1), 1, VoteDecision::Aye(3), 1).is_ok());
    assert_eq!(
        voting.cancel_vote(&mut ledger, Origin::Signed(1), 1, 11),
        Err(module(Error::PassedRemovalThreshold))
    );
    assert_eq!(voting.get_proposal(&1).unwrap().ayes, 3);
    assert_eq!(ledger.reserved_balance_of(1), 9);
    assert!(voting.vote_casted(&1, &1));
}

#[test]
fn cancel_vote_releases_and_removes() {
    let mut voting = setup(10, 90);
    let mut ledger = ledger_with(&[1], 100);
    assert!(voting.vote(&mut ledger, Origin::Signed(1), 1, VoteDecision::Nay(3), 1).is_ok());
    assert_eq!(
        voting.cancel_vote(&mut ledger, Origin::Signed(1), 1, 2),
        Ok(Event::VoteCanceled { proposal_id: 1, who: 1 })
    );
    assert_eq!(voting.get_proposal(&1).unwrap().nays, 0);
    assert_eq!(ledger.reserved_balance_of(1), 0);
    assert_eq!(ledger.free_balance(1), 100);
    assert!(!voting.vote_casted(&1, &1));
    assert_eq!(
        voting.cancel_vote(&mut ledger, Origin::Signed(1), 1, 2),
        Err(module(Error::VoteNotFound))
    );
}

#[test]
fn cancel_vote_at_end_block_with_zero_threshold() {
    let mut voting = setup(0, 20);
    let mut ledger = ledger_with(&[1], 100);
    assert!(voting.vote(&mut ledger, Origin::Signed(1), 1, VoteDecision::Aye(2), 1).is_ok());
    assert!(voting.cancel_vote(&mut ledger, Origin::Signed(1), 1, 20).is_ok());
    assert!(voting.vote(&mut ledger, Origin::Signed(1), 1, VoteDecision::Aye(2), 19).is_ok());
    assert_eq!(
        voting.cancel_vote(&mut ledger, Origin::Signed(1), 1, 21),
        Err(module(Error::ProposalAlreadyEnded))
    );
}

#[test]
fn unlock_twice_fails() {
    let mut voting = setup(10, 5);
    let mut ledger = ledger_with(&[1], 100);
    assert!(voting.vote(&mut ledger, Origin::Signed(1), 1, VoteDecision::Aye(4), 1).is_ok());
    assert_eq!(
        voting.unlock_balance(&mut ledger, Origin::Signed(1), 1),
        Err(module(Error::ProposalInProgress))
    );
    assert!(voting.finish_proposal(Origin::Signed(2), 1, 6).is_ok());
    assert_eq!(ledger.reserved_balance_of(1), 16);
    assert_eq!(voting.unlock_balance(&mut ledger, Origin::Signed(1), 1), Ok(()));
    assert_eq!(ledger.reserved_balance_of(1), 0);
    assert_eq!(ledger.free_balance(1), 100);
    assert_eq!(
        voting.get_vote(&1, &1),
        Some(Vote { vote_decision: VoteDecision::Aye(4), locked: false })
    );
    assert_eq!(
        voting.unlock_balance(&mut ledger, Origin::Signed(1), 1),
        Err(module(Error::BalanceAlreadyUnlocked))
    );
    assert_eq!(
        voting.unlock_balance(&mut ledger, Origin::Signed(2), 1),
        Err(module(Error::VoteNotFound))
    );
    assert_eq!(
        voting.unlock_balance(&mut ledger, Origin::Signed(1), 9),
        Err(module(Error::ProposalNotFound))
    );
}

#[test]
fn finish_twice_fails() {
    let mut voting = setup(10, 5);
    assert!(voting.finish_proposal(Origin::Signed(1), 1, 6).is_ok());
    assert_eq!(
        voting.finish_proposal(Origin::Signed(1), 1, 7),
        Err(module(Error::ProposalAlreadyEnded))
    );
    assert_eq!(
        voting.finish_proposal(Origin::Signed(3), 1, 7),
        Err(module(Error::VoterIsNotRegistered))
    );
}

#[test]
fn tie_break_rules() {
    let mut voting = Pallet::new(10);
    let mut ledger = ledger_with(&[1, 2], 100);
    assert!(voting.register_voter(Origin::Root, 1).is_ok());
    assert!(voting.register_voter(Origin::Root, 2).is_ok());
    for _ in 0..3 {
        assert!(voting.make_proposal(Origin::Signed(1), [0u8; 32], 5, 1).is_ok());
    }
    assert!(voting.vote(&mut ledger, Origin::Signed(1), 1, VoteDecision::Aye(2), 1).is_ok());
    assert!(voting.vote(&mut ledger, Origin::Signed(2), 1, VoteDecision::Nay(2), 1).is_ok());
    assert!(voting.vote(&mut ledger, Origin::Signed(1), 2, VoteDecision::Aye(3), 1).is_ok());
    assert!(voting.vote(&mut ledger, Origin::Signed(2), 2, VoteDecision::Nay(2), 1).is_ok());
    assert!(voting.vote(&mut ledger, Origin::Signed(1), 3, VoteDecision::Aye(1), 1).is_ok());
    assert!(voting.vote(&mut ledger, Origin::Signed(2), 3, VoteDecision::Nay(2), 1).is_ok());
    let expected = [ProposalStatus::Tied, ProposalStatus::Passed, ProposalStatus::Rejected];
    for (i, status) in expected.iter().enumerate() {
        let id = (i + 1) as u32;
        assert_eq!(
            voting.finish_proposal(Origin::Signed(1), id, 6),
            Ok(Event::ProposalEnded { proposal_id: id, status: *status })
        );
    }
}

#[test]
fn vote_errors() {
    let mut voting = setup(10, 5);
    let mut ledger = ledger_with(&[1], 3);
    assert_eq!(
        voting.vote(&mut ledger, Origin::Signed(1), 2, VoteDecision::Aye(1), 1),
        Err(module(Error::ProposalNotFound))
    );
    assert_eq!(
        voting.vote(&mut ledger, Origin::Signed(1), 1, VoteDecision::Aye(65_536), 1),
        Err(module(Error::Overflow))
    );
    assert_eq!(
        voting.vote(&mut ledger, Origin::Signed(1), 1, VoteDecision::Aye(2), 1),
        Err(DispatchError::InsufficientBalance)
    );
    assert!(!voting.vote_casted(&1, &1));
    assert_eq!(voting.get_proposal(&1).unwrap().ayes, 0);
    assert_eq!(
        voting.vote(&mut ledger, Origin::Signed(1), 1, VoteDecision::Aye(1), 5),
        Err(module(Error::ProposalAlreadyEnded))
    );
    assert_eq!(
        voting.vote(&mut ledger, Origin::Root, 1, VoteDecision::Aye(1), 1),
        Err(DispatchError::BadOrigin)
    );
}

#[test]
fn proposal_changes_after_end_are_refused() {
    let mut voting = setup(10, 50);
    assert!(voting.cancel_proposal(Origin::Signed(1), 1, 2).is_ok());
    assert_eq!(
        voting.cancel_proposal(Origin::Signed(1), 1, 2),
        Err(module(Error::ProposalAlreadyEnded))
    );
    assert_eq!(
        voting.increase_proposal_time(Origin::Signed(1), 1, 60, 2),
        Err(module(Error::ProposalAlreadyEnded))
    );
    assert_eq!(
        voting.cancel_proposal(Origin::Signed(2), 1, 2),
        Err(module(Error::Unauthorized))
    );
    assert_eq!(
        voting.increase_proposal_time(Origin::Signed(1), 4, 60, 2),
        Err(module(Error::ProposalNotFound))
    );
    assert_eq!(
        voting.finish_proposal(Origin::Signed(1), 1, 60),
        Err(module(Error::ProposalAlreadyEnded))
    );
}

#[test]
fn removal_threshold_boundary() {
    let voting = Pallet::new(10);
    assert!(voting.passed_removal_threshold(&20, 11));
    assert!(!voting.passed_removal_threshold(&20, 10));
}

#[test]
fn vote_round_trip() {
    let votes = [
        Vote { vote_decision: VoteDecision::Aye(2), locked: true },
        Vote { vote_decision: VoteDecision::Nay(0x0102_0304), locked: false },
    ];
    for v in votes.iter() {
        let bytes = v.encode();
        assert_eq!(Vote::decode(&bytes), Some(*v));
    }
    assert_eq!(votes[1].encode(), vec![1u8, 4, 3, 2, 1, 0]);
    assert_eq!(Vote::decode(&[2u8, 0, 0, 0, 0, 1]), None);
    assert_eq!(Vote::decode(&[0u8, 0, 0, 0, 0]), None);
}

#[test]
fn proposal_round_trip() {
    let mut text = [0u8; 32];
    for (i, b) in text.iter_mut().enumerate() {
        *b = i as u8;
    }
    let p = Proposal {
        id: 7,
        proposer: 0x0102_0304_0506_0708,
        text,
        time_period: 90,
        status: ProposalStatus::Tied,
        ayes: 5,
        nays: 5,
    };
    let bytes = p.encode();
    assert_eq!(bytes.len(), 61);
    assert_eq!(&bytes[0..4], &[7u8, 0, 0, 0]);
    assert_eq!(&bytes[4..12], &[8u8, 7, 6, 5, 4, 3, 2, 1]);
    assert_eq!(bytes[52], 4);
    let back = Proposal::decode(&bytes).unwrap();
    assert_eq!(back.id, p.id);
    assert_eq!(back.proposer, p.proposer);
    assert_eq!(back.text, p.text);
    assert_eq!(back.time_period, p.time_period);
    assert_eq!(back.status, p.status);
    assert_eq!((back.ayes, back.nays), (p.ayes, p.nays));
    let mut bad = bytes.clone();
    bad[52] = 5;
    assert!(Proposal::decode(&bad).is_none());
}

#[test]
fn ledger_reserve_and_unreserve() {
    let mut ledger = ledger_with(&[1], 10);
    assert_eq!(ledger.reserve(1, 11), Err(DispatchError::InsufficientBalance));
    assert_eq!((ledger.free_balance(1), ledger.reserved_balance_of(1)), (10, 0));
    assert_eq!(ledger.reserve(1, 7), Ok(()));
    assert_eq!((ledger.free_balance(1), ledger.reserved_balance_of(1)), (3, 7));
    assert_eq!(ledger.unreserve(1, 9), 2);
    assert_eq!((ledger.free_balance(1), ledger.reserved_balance_of(1)), (10, 0));
    assert_eq!(ledger.reserve(2, 1), Err(DispatchError::InsufficientBalance));
}
