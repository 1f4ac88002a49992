use voting::{Balances, DispatchError, Error, Event, Origin, Pallet, ProposalStatus, VoteDecision};

const THRESHOLD: u64 = 10;

fn funded_ledger() -> Balances {
    let mut ledger = Balances::new();
    for who in 1..=5u64 {
        ledger.set_free_balance(who, 1_000);
    }
    ledger
}

fn root() -> Origin {
    Origin::Root
}

fn signed(who: u64) -> Origin {
    Origin::Signed(who)
}

fn zero_hash() -> [u8; 32] {
    [0u8; 32]
}

fn module(e: Error) -> DispatchError {
    DispatchError::Module(e)
}

#[test]
fn voter_registration() {
    let mut voting = Pallet::new(THRESHOLD);
    assert_eq!(voting.register_voter(root(), 2), Ok(Event::VoterRegistered { who: 2 }));
    assert!(voting.is_registered(&2));
    assert_eq!(voting.register_voter(root(), 2), Err(module(Error::AlreadyRegistered)));
    assert!(voting.is_registered(&2));
}

#[test]
fn register_invalid_origin() {
    let mut voting = Pallet::new(THRESHOLD);
    assert_eq!(voting.register_voter(signed(1), 2), Err(DispatchError::BadOrigin));
    assert!(!voting.is_registered(&2));
}

#[test]
fn make_proposal() {
    let mut voting = Pallet::new(THRESHOLD);
    let now = 82;
    let initial_proposal_id = voting.get_proposal_counter();
    let new_proposal_id = initial_proposal_id + 1;

    assert_eq!(
        voting.make_proposal(signed(1), zero_hash(), 90, now),
        Ok(Event::ProposalSubmitted { proposal_id: new_proposal_id, who: 1 })
    );
    assert!(voting.proposal_exists(new_proposal_id));
    assert_eq!(initial_proposal_id + 1, voting.get_proposal_counter());
}

#[test]
fn proposal_time_low() {
    let mut voting = Pallet::new(THRESHOLD);
    assert_eq!(
        voting.make_proposal(signed(1), zero_hash(), 80, 82),
        Err(module(Error::TimePeriodTooLow))
    );
    assert_eq!(voting.get_proposal_counter(), 0);
}

#[test]
fn update_proposal() {
    let mut voting = Pallet::new(THRESHOLD);
    let now = 30;
    let proposal_id = voting.get_proposal_counter() + 1;

    assert!(voting.make_proposal(signed(1), zero_hash(), 90, now).is_ok());
    assert_eq!(
        voting.increase_proposal_time(signed(1), proposal_id, 95, now),
        Ok(Event::ProposalUpdated { proposal_id, end_block: 95 })
    );
    let updated_proposal = voting.get_proposal(&proposal_id).unwrap();
    assert_eq!(updated_proposal.time_period, 95);
}

#[test]
fn update_proposal_invalid() {
    let mut voting = Pallet::new(THRESHOLD);
    let now = 30;
    let proposal_id = voting.get_proposal_counter() + 1;

    assert!(voting.make_proposal(signed(1), zero_hash(), 90, now).is_ok());
    assert_eq!(
        voting.increase_proposal_time(signed(1), proposal_id, 75, now),
        Err(module(Error::TimePeriodTooLow))
    );
}

#[test]
fn invalid_proposer_update() {
    let mut voting = Pallet::new(THRESHOLD);
    let now = 30;
    let proposal_id = voting.get_proposal_counter() + 1;

    assert!(voting.make_proposal(signed(1), zero_hash(), 90, now).is_ok());
    assert_eq!(
        voting.increase_proposal_time(signed(2), proposal_id, 95, now),
        Err(module(Error::Unauthorized))
    );
}

#[test]
fn proposal_canceled() {
    let mut voting = Pallet::new(THRESHOLD);
    let now = 30;
    let proposal_id = voting.get_proposal_counter() + 1;

    assert!(voting.make_proposal(signed(1), zero_hash(), 90, now).is_ok());
    assert_eq!(
        voting.cancel_proposal(signed(1), proposal_id, now),
        Ok(Event::ProposalCanceled { proposal_id })
    );
    let updated_proposal = voting.get_proposal(&proposal_id).unwrap();
    assert_eq!(updated_proposal.status, ProposalStatus::Canceled);
}

#[test]
fn proposal_cant_be_canceled() {
    let mut voting = Pallet::new(THRESHOLD);
    let proposal_id = voting.get_proposal_counter() + 1;

    assert!(voting.make_proposal(signed(1), zero_hash(), 90, 30).is_ok());
    assert_eq!(
        voting.cancel_proposal(signed(1), proposal_id, 100),
        Err(module(Error::TimePeriodTooLow))
    );
}

#[test]
fn cast_valid_votes() {
    let mut voting = Pallet::new(THRESHOLD);
    let mut ledger = funded_ledger();
    let now = 1;
    let proposal_id = voting.get_proposal_counter() + 1;
    assert!(voting.register_voter(root(), 1).is_ok());
    assert!(voting.register_voter(root(), 2).is_ok());
    assert!(voting.make_proposal(signed(1), zero_hash(), 90, now).is_ok());

    assert_eq!(
        voting.vote(&mut ledger, signed(1), proposal_id, VoteDecision::Aye(2), now),
        Ok(Event::VoteCasted { proposal_id, who: 1 })
    );
    assert!(voting.vote_casted(&1, &proposal_id));
    let updated_proposal = voting.get_proposal(&proposal_id).unwrap();
    assert_eq!(updated_proposal.ayes, 2);

    assert_eq!(
        voting.vote(&mut ledger, signed(2), proposal_id, VoteDecision::Nay(2), now),
        Ok(Event::VoteCasted { proposal_id, who: 2 })
    );
    assert!(voting.vote_casted(&2, &proposal_id));
    let updated_proposal = voting.get_proposal(&proposal_id).unwrap();
    assert_eq!(updated_proposal.nays, 2);
}

#[test]
fn voter_not_registered() {
    let mut voting = Pallet::new(THRESHOLD);
    let mut ledger = funded_ledger();
    let proposal_id = voting.get_proposal_counter() + 1;
    assert!(voting.make_proposal(signed(1), zero_hash(), 90, 1).is_ok());

    assert_eq!(
        voting.vote(&mut ledger, signed(1), proposal_id, VoteDecision::Aye(2), 1),
        Err(module(Error::VoterIsNotRegistered))
    );
    assert!(!voting.vote_casted(&1, &proposal_id));
}

#[test]
fn vote_already_casted() {
    let mut voting = Pallet::new(THRESHOLD);
    let mut ledger = funded_ledger();
    let proposal_id = voting.get_proposal_counter() + 1;
    assert!(voting.register_voter(root(), 1).is_ok());
    assert!(voting.make_proposal(signed(1), zero_hash(), 90, 1).is_ok());

    let vote = VoteDecision::Aye(2);
    assert!(voting.vote(&mut ledger, signed(1), proposal_id, vote, 1).is_ok());
    assert_eq!(
        voting.vote(&mut ledger, signed(1), proposal_id, vote, 1),
        Err(module(Error::VoteAlreadyCasted))
    );
    assert_eq!(ledger.reserved_balance_of(1), 4);
    assert_eq!(voting.get_proposal(&proposal_id).unwrap().ayes, 2);
}

#[test]
fn invalid_vote_amount() {
    let mut voting = Pallet::new(THRESHOLD);
    let mut ledger = funded_ledger();
    let proposal_id = voting.get_proposal_counter() + 1;
    assert!(voting.register_voter(root(), 1).is_ok());
    assert!(voting.make_proposal(signed(1), zero_hash(), 90, 1).is_ok());

    assert_eq!(
        voting.vote(&mut ledger, signed(1), proposal_id, VoteDecision::Aye(0), 1),
        Err(module(Error::InvalidVoteAmount))
    );
    assert!(!voting.vote_casted(&1, &proposal_id));
}

#[test]
fn proposal_passed() {
    let mut voting = Pallet::new(THRESHOLD);
    let mut ledger = funded_ledger();
    let proposal_id = voting.get_proposal_counter() + 1;
    assert!(voting.register_voter(root(), 1).is_ok());
    assert!(voting.make_proposal(signed(1), zero_hash(), 5, 0).is_ok());
    assert!(voting.vote(&mut ledger, signed(1), proposal_id, VoteDecision::Aye(1), 0).is_ok());

    assert_eq!(
        voting.finish_proposal(signed(1), proposal_id, 6),
        Ok(Event::ProposalEnded { proposal_id, status: ProposalStatus::Passed })
    );
}

#[test]
fn proposal_rejected() {
    let mut voting = Pallet::new(THRESHOLD);
    let mut ledger = funded_ledger();
    let proposal_id = voting.get_proposal_counter() + 1;
    assert!(voting.register_voter(root(), 1).is_ok());
    assert!(voting.make_proposal(signed(1), zero_hash(), 5, 0).is_ok());
    assert!(voting.vote(&mut ledger, signed(1), proposal_id, VoteDecision::Nay(1), 0).is_ok());

    assert_eq!(
        voting.finish_proposal(signed(1), proposal_id, 6),
        Ok(Event::ProposalEnded { proposal_id, status: ProposalStatus::Rejected })
    );
}

#[test]
fn proposal_tied() {
    let mut voting = Pallet::new(THRESHOLD);
    let proposal_id = voting.get_proposal_counter() + 1;
    assert!(voting.register_voter(root(), 1).is_ok());
    assert!(voting.make_proposal(signed(1), zero_hash(), 5, 0).is_ok());

    assert_eq!(
        voting.finish_proposal(signed(1), proposal_id, 6),
        Ok(Event::ProposalEnded { proposal_id, status: ProposalStatus::Tied })
    );
}

#[test]
fn finish_proposal_fails_if_canceled() {
    let mut voting = Pallet::new(THRESHOLD);
    let proposal_id = voting.get_proposal_counter() + 1;
    assert!(voting.register_voter(root(), 1).is_ok());
    assert!(voting.make_proposal(signed(1), zero_hash(), 5, 0).is_ok());

    assert_eq!(
        voting.finish_proposal(signed(1), proposal_id, 6),
        Ok(Event::ProposalEnded { proposal_id, status: ProposalStatus::Tied })
    );
}

#[test]
fn finish_proposal_early_rejects() {
    let mut voting = Pallet::new(THRESHOLD);
    let proposal_id = voting.get_proposal_counter() + 1;
    assert!(voting.register_voter(root(), 1).is_ok());
    assert!(voting.make_proposal(signed(1), zero_hash(), 5, 0).is_ok());

    assert_eq!(
        voting.finish_proposal(signed(1), proposal_id, 3),
        Err(module(Error::ProposalAlreadyEnded))
    );
    assert_eq!(
        voting.finish_proposal(signed(1), proposal_id, 5),
        Err(module(Error::ProposalAlreadyEnded))
    );
    assert_eq!(voting.get_proposal(&proposal_id).unwrap().status, ProposalStatus::InProgress);
}
