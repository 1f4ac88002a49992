use vstd::prelude::*;
use std::collections::HashMap;
use std::collections::HashSet;
use crate::currency::ReservableCurrency;
use crate::tally::{
    aye_part, aye_total, lemma_totals_cover, lemma_totals_differ_at, lemma_totals_zero, nay_part,
    nay_total, VoteKey,
};
use crate::types::{
    cost, resolve, AccountId, BlockNumber, ContentHash, DispatchError, Error, Event, Origin,
    Proposal, ProposalId, ProposalStatus, Vote, VoteDecision,
};

verus! {

broadcast use vstd::std_specs::hash::group_hash_axioms;

/// The storage key of the vote of `who` on `proposal_id`.
pub open spec fn vote_key(who: AccountId, proposal_id: ProposalId) -> u128 {
    ((who as u128) << 32u128) | (proposal_id as u128)
}

proof fn lemma_vote_key_injective(a: AccountId, p: ProposalId, b: AccountId, q: ProposalId)
    requires
        vote_key(a, p) == vote_key(b, q),
    ensures
        a == b && p == q,
{
    assert(a == b && p == q) by (bit_vector)
        requires
            ((a as u128) << 32u128) | (p as u128) == ((b as u128) << 32u128) | (q as u128),
    ;
}

fn compute_vote_key(who: AccountId, proposal_id: ProposalId) -> (r: u128)
    ensures
        r == vote_key(who, proposal_id),
{
    ((who as u128) << 32u128) | (proposal_id as u128)
}

/// The account behind a signed origin.
pub open spec fn signer(origin: Origin) -> Option<AccountId> {
    match origin {
        Origin::Signed(who) => Some(who),
        Origin::Root => None,
    }
}

/// Votes keyed by voter and proposal, read from the storage map keyed by [`vote_key`].
pub open spec fn votes_of(m: Map<u128, Vote>) -> Map<(AccountId, ProposalId), Vote> {
    Map::new(
        |k: (AccountId, ProposalId)| m.contains_key(vote_key(k.0, k.1)),
        |k: (AccountId, ProposalId)| m[vote_key(k.0, k.1)],
    )
}

proof fn lemma_votes_of_insert(m: Map<u128, Vote>, who: AccountId, proposal_id: ProposalId, v: Vote)
    ensures
        votes_of(m.insert(vote_key(who, proposal_id), v)) == votes_of(m).insert((who, proposal_id), v),
{
    let key = vote_key(who, proposal_id);
    assert forall|k: (AccountId, ProposalId)| vote_key(k.0, k.1) == key implies k == (who, proposal_id) by {
        lemma_vote_key_injective(k.0, k.1, who, proposal_id);
    }
    assert(votes_of(m.insert(key, v)) =~= votes_of(m).insert((who, proposal_id), v));
}

proof fn lemma_votes_of_remove(m: Map<u128, Vote>, who: AccountId, proposal_id: ProposalId)
    ensures
        votes_of(m.remove(vote_key(who, proposal_id))) == votes_of(m).remove((who, proposal_id)),
{
    let key = vote_key(who, proposal_id);
    assert forall|k: (AccountId, ProposalId)| vote_key(k.0, k.1) == key implies k == (who, proposal_id) by {
        lemma_vote_key_injective(k.0, k.1, who, proposal_id);
    }
    assert(votes_of(m.remove(key)) =~= votes_of(m).remove((who, proposal_id)));
}

/// A proposal with `d` added to the tally of its direction.
pub open spec fn add_vote(p: Proposal, d: VoteDecision) -> Proposal {
    match d {
        VoteDecision::Aye(v) => Proposal { ayes: (p.ayes + v) as u32, ..p },
        VoteDecision::Nay(v) => Proposal { nays: (p.nays + v) as u32, ..p },
    }
}

/// Whether adding `d` to the tallies of `p` stays within `u32`.
pub open spec fn can_add_vote(p: Proposal, d: VoteDecision) -> bool {
    match d {
        VoteDecision::Aye(v) => p.ayes + v <= u32::MAX,
        VoteDecision::Nay(v) => p.nays + v <= u32::MAX,
    }
}

/// `a - b`, stopping at zero.
pub open spec fn sat_sub(a: u32, b: u32) -> u32 {
    if a >= b {
        (a - b) as u32
    } else {
        0
    }
}

/// A proposal with `d` taken off the tally of its direction, stopping at zero.
pub open spec fn remove_vote(p: Proposal, d: VoteDecision) -> Proposal {
    match d {
        VoteDecision::Aye(v) => Proposal { ayes: sat_sub(p.ayes, v), ..p },
        VoteDecision::Nay(v) => Proposal { nays: sat_sub(p.nays, v), ..p },
    }
}

/// What remains reserved after asking the ledger to release `amount` of `reserved`.
pub open spec fn released(reserved: nat, amount: int) -> nat {
    if reserved >= amount {
        (reserved - amount) as nat
    } else {
        0
    }
}

/// Whether `b` reserves on every account other than `who` what `a` does.
pub open spec fn reserved_elsewhere_unchanged<C: ReservableCurrency>(a: C, b: C, who: AccountId) -> bool {
    forall|x: AccountId| x != who ==> #[trigger] b.reserved_balance(x) == a.reserved_balance(x)
}

/// The ledger went from `a` to `b` while the state went from `s` to `t`, and
/// what it reserves on `who` moved by exactly the change in what the vote of
/// `who` on `proposal_id` holds.
pub open spec fn reservation_follows<C: ReservableCurrency>(
    a: C,
    b: C,
    s: VotingState,
    t: VotingState,
    who: AccountId,
    proposal_id: ProposalId,
) -> bool {
    b.reserved_balance(who) == a.reserved_balance(who) + t.held(who, proposal_id) - s.held(
        who,
        proposal_id,
    )
}

fn add_tally(p: Proposal, d: VoteDecision) -> (r: Option<Proposal>)
    ensures
        r is Some <==> can_add_vote(p, d),
        r is Some ==> r->Some_0 == add_vote(p, d),
{
    let mut q = p;
    match d {
        VoteDecision::Aye(v) => match p.ayes.checked_add(v) {
            Some(t) => q.ayes = t,
            None => {
                return None;
            },
        },
        VoteDecision::Nay(v) => match p.nays.checked_add(v) {
            Some(t) => q.nays = t,
            None => {
                return None;
            },
        },
    }
    Some(q)
}

fn remove_tally(p: Proposal, d: VoteDecision) -> (r: Proposal)
    ensures
        r == remove_vote(p, d),
{
    let mut q = p;
    match d {
        VoteDecision::Aye(v) => q.ayes = p.ayes.saturating_sub(v),
        VoteDecision::Nay(v) => q.nays = p.nays.saturating_sub(v),
    }
    q
}

fn checked_cost(amount: u32) -> (r: Option<u32>)
    ensures
        r is Some <==> cost(amount) <= u32::MAX,
        r is Some ==> r->Some_0 == cost(amount),
{
    amount.checked_mul(amount)
}

/// The abstract state of the voting module.
pub struct VotingState {
    /// Minimum number of blocks before the end of a proposal below which votes
    /// can no longer be withdrawn or turned against it.
    pub removal_threshold: BlockNumber,
    pub voters: Set<AccountId>,
    /// The proposal with id `i` stands at index `i - 1`.
    pub proposals: Seq<Proposal>,
    pub votes: Map<(AccountId, ProposalId), Vote>,
}

impl VotingState {
    /// Proposal `i` stands at index `i - 1`, and the ids fit in a `u32`.
    pub open spec fn ids_ok(self) -> bool {
        &&& self.proposals.len() <= u32::MAX
        &&& forall|i: int| 0 <= i < self.proposals.len() ==> #[trigger] self.proposals[i].id == i + 1
    }

    /// The tallies of every proposal are the sums of the recorded votes on it.
    pub open spec fn tallies_match(self) -> bool {
        forall|q: ProposalId|
            #![trigger self.proposal(q)]
            self.has_proposal(q) ==> self.proposal(q).ayes == aye_total(self.votes, q)
                && self.proposal(q).nays == nay_total(self.votes, q)
    }

    pub open spec fn wf(self) -> bool {
        &&& self.ids_ok()
        &&& self.votes.dom().finite()
        &&& forall|k: VoteKey| #[trigger]
            self.votes.contains_key(k) ==> self.has_proposal(k.1) && (self.proposal(k.1).status
                == ProposalStatus::InProgress ==> self.votes[k].locked)
        &&& self.tallies_match()
    }

    pub open spec fn has_proposal(self, proposal_id: ProposalId) -> bool {
        1 <= proposal_id <= self.proposals.len()
    }

    pub open spec fn proposal(self, proposal_id: ProposalId) -> Proposal {
        self.proposals[proposal_id - 1]
    }

    /// The number of proposals made so far, which is also the last id handed out.
    pub open spec fn counter(self) -> nat {
        self.proposals.len()
    }

    pub open spec fn has_vote(self, who: AccountId, proposal_id: ProposalId) -> bool {
        self.votes.contains_key((who, proposal_id))
    }

    pub open spec fn vote(self, who: AccountId, proposal_id: ProposalId) -> Vote {
        self.votes[(who, proposal_id)]
    }

    pub open spec fn with_voter(self, who: AccountId) -> VotingState {
        VotingState { voters: self.voters.insert(who), ..self }
    }

    pub open spec fn with_new_proposal(self, p: Proposal) -> VotingState {
        VotingState { proposals: self.proposals.push(p), ..self }
    }

    pub open spec fn with_proposal(self, proposal_id: ProposalId, p: Proposal) -> VotingState {
        VotingState { proposals: self.proposals.update(proposal_id - 1, p), ..self }
    }

    pub open spec fn with_vote(self, who: AccountId, proposal_id: ProposalId, v: Vote) -> VotingState {
        VotingState { votes: self.votes.insert((who, proposal_id), v), ..self }
    }

    pub open spec fn without_vote(self, who: AccountId, proposal_id: ProposalId) -> VotingState {
        VotingState { votes: self.votes.remove((who, proposal_id)), ..self }
    }

    /// The first check that `increase_proposal_time` fails, if any.
    pub open spec fn increase_time_error(
        self,
        origin: Origin,
        proposal_id: ProposalId,
        new_time_period: BlockNumber,
        now: BlockNumber,
    ) -> Option<DispatchError> {
        match signer(origin) {
            None => Some(DispatchError::BadOrigin),
            Some(who) => if !self.has_proposal(proposal_id) {
                Some(DispatchError::Module(Error::ProposalNotFound))
            } else if self.proposal(proposal_id).proposer != who {
                Some(DispatchError::Module(Error::Unauthorized))
            } else if self.proposal(proposal_id).status != ProposalStatus::InProgress {
                Some(DispatchError::Module(Error::ProposalAlreadyEnded))
            } else if new_time_period <= self.proposal(proposal_id).time_period || new_time_period
                <= now {
                Some(DispatchError::Module(Error::TimePeriodTooLow))
            } else {
                None
            },
        }
    }

    /// The first check that `cancel_proposal` fails, if any.
    pub open spec fn cancel_proposal_error(
        self,
        origin: Origin,
        proposal_id: ProposalId,
        now: BlockNumber,
    ) -> Option<DispatchError> {
        match signer(origin) {
            None => Some(DispatchError::BadOrigin),
            Some(who) => if !self.has_proposal(proposal_id) {
                Some(DispatchError::Module(Error::ProposalNotFound))
            } else if self.proposal(proposal_id).proposer != who {
                Some(DispatchError::Module(Error::Unauthorized))
            } else if self.proposal(proposal_id).status != ProposalStatus::InProgress {
                Some(DispatchError::Module(Error::ProposalAlreadyEnded))
            } else if self.proposal(proposal_id).time_period <= now {
                Some(DispatchError::Module(Error::TimePeriodTooLow))
            } else {
                None
            },
        }
    }

    /// The first check that `finish_proposal` fails, if any.
    pub open spec fn finish_error(self, origin: Origin, proposal_id: ProposalId, now: BlockNumber) -> Option<
        DispatchError,
    > {
        match signer(origin) {
            None => Some(DispatchError::BadOrigin),
            Some(who) => if !self.voters.contains(who) {
                Some(DispatchError::Module(Error::VoterIsNotRegistered))
            } else if !self.has_proposal(proposal_id) {
                Some(DispatchError::Module(Error::ProposalNotFound))
            } else if !(self.proposal(proposal_id).time_period < now && self.proposal(
                proposal_id,
            ).status == ProposalStatus::InProgress) {
                Some(DispatchError::Module(Error::ProposalAlreadyEnded))
            } else {
                None
            },
        }
    }

    /// The first check that `vote` fails before the ledger is asked, if any.
    pub open spec fn vote_error(
        self,
        origin: Origin,
        proposal_id: ProposalId,
        d: VoteDecision,
        now: BlockNumber,
    ) -> Option<DispatchError> {
        match signer(origin) {
            None => Some(DispatchError::BadOrigin),
            Some(who) => if !self.voters.contains(who) {
                Some(DispatchError::Module(Error::VoterIsNotRegistered))
            } else if !self.has_proposal(proposal_id) {
                Some(DispatchError::Module(Error::ProposalNotFound))
            } else if !(self.proposal(proposal_id).time_period > now && self.proposal(
                proposal_id,
            ).status == ProposalStatus::InProgress) {
                Some(DispatchError::Module(Error::ProposalAlreadyEnded))
            } else if self.has_vote(who, proposal_id) {
                Some(DispatchError::Module(Error::VoteAlreadyCasted))
            } else if d.amount_spec() == 0 {
                Some(DispatchError::Module(Error::InvalidVoteAmount))
            } else if cost(d.amount_spec()) > u32::MAX || !can_add_vote(
                self.proposal(proposal_id),
                d,
            ) {
                Some(DispatchError::Module(Error::Overflow))
            } else {
                None
            },
        }
    }

    /// The first check that `update_vote` fails before the ledger is asked, if any.
    pub open spec fn update_vote_error(
        self,
        origin: Origin,
        proposal_id: ProposalId,
        d: VoteDecision,
        now: BlockNumber,
    ) -> Option<DispatchError> {
        match signer(origin) {
            None => Some(DispatchError::BadOrigin),
            Some(who) => if !self.voters.contains(who) {
                Some(DispatchError::Module(Error::VoterIsNotRegistered))
            } else if !self.has_proposal(proposal_id) {
                Some(DispatchError::Module(Error::ProposalNotFound))
            } else if !(self.proposal(proposal_id).time_period > now && self.proposal(
                proposal_id,
            ).status == ProposalStatus::InProgress) {
                Some(DispatchError::Module(Error::ProposalAlreadyEnded))
            } else if !self.has_vote(who, proposal_id) {
                Some(DispatchError::Module(Error::VoteNotFound))
            } else if d is Nay && self.passed_threshold(self.proposal(proposal_id).time_period, now) {
                Some(DispatchError::Module(Error::PassedRemovalThreshold))
            } else if d.amount_spec() == 0 {
                Some(DispatchError::Module(Error::InvalidUpdateAmount))
            } else if cost(self.vote(who, proposal_id).vote_decision.amount_spec()) > u32::MAX
                || cost(d.amount_spec()) > u32::MAX || !can_add_vote(
                remove_vote(self.proposal(proposal_id), self.vote(who, proposal_id).vote_decision),
                d,
            ) {
                Some(DispatchError::Module(Error::Overflow))
            } else {
                None
            },
        }
    }

    /// The first check that `cancel_vote` fails, if any.
    pub open spec fn cancel_vote_error(
        self,
        origin: Origin,
        proposal_id: ProposalId,
        now: BlockNumber,
    ) -> Option<DispatchError> {
        match signer(origin) {
            None => Some(DispatchError::BadOrigin),
            Some(who) => if !self.has_proposal(proposal_id) {
                Some(DispatchError::Module(Error::ProposalNotFound))
            } else if !self.has_vote(who, proposal_id) {
                Some(DispatchError::Module(Error::VoteNotFound))
            } else if !(self.proposal(proposal_id).time_period >= now && self.proposal(
                proposal_id,
            ).status == ProposalStatus::InProgress) {
                Some(DispatchError::Module(Error::ProposalAlreadyEnded))
            } else if self.passed_threshold(self.proposal(proposal_id).time_period, now) {
                Some(DispatchError::Module(Error::PassedRemovalThreshold))
            } else if cost(self.vote(who, proposal_id).vote_decision.amount_spec()) > u32::MAX {
                Some(DispatchError::Module(Error::Overflow))
            } else {
                None
            },
        }
    }

    /// The first check that `unlock_balance` fails, if any.
    pub open spec fn unlock_error(self, origin: Origin, proposal_id: ProposalId) -> Option<
        DispatchError,
    > {
        match signer(origin) {
            None => Some(DispatchError::BadOrigin),
            Some(who) => if !self.has_proposal(proposal_id) {
                Some(DispatchError::Module(Error::ProposalNotFound))
            } else if self.proposal(proposal_id).status == ProposalStatus::InProgress {
                Some(DispatchError::Module(Error::ProposalInProgress))
            } else if !self.has_vote(who, proposal_id) {
                Some(DispatchError::Module(Error::VoteNotFound))
            } else if !self.vote(who, proposal_id).locked {
                Some(DispatchError::Module(Error::BalanceAlreadyUnlocked))
            } else if cost(self.vote(who, proposal_id).vote_decision.amount_spec()) > u32::MAX {
                Some(DispatchError::Module(Error::Overflow))
            } else {
                None
            },
        }
    }

    /// The weight that the vote of `who` adds to the ayes of `proposal_id`.
    pub open spec fn aye_weight(self, who: AccountId, proposal_id: ProposalId) -> int {
        aye_part(self.votes, proposal_id, (who, proposal_id))
    }

    /// The weight that the vote of `who` adds to the nays of `proposal_id`.
    pub open spec fn nay_weight(self, who: AccountId, proposal_id: ProposalId) -> int {
        nay_part(self.votes, proposal_id, (who, proposal_id))
    }

    /// The balance that the vote of `who` on `proposal_id` keeps reserved:
    /// the square of its magnitude while it is locked, nothing otherwise.
    pub open spec fn held(self, who: AccountId, proposal_id: ProposalId) -> int {
        if self.has_vote(who, proposal_id) && self.vote(who, proposal_id).locked {
            cost(self.vote(who, proposal_id).vote_decision.amount_spec())
        } else {
            0
        }
    }

    /// Whether fewer than `removal_threshold` blocks remain until `end`.
    pub open spec fn passed_threshold(self, end: BlockNumber, now: BlockNumber) -> bool {
        end - now < self.removal_threshold
    }
}

/// In a well-formed state the ayes and nays of each proposal are the sums of
/// the magnitudes of the aye and nay votes recorded on it. Every operation
/// keeps the state well formed.
pub proof fn lemma_tallies_are_vote_sums(s: VotingState, q: ProposalId)
    requires
        s.wf(),
        s.has_proposal(q),
    ensures
        s.proposal(q).ayes == aye_total(s.votes, q),
        s.proposal(q).nays == nay_total(s.votes, q),
{
}

/// Well-formedness survives a change of the vote of `who` on `proposal_id`
/// that moves that proposal's tallies by the change of the vote's weight.
proof fn lemma_wf_after_vote_change(
    s: VotingState,
    t: VotingState,
    who: AccountId,
    proposal_id: ProposalId,
    p: Proposal,
)
    requires
        s.wf(),
        s.has_proposal(proposal_id),
        p.id == proposal_id,
        p.status == s.proposal(proposal_id).status,
        t.proposals == s.proposals.update(proposal_id - 1, p),
        t.votes.dom().finite(),
        forall|k: VoteKey|
            k != (who, proposal_id) ==> #[trigger] t.votes.contains_key(k) == s.votes.contains_key(k)
                && (s.votes.contains_key(k) ==> t.votes[k] == s.votes[k]),
        t.votes.contains_key((who, proposal_id)) && p.status == ProposalStatus::InProgress
            ==> t.votes[(who, proposal_id)].locked,
        p.ayes == s.proposal(proposal_id).ayes - s.aye_weight(who, proposal_id) + t.aye_weight(
            who,
            proposal_id,
        ),
        p.nays == s.proposal(proposal_id).nays - s.nay_weight(who, proposal_id) + t.nay_weight(
            who,
            proposal_id,
        ),
    ensures
        t.wf(),
{
    assert(s.tallies_match());
    assert forall|q: ProposalId| t.has_proposal(q) implies #[trigger] t.proposal(q).ayes == aye_total(
        t.votes,
        q,
    ) && t.proposal(q).nays == nay_total(t.votes, q) by {
        lemma_tallies_are_vote_sums(s, q);
        lemma_totals_differ_at(s.votes, t.votes, (who, proposal_id), q);
        if q != proposal_id {
            assert(t.proposal(q) == s.proposal(q));
        }
    }
    assert forall|k: VoteKey| #[trigger]
        t.votes.contains_key(k) implies t.has_proposal(k.1) && (t.proposal(k.1).status
        == ProposalStatus::InProgress ==> t.votes[k].locked) by {
        if k != (who, proposal_id) {
            assert(s.votes.contains_key(k));
        }
    }
}

/// Well-formedness survives a change of a proposal that keeps its id and
/// tallies and does not reopen it.
proof fn lemma_wf_after_proposal_edit(s: VotingState, proposal_id: ProposalId, p: Proposal)
    requires
        s.wf(),
        s.has_proposal(proposal_id),
        p.id == proposal_id,
        p.ayes == s.proposal(proposal_id).ayes,
        p.nays == s.proposal(proposal_id).nays,
        p.status == ProposalStatus::InProgress ==> s.proposal(proposal_id).status
            == ProposalStatus::InProgress,
    ensures
        s.with_proposal(proposal_id, p).wf(),
{
    let t = s.with_proposal(proposal_id, p);
    assert forall|q: ProposalId| t.has_proposal(q) implies #[trigger] t.proposal(q).ayes == aye_total(
        t.votes,
        q,
    ) && t.proposal(q).nays == nay_total(t.votes, q) by {
        assert(s.has_proposal(q));
        assert(s.proposal(q).ayes == aye_total(s.votes, q) && s.proposal(q).nays == nay_total(s.votes, q));
    }
}

proof fn lemma_wf_same_votes_and_proposals(s: VotingState, t: VotingState)
    requires
        s.wf(),
        t.proposals == s.proposals,
        t.votes == s.votes,
    ensures
        t.wf(),
{
    assert(s.tallies_match());
    assert forall|q: ProposalId| t.has_proposal(q) implies #[trigger] t.proposal(q).ayes == aye_total(
        t.votes,
        q,
    ) && t.proposal(q).nays == nay_total(t.votes, q) by {
        assert(s.proposal(q).ayes == aye_total(s.votes, q) && s.proposal(q).nays == nay_total(s.votes, q));
    }
}

/// Well-formedness survives adding the next proposal, which no vote names yet.
proof fn lemma_wf_after_new_proposal(s: VotingState, p: Proposal)
    requires
        s.wf(),
        s.proposals.len() < u32::MAX,
        p.id == s.proposals.len() + 1,
        p.ayes == 0,
        p.nays == 0,
    ensures
        s.with_new_proposal(p).wf(),
{
    let t = s.with_new_proposal(p);
    let q = (s.proposals.len() + 1) as ProposalId;
    assert(s.tallies_match());
    assert forall|i: int| 0 <= i < t.proposals.len() implies #[trigger] t.proposals[i].id == i + 1 by {
        if i < s.proposals.len() {
            assert(t.proposals[i] == s.proposals[i]);
        }
    }
    assert(t.ids_ok());
    assert forall|k: VoteKey| #[trigger] s.votes.contains_key(k) implies k.1 != q by {}
    lemma_totals_zero(s.votes, q);
    assert forall|x: ProposalId| t.has_proposal(x) implies #[trigger] t.proposal(x).ayes == aye_total(
        t.votes,
        x,
    ) && t.proposal(x).nays == nay_total(t.votes, x) by {
        if x != q {
            assert(s.has_proposal(x));
            assert(t.proposal(x) == s.proposal(x));
            assert(s.proposal(x).ayes == aye_total(s.votes, x) && s.proposal(x).nays == nay_total(
                s.votes,
                x,
            ));
        }
    }
    assert forall|k: VoteKey| #[trigger]
        t.votes.contains_key(k) implies t.has_proposal(k.1) && (t.proposal(k.1).status
        == ProposalStatus::InProgress ==> t.votes[k].locked) by {
        assert(t.proposal(k.1) == s.proposal(k.1));
    }
    assert(t.votes.dom().finite());
    assert(t.tallies_match());
}

/// The voting module: registered voters, proposals and the votes cast on them.
pub struct Pallet {
    removal_threshold: BlockNumber,
    registered_voters: HashSet<AccountId>,
    proposals: Vec<Proposal>,
    votes: HashMap<u128, Vote>,
}

impl View for Pallet {
    type V = VotingState;

    closed spec fn view(&self) -> VotingState {
        VotingState {
            removal_threshold: self.removal_threshold,
            voters: self.registered_voters@,
            proposals: self.proposals@,
            votes: votes_of(self.votes@),
        }
    }
}

impl Pallet {
    pub open spec fn wf(&self) -> bool {
        self@.wf()
    }

    /// An empty module, with the given removal threshold.
    pub fn new(removal_threshold: BlockNumber) -> (r: Pallet)
        ensures
            r.wf(),
            r@.removal_threshold == removal_threshold,
            r@.voters == Set::<AccountId>::empty(),
            r@.proposals == Seq::<Proposal>::empty(),
            r@.votes == Map::<(AccountId, ProposalId), Vote>::empty(),
    {
        let r = Pallet {
            removal_threshold,
            registered_voters: HashSet::new(),
            proposals: Vec::new(),
            votes: HashMap::new(),
        };
        assert(r@.votes =~= Map::<(AccountId, ProposalId), Vote>::empty());
        r
    }

    pub fn is_registered(&self, who: &AccountId) -> (r: bool)
        ensures
            r == self@.voters.contains(*who),
    {
        self.registered_voters.contains(who)
    }

    pub fn proposal_exists(&self, proposal_id: ProposalId) -> (r: bool)
        ensures
            r == self@.has_proposal(proposal_id),
    {
        proposal_id >= 1 && (proposal_id as usize) <= self.proposals.len()
    }

    /// The id of the last proposal made, 0 when there is none.
    pub fn get_proposal_counter(&self) -> (r: ProposalId)
        requires
            self.wf(),
        ensures
            r == self@.counter(),
    {
        self.proposals.len() as ProposalId
    }

    pub fn get_proposal(&self, proposal_id: &ProposalId) -> (r: Option<Proposal>)
        ensures
            r == (if self@.has_proposal(*proposal_id) {
                Some(self@.proposal(*proposal_id))
            } else {
                None
            }),
    {
        let id = *proposal_id;
        if id >= 1 && (id as usize) <= self.proposals.len() {
            Some(self.proposals[(id - 1) as usize])
        } else {
            None
        }
    }

    pub fn get_vote(&self, who: &AccountId, proposal_id: &ProposalId) -> (r: Option<Vote>)
        ensures
            r == (if self@.has_vote(*who, *proposal_id) {
                Some(self@.vote(*who, *proposal_id))
            } else {
                None
            }),
    {
        let key = compute_vote_key(*who, *proposal_id);
        match self.votes.get(&key) {
            Some(v) => Some(*v),
            None => None,
        }
    }

    pub fn vote_casted(&self, who: &AccountId, proposal_id: &ProposalId) -> (r: bool)
        ensures
            r == self@.has_vote(*who, *proposal_id),
    {
        self.votes.contains_key(&compute_vote_key(*who, *proposal_id))
    }

    /// Whether fewer than the removal threshold of blocks remain until
    /// `end_time_period`.
    pub fn passed_removal_threshold(&self, end_time_period: &BlockNumber, now: BlockNumber) -> (r:
        bool)
        requires
            now <= *end_time_period,
        ensures
            r == self@.passed_threshold(*end_time_period, now),
    {
        *end_time_period - now < self.removal_threshold
    }

    /// Adds `who` to the registered voters; only the root origin may.
    pub fn register_voter(&mut self, origin: Origin, who: AccountId) -> (r: Result<
        Event,
        DispatchError,
    >)
        requires
            old(self).wf(),
        ensures
            final(self).wf(),
            origin != Origin::Root ==> r == Err::<Event, DispatchError>(DispatchError::BadOrigin),
            origin == Origin::Root && old(self)@.voters.contains(who) ==> r == Err::<
                Event,
                DispatchError,
            >(DispatchError::Module(Error::AlreadyRegistered)),
            origin == Origin::Root && !old(self)@.voters.contains(who) ==> r == Ok::<
                Event,
                DispatchError,
            >((Event::VoterRegistered { who })) && final(self)@ == old(self)@.with_voter(who),
            r is Err ==> final(self)@ == old(self)@,
    {
        if origin != Origin::Root {
            return Err(DispatchError::BadOrigin);
        }
        if self.registered_voters.contains(&who) {
            return Err(DispatchError::Module(Error::AlreadyRegistered));
        }
        self.registered_voters.insert(who);
        proof {
            assert(self@.votes =~= old(self)@.votes);
            lemma_wf_same_votes_and_proposals(old(self)@, self@);
        }
        Ok(Event::VoterRegistered { who })
    }

    /// Stores a new proposal of the signer, ending at `time_period`, under the
    /// next id.
    pub fn make_proposal(
        &mut self,
        origin: Origin,
        description: ContentHash,
        time_period: BlockNumber,
        now: BlockNumber,
    ) -> (r: Result<Event, DispatchError>)
        requires
            old(self).wf(),
        ensures
            final(self).wf(),
            signer(origin) is None ==> r == Err::<Event, DispatchError>(DispatchError::BadOrigin),
            signer(origin) is Some && time_period <= now ==> r == Err::<Event, DispatchError>(
                DispatchError::Module(Error::TimePeriodTooLow),
            ),
            signer(origin) is Some && time_period > now && old(self)@.counter() == u32::MAX ==> r
                == Err::<Event, DispatchError>(DispatchError::Module(Error::ProposalIdOverflow)),
            signer(origin) is Some && time_period > now && old(self)@.counter() < u32::MAX ==> {
                let who = signer(origin)->Some_0;
                let id = (old(self)@.counter() + 1) as ProposalId;
                &&& r == Ok::<Event, DispatchError>((Event::ProposalSubmitted { proposal_id: id, who }))
                &&& final(self)@ == old(self)@.with_new_proposal(
                    Proposal::new_spec(id, who, description, time_period),
                )
            },
            r is Err ==> final(self)@ == old(self)@,
    {
        let who = match origin {
            Origin::Signed(w) => w,
            Origin::Root => {
                return Err(DispatchError::BadOrigin);
            },
        };
        if time_period <= now {
            return Err(DispatchError::Module(Error::TimePeriodTooLow));
        }
        let count = self.proposals.len();
        if count >= u32::MAX as usize {
            return Err(DispatchError::Module(Error::ProposalIdOverflow));
        }
        let proposal_id = (count + 1) as ProposalId;
        proof {
            lemma_wf_after_new_proposal(
                self@,
                Proposal::new_spec(proposal_id, who, description, time_period),
            );
        }
        self.proposals.push(Proposal::new(proposal_id, who, description, time_period));
        proof {
            assert(self@.votes =~= old(self)@.votes);
            assert(self@.proposals =~= old(self)@.proposals.push(
                Proposal::new_spec(proposal_id, who, description, time_period),
            ));
        }
        Ok(Event::ProposalSubmitted { proposal_id, who })
    }

    fn put_proposal(&mut self, proposal_id: ProposalId, p: Proposal)
        requires
            old(self)@.ids_ok(),
            old(self)@.has_proposal(proposal_id),
            p.id == proposal_id,
        ensures
            final(self)@ == old(self)@.with_proposal(proposal_id, p),
    {
        self.proposals.set((proposal_id - 1) as usize, p);
        proof {
            assert(self@.votes =~= old(self)@.votes);
            assert(self@.proposals =~= old(self)@.proposals.update(proposal_id - 1, p));
        }
    }

    fn put_vote(&mut self, who: AccountId, proposal_id: ProposalId, v: Vote)
        ensures
            final(self)@ == old(self)@.with_vote(who, proposal_id, v),
    {
        let key = compute_vote_key(who, proposal_id);
        self.votes.insert(key, v);
        proof {
            lemma_votes_of_insert(old(self).votes@, who, proposal_id, v);
        }
    }

    fn take_vote(&mut self, who: AccountId, proposal_id: ProposalId)
        ensures
            final(self)@ == old(self)@.without_vote(who, proposal_id),
    {
        let key = compute_vote_key(who, proposal_id);
        self.votes.remove(&key);
        proof {
            lemma_votes_of_remove(old(self).votes@, who, proposal_id);
        }
    }

    /// Moves the end of a proposal later; only its proposer may, while it is in
    /// progress, and only to a block after both the current end and `now`.
    pub fn increase_proposal_time(
        &mut self,
        origin: Origin,
        proposal_id: ProposalId,
        new_time_period: BlockNumber,
        now: BlockNumber,
    ) -> (r: Result<Event, DispatchError>)
        requires
            old(self).wf(),
        ensures
            final(self).wf(),
            ({
                let e = old(self)@.increase_time_error(origin, proposal_id, new_time_period, now);
                &&& e is Some ==> r == Err::<Event, DispatchError>(e->Some_0)
                &&& e is None ==> r == Ok::<Event, DispatchError>(
                    (Event::ProposalUpdated { proposal_id, end_block: new_time_period }),
                ) && final(self)@ == old(self)@.with_proposal(
                    proposal_id,
                    (Proposal { time_period: new_time_period, ..old(self)@.proposal(proposal_id) }),
                )
            }),
            r is Err ==> final(self)@ == old(self)@,
    {
        let who = match origin {
            Origin::Signed(w) => w,
            Origin::Root => {
                return Err(DispatchError::BadOrigin);
            },
        };
        let mut proposal = match self.get_proposal(&proposal_id) {
            Some(p) => p,
            None => {
                return Err(DispatchError::Module(Error::ProposalNotFound));
            },
        };
        if proposal.proposer != who {
            return Err(DispatchError::Module(Error::Unauthorized));
        }
        if proposal.status != ProposalStatus::InProgress {
            return Err(DispatchError::Module(Error::ProposalAlreadyEnded));
        }
        if new_time_period <= proposal.time_period || new_time_period <= now {
            return Err(DispatchError::Module(Error::TimePeriodTooLow));
        }
        proposal.time_period = new_time_period;
        proof {
            lemma_wf_after_proposal_edit(self@, proposal_id, proposal);
        }
        self.put_proposal(proposal_id, proposal);
        Ok(Event::ProposalUpdated { proposal_id, end_block: new_time_period })
    }

    /// Cancels a proposal; only its proposer may, while it is in progress and
    /// before its end.
    pub fn cancel_proposal(&mut self, origin: Origin, proposal_id: ProposalId, now: BlockNumber) -> (r:
        Result<Event, DispatchError>)
        requires
            old(self).wf(),
        ensures
            final(self).wf(),
            ({
                let e = old(self)@.cancel_proposal_error(origin, proposal_id, now);
                &&& e is Some ==> r == Err::<Event, DispatchError>(e->Some_0)
                &&& e is None ==> r == Ok::<Event, DispatchError>(
                    (Event::ProposalCanceled { proposal_id }),
                ) && final(self)@ == old(self)@.with_proposal(
                    proposal_id,
                    (Proposal { status: ProposalStatus::Canceled, ..old(self)@.proposal(proposal_id) }),
                )
            }),
            r is Err ==> final(self)@ == old(self)@,
    {
        let who = match origin {
            Origin::Signed(w) => w,
            Origin::Root => {
                return Err(DispatchError::BadOrigin);
            },
        };
        let mut proposal = match self.get_proposal(&proposal_id) {
            Some(p) => p,
            None => {
                return Err(DispatchError::Module(Error::ProposalNotFound));
            },
        };
        if proposal.proposer != who {
            return Err(DispatchError::Module(Error::Unauthorized));
        }
        if proposal.status != ProposalStatus::InProgress {
            return Err(DispatchError::Module(Error::ProposalAlreadyEnded));
        }
        if proposal.time_period <= now {
            return Err(DispatchError::Module(Error::TimePeriodTooLow));
        }
        proposal.status = ProposalStatus::Canceled;
        proof {
            lemma_wf_after_proposal_edit(self@, proposal_id, proposal);
        }
        self.put_proposal(proposal_id, proposal);
        Ok(Event::ProposalCanceled { proposal_id })
    }

    /// Closes a proposal whose end has passed, with the status its tallies
    /// resolve to; any registered voter may.
    pub fn finish_proposal(&mut self, origin: Origin, proposal_id: ProposalId, now: BlockNumber) -> (r:
        Result<Event, DispatchError>)
        requires
            old(self).wf(),
        ensures
            final(self).wf(),
            ({
                let e = old(self)@.finish_error(origin, proposal_id, now);
                let p = old(self)@.proposal(proposal_id);
                &&& e is Some ==> r == Err::<Event, DispatchError>(e->Some_0)
                &&& e is None ==> r == Ok::<Event, DispatchError>(
                    (Event::ProposalEnded { proposal_id, status: resolve(p.ayes, p.nays) }),
                ) && final(self)@ == old(self)@.with_proposal(
                    proposal_id,
                    (Proposal { status: resolve(p.ayes, p.nays), ..p }),
                )
            }),
            r is Err ==> final(self)@ == old(self)@,
    {
        let who = match origin {
            Origin::Signed(w) => w,
            Origin::Root => {
                return Err(DispatchError::BadOrigin);
            },
        };
        if !self.registered_voters.contains(&who) {
            return Err(DispatchError::Module(Error::VoterIsNotRegistered));
        }
        let mut proposal = match self.get_proposal(&proposal_id) {
            Some(p) => p,
            None => {
                return Err(DispatchError::Module(Error::ProposalNotFound));
            },
        };
        if !(proposal.time_period < now && proposal.status == ProposalStatus::InProgress) {
            return Err(DispatchError::Module(Error::ProposalAlreadyEnded));
        }
        let status = if proposal.ayes > proposal.nays {
            ProposalStatus::Passed
        } else if proposal.ayes < proposal.nays {
            ProposalStatus::Rejected
        } else {
            ProposalStatus::Tied
        };
        proposal.status = status;
        proof {
            lemma_wf_after_proposal_edit(self@, proposal_id, proposal);
        }
        self.put_proposal(proposal_id, proposal);
        Ok(Event::ProposalEnded { proposal_id, status })
    }

    /// Records a first vote of the signer on a proposal, reserving the square
    /// of its magnitude on the signer's balance. Fails with `Overflow` when
    /// that square or the new tally does not fit in a `u32`, and with the
    /// ledger's own error when the reservation is refused.
    pub fn vote<C: ReservableCurrency>(
        &mut self,
        currency: &mut C,
        origin: Origin,
        proposal_id: ProposalId,
        vote_decision: VoteDecision,
        now: BlockNumber,
    ) -> (r: Result<Event, DispatchError>)
        requires
            old(self).wf(),
        ensures
            final(self).wf(),
            ({
                let e = old(self)@.vote_error(origin, proposal_id, vote_decision, now);
                let who = signer(origin)->Some_0;
                let c = cost(vote_decision.amount_spec());
                &&& e is Some ==> r == Err::<Event, DispatchError>(e->Some_0) && *final(currency)
                    == *old(currency)
                &&& e is None && !old(currency).can_reserve(who, c as u32) ==> r is Err
                    && *final(currency) == *old(currency)
                &&& e is None && old(currency).can_reserve(who, c as u32) ==> {
                    &&& r == Ok::<Event, DispatchError>((Event::VoteCasted { proposal_id, who }))
                    &&& final(self)@ == old(self)@.with_vote(
                        who,
                        proposal_id,
                        (Vote { vote_decision, locked: true }),
                    ).with_proposal(proposal_id, add_vote(old(self)@.proposal(proposal_id), vote_decision))
                    &&& final(currency).reserved_balance(who) == old(currency).reserved_balance(who) + c
                    &&& reserved_elsewhere_unchanged(*old(currency), *final(currency), who)
                }
            }),
            r is Ok && old(currency).reserved_balance(signer(origin)->Some_0) >= old(self)@.held(
                signer(origin)->Some_0,
                proposal_id,
            ) ==> reservation_follows(
                *old(currency),
                *final(currency),
                old(self)@,
                final(self)@,
                signer(origin)->Some_0,
                proposal_id,
            ),
            r is Err ==> final(self)@ == old(self)@,
    {
        let who = match origin {
            Origin::Signed(w) => w,
            Origin::Root => {
                return Err(DispatchError::BadOrigin);
            },
        };
        if !self.registered_voters.contains(&who) {
            return Err(DispatchError::Module(Error::VoterIsNotRegistered));
        }
        let proposal = match self.get_proposal(&proposal_id) {
            Some(p) => p,
            None => {
                return Err(DispatchError::Module(Error::ProposalNotFound));
            },
        };
        if !(proposal.time_period > now && proposal.status == ProposalStatus::InProgress) {
            return Err(DispatchError::Module(Error::ProposalAlreadyEnded));
        }
        if self.vote_casted(&who, &proposal_id) {
            return Err(DispatchError::Module(Error::VoteAlreadyCasted));
        }
        let amount = vote_decision.amount();
        if amount == 0 {
            return Err(DispatchError::Module(Error::InvalidVoteAmount));
        }
        let to_reserve = match checked_cost(amount) {
            Some(c) => c,
            None => {
                return Err(DispatchError::Module(Error::Overflow));
            },
        };
        let updated = match add_tally(proposal, vote_decision) {
            Some(p) => p,
            None => {
                return Err(DispatchError::Module(Error::Overflow));
            },
        };
        match currency.reserve(who, to_reserve) {
            Ok(()) => {},
            Err(e) => {
                return Err(e);
            },
        }
        self.put_vote(who, proposal_id, Vote { vote_decision, locked: true });
        self.put_proposal(proposal_id, updated);
        proof {
            lemma_wf_after_vote_change(old(self)@, self@, who, proposal_id, updated);
        }
        Ok(Event::VoteCasted { proposal_id, who })
    }

    /// Replaces the signer's vote on a proposal, reserving or releasing the
    /// difference between the squares of the new and the old magnitude. Once
    /// fewer than the removal threshold of blocks remain, the new vote may no
    /// longer be a nay.
    pub fn update_vote<C: ReservableCurrency>(
        &mut self,
        currency: &mut C,
        origin: Origin,
        proposal_id: ProposalId,
        new_vote_decision: VoteDecision,
        now: BlockNumber,
    ) -> (r: Result<Event, DispatchError>)
        requires
            old(self).wf(),
        ensures
            final(self).wf(),
            ({
                let e = old(self)@.update_vote_error(origin, proposal_id, new_vote_decision, now);
                let who = signer(origin)->Some_0;
                let prev = old(self)@.vote(who, proposal_id).vote_decision;
                let pa = prev.amount_spec();
                let na = new_vote_decision.amount_spec();
                let next = old(self)@.with_vote(
                    who,
                    proposal_id,
                    (Vote { vote_decision: new_vote_decision, locked: true }),
                ).with_proposal(
                    proposal_id,
                    add_vote(remove_vote(old(self)@.proposal(proposal_id), prev), new_vote_decision),
                );
                let ok = Ok::<Event, DispatchError>((Event::VoteCasted { proposal_id, who }));
                &&& e is Some ==> r == Err::<Event, DispatchError>(e->Some_0) && *final(currency)
                    == *old(currency)
                &&& e is None && na > pa && !old(currency).can_reserve(
                    who,
                    (cost(na) - cost(pa)) as u32,
                ) ==> r is Err && *final(currency) == *old(currency)
                &&& e is None && na > pa && old(currency).can_reserve(
                    who,
                    (cost(na) - cost(pa)) as u32,
                ) ==> r == ok && final(self)@ == next && final(currency).reserved_balance(who)
                    == old(currency).reserved_balance(who) + cost(na) - cost(pa)
                    && reserved_elsewhere_unchanged(*old(currency), *final(currency), who)
                &&& e is None && na < pa ==> r == ok && final(self)@ == next
                    && final(currency).reserved_balance(who) == released(
                    old(currency).reserved_balance(who),
                    cost(pa) - cost(na),
                ) && reserved_elsewhere_unchanged(*old(currency), *final(currency), who)
                &&& e is None && na == pa ==> r == ok && final(self)@ == next && *final(currency)
                    == *old(currency)
            }),
            r is Ok && old(currency).reserved_balance(signer(origin)->Some_0) >= old(self)@.held(
                signer(origin)->Some_0,
                proposal_id,
            ) ==> reservation_follows(
                *old(currency),
                *final(currency),
                old(self)@,
                final(self)@,
                signer(origin)->Some_0,
                proposal_id,
            ),
            r is Err ==> final(self)@ == old(self)@,
    {
        let who = match origin {
            Origin::Signed(w) => w,
            Origin::Root => {
                return Err(DispatchError::BadOrigin);
            },
        };
        if !self.registered_voters.contains(&who) {
            return Err(DispatchError::Module(Error::VoterIsNotRegistered));
        }
        let proposal = match self.get_proposal(&proposal_id) {
            Some(p) => p,
            None => {
                return Err(DispatchError::Module(Error::ProposalNotFound));
            },
        };
        if !(proposal.time_period > now && proposal.status == ProposalStatus::InProgress) {
            return Err(DispatchError::Module(Error::ProposalAlreadyEnded));
        }
        let current = match self.get_vote(&who, &proposal_id) {
            Some(v) => v,
            None => {
                return Err(DispatchError::Module(Error::VoteNotFound));
            },
        };
        proof {
            lemma_totals_cover(self@.votes, proposal_id, (who, proposal_id));
        }
        let reduced = remove_tally(proposal, current.vote_decision);
        if let VoteDecision::Nay(_) = new_vote_decision {
            if self.passed_removal_threshold(&proposal.time_period, now) {
                return Err(DispatchError::Module(Error::PassedRemovalThreshold));
            }
        }
        let current_amount = current.vote_decision.amount();
        let new_amount = new_vote_decision.amount();
        if new_amount == 0 {
            return Err(DispatchError::Module(Error::InvalidUpdateAmount));
        }
        let current_cost = match checked_cost(current_amount) {
            Some(c) => c,
            None => {
                return Err(DispatchError::Module(Error::Overflow));
            },
        };
        let new_cost = match checked_cost(new_amount) {
            Some(c) => c,
            None => {
                return Err(DispatchError::Module(Error::Overflow));
            },
        };
        let updated = match add_tally(reduced, new_vote_decision) {
            Some(p) => p,
            None => {
                return Err(DispatchError::Module(Error::Overflow));
            },
        };
        if new_amount > current_amount {
            assert(new_cost >= current_cost) by (nonlinear_arith)
                requires
                    new_amount > current_amount,
                    new_cost == new_amount as int * new_amount as int,
                    current_cost == current_amount as int * current_amount as int,
            ;
            match currency.reserve(who, new_cost - current_cost) {
                Ok(()) => {},
                Err(e) => {
                    return Err(e);
                },
            }
        } else if new_amount < current_amount {
            assert(current_cost >= new_cost) by (nonlinear_arith)
                requires
                    new_amount < current_amount,
                    new_cost == new_amount as int * new_amount as int,
                    current_cost == current_amount as int * current_amount as int,
            ;
            currency.unreserve(who, current_cost - new_cost);
        }
        self.put_vote(who, proposal_id, Vote { vote_decision: new_vote_decision, locked: true });
        self.put_proposal(proposal_id, updated);
        proof {
            lemma_wf_after_vote_change(old(self)@, self@, who, proposal_id, updated);
        }
        Ok(Event::VoteCasted { proposal_id, who })
    }

    /// Withdraws the signer's vote on a proposal that is in progress and not
    /// yet past the removal threshold, releasing what it reserved.
    pub fn cancel_vote<C: ReservableCurrency>(
        &mut self,
        currency: &mut C,
        origin: Origin,
        proposal_id: ProposalId,
        now: BlockNumber,
    ) -> (r: Result<Event, DispatchError>)
        requires
            old(self).wf(),
        ensures
            final(self).wf(),
            ({
                let e = old(self)@.cancel_vote_error(origin, proposal_id, now);
                let who = signer(origin)->Some_0;
                let prev = old(self)@.vote(who, proposal_id).vote_decision;
                &&& e is Some ==> r == Err::<Event, DispatchError>(e->Some_0) && *final(currency)
                    == *old(currency)
                &&& e is None ==> {
                    &&& r == Ok::<Event, DispatchError>((Event::VoteCanceled { proposal_id, who }))
                    &&& final(self)@ == old(self)@.with_proposal(
                        proposal_id,
                        remove_vote(old(self)@.proposal(proposal_id), prev),
                    ).without_vote(who, proposal_id)
                    &&& final(currency).reserved_balance(who) == released(
                        old(currency).reserved_balance(who),
                        cost(prev.amount_spec()),
                    )
                    &&& reserved_elsewhere_unchanged(*old(currency), *final(currency), who)
                }
            }),
            r is Ok && old(currency).reserved_balance(signer(origin)->Some_0) >= old(self)@.held(
                signer(origin)->Some_0,
                proposal_id,
            ) ==> reservation_follows(
                *old(currency),
                *final(currency),
                old(self)@,
                final(self)@,
                signer(origin)->Some_0,
                proposal_id,
            ),
            r is Err ==> final(self)@ == old(self)@,
    {
        let who = match origin {
            Origin::Signed(w) => w,
            Origin::Root => {
                return Err(DispatchError::BadOrigin);
            },
        };
        let proposal = match self.get_proposal(&proposal_id) {
            Some(p) => p,
            None => {
                return Err(DispatchError::Module(Error::ProposalNotFound));
            },
        };
        let vote = match self.get_vote(&who, &proposal_id) {
            Some(v) => v,
            None => {
                return Err(DispatchError::Module(Error::VoteNotFound));
            },
        };
        if !(proposal.time_period >= now && proposal.status == ProposalStatus::InProgress) {
            return Err(DispatchError::Module(Error::ProposalAlreadyEnded));
        }
        if self.passed_removal_threshold(&proposal.time_period, now) {
            return Err(DispatchError::Module(Error::PassedRemovalThreshold));
        }
        let to_release = match checked_cost(vote.vote_decision.amount()) {
            Some(c) => c,
            None => {
                return Err(DispatchError::Module(Error::Overflow));
            },
        };
        proof {
            lemma_totals_cover(self@.votes, proposal_id, (who, proposal_id));
        }
        let reduced = remove_tally(proposal, vote.vote_decision);
        self.put_proposal(proposal_id, reduced);
        self.take_vote(who, proposal_id);
        proof {
            lemma_wf_after_vote_change(old(self)@, self@, who, proposal_id, reduced);
        }
        currency.unreserve(who, to_release);
        Ok(Event::VoteCanceled { proposal_id, who })
    }

    /// Releases what the signer's vote on a closed proposal reserved; this can
    /// happen once per vote.
    pub fn unlock_balance<C: ReservableCurrency>(
        &mut self,
        currency: &mut C,
        origin: Origin,
        proposal_id: ProposalId,
    ) -> (r: Result<(), DispatchError>)
        requires
            old(self).wf(),
        ensures
            final(self).wf(),
            ({
                let e = old(self)@.unlock_error(origin, proposal_id);
                let who = signer(origin)->Some_0;
                let v = old(self)@.vote(who, proposal_id);
                &&& e is Some ==> r == Err::<(), DispatchError>(e->Some_0) && *final(currency)
                    == *old(currency)
                &&& e is None ==> {
                    &&& r == Ok::<(), DispatchError>(())
                    &&& final(self)@ == old(self)@.with_vote(
                        who,
                        proposal_id,
                        (Vote { locked: false, ..v }),
                    )
                    &&& final(currency).reserved_balance(who) == released(
                        old(currency).reserved_balance(who),
                        cost(v.vote_decision.amount_spec()),
                    )
                    &&& reserved_elsewhere_unchanged(*old(currency), *final(currency), who)
                }
            }),
            r is Ok && old(currency).reserved_balance(signer(origin)->Some_0) >= old(self)@.held(
                signer(origin)->Some_0,
                proposal_id,
            ) ==> reservation_follows(
                *old(currency),
                *final(currency),
                old(self)@,
                final(self)@,
                signer(origin)->Some_0,
                proposal_id,
            ),
            r is Err ==> final(self)@ == old(self)@,
    {
        let who = match origin {
            Origin::Signed(w) => w,
            Origin::Root => {
                return Err(DispatchError::BadOrigin);
            },
        };
        let proposal = match self.get_proposal(&proposal_id) {
            Some(p) => p,
            None => {
                return Err(DispatchError::Module(Error::ProposalNotFound));
            },
        };
        if proposal.status == ProposalStatus::InProgress {
            return Err(DispatchError::Module(Error::ProposalInProgress));
        }
        let mut vote = match self.get_vote(&who, &proposal_id) {
            Some(v) => v,
            None => {
                return Err(DispatchError::Module(Error::VoteNotFound));
            },
        };
        if !vote.locked {
            return Err(DispatchError::Module(Error::BalanceAlreadyUnlocked));
        }
        let to_release = match checked_cost(vote.vote_decision.amount()) {
            Some(c) => c,
            None => {
                return Err(DispatchError::Module(Error::Overflow));
            },
        };
        vote.locked = false;
        self.put_vote(who, proposal_id, vote);
        proof {
            assert(old(self)@.proposals.update(proposal_id - 1, proposal) =~= old(self)@.proposals);
            lemma_wf_after_vote_change(old(self)@, self@, who, proposal_id, proposal);
        }
        currency.unreserve(who, to_release);
        Ok(())
    }
}

} // verus!
