use vstd::prelude::*;
use crate::currency::ReservableCurrency;
use crate::pallet::{
    add_vote, lemma_tallies_are_vote_sums, remove_vote, reservation_follows,
    reserved_elsewhere_unchanged, signer, VotingState,
};
use crate::tally::{held_total, lemma_held_differ_at, lemma_totals_cover};
use crate::types::{
    cost, resolve, AccountId, BlockNumber, DispatchError, Error, Origin, Proposal, ProposalId,
    ProposalStatus, Vote, VoteDecision,
};

verus! {

/// Between `s` and `t` only the vote of `who` on `proposal_id` and that
/// proposal's tallies changed, and each tally moved by exactly the change of
/// that vote's weight in its direction.
pub open spec fn tallies_follow_vote(
    s: VotingState,
    t: VotingState,
    who: AccountId,
    proposal_id: ProposalId,
) -> bool {
    &&& t.proposal(proposal_id).ayes - s.proposal(proposal_id).ayes == t.aye_weight(
        who,
        proposal_id,
    ) - s.aye_weight(who, proposal_id)
    &&& t.proposal(proposal_id).nays - s.proposal(proposal_id).nays == t.nay_weight(
        who,
        proposal_id,
    ) - s.nay_weight(who, proposal_id)
    &&& t.proposals.len() == s.proposals.len()
    &&& forall|q: ProposalId|
        #![trigger t.proposal(q)]
        q != proposal_id && s.has_proposal(q) ==> t.proposal(q) == s.proposal(q)
    &&& forall|w: AccountId, q: ProposalId|
        (w, q) != (who, proposal_id) ==> #[trigger] t.votes.contains_key((w, q)) == s.votes.contains_key(
            (w, q),
        ) && t.votes[(w, q)] == s.votes[(w, q)]
}

/// Casting a vote adds its magnitude to the tally of its direction and
/// reserves exactly what the new vote holds.
pub proof fn lemma_vote_tracks_tallies(
    s: VotingState,
    origin: Origin,
    proposal_id: ProposalId,
    d: VoteDecision,
    now: BlockNumber,
)
    requires
        s.wf(),
        s.vote_error(origin, proposal_id, d, now) is None,
    ensures
        ({
            let who = signer(origin)->Some_0;
            let t = s.with_vote(who, proposal_id, (Vote { vote_decision: d, locked: true })).with_proposal(
                proposal_id,
                add_vote(s.proposal(proposal_id), d),
            );
            &&& tallies_follow_vote(s, t, who, proposal_id)
            &&& t.held(who, proposal_id) - s.held(who, proposal_id) == cost(d.amount_spec())
        }),
{
}

/// Replacing a vote moves each tally by the change of that vote's weight and
/// changes what the vote holds by the difference of the squares.
pub proof fn lemma_update_tracks_tallies(
    s: VotingState,
    origin: Origin,
    proposal_id: ProposalId,
    d: VoteDecision,
    now: BlockNumber,
)
    requires
        s.wf(),
        s.update_vote_error(origin, proposal_id, d, now) is None,
    ensures
        ({
            let who = signer(origin)->Some_0;
            let prev = s.vote(who, proposal_id).vote_decision;
            let t = s.with_vote(who, proposal_id, (Vote { vote_decision: d, locked: true })).with_proposal(
                proposal_id,
                add_vote(remove_vote(s.proposal(proposal_id), prev), d),
            );
            &&& tallies_follow_vote(s, t, who, proposal_id)
            &&& t.held(who, proposal_id) - s.held(who, proposal_id) == cost(d.amount_spec()) - cost(
                prev.amount_spec(),
            )
        }),
{
    let who = signer(origin)->Some_0;
    lemma_tallies_are_vote_sums(s, proposal_id);
    lemma_totals_cover(s.votes, proposal_id, (who, proposal_id));
}

/// Withdrawing a vote takes its magnitude off the tally of its direction and
/// releases all that the vote held.
pub proof fn lemma_cancel_tracks_tallies(
    s: VotingState,
    origin: Origin,
    proposal_id: ProposalId,
    now: BlockNumber,
)
    requires
        s.wf(),
        s.cancel_vote_error(origin, proposal_id, now) is None,
    ensures
        ({
            let who = signer(origin)->Some_0;
            let prev = s.vote(who, proposal_id).vote_decision;
            let t = s.with_proposal(proposal_id, remove_vote(s.proposal(proposal_id), prev)).without_vote(
                who,
                proposal_id,
            );
            &&& tallies_follow_vote(s, t, who, proposal_id)
            &&& t.held(who, proposal_id) == 0
            &&& s.held(who, proposal_id) == cost(prev.amount_spec())
        }),
{
    let who = signer(origin)->Some_0;
    lemma_tallies_are_vote_sums(s, proposal_id);
    lemma_totals_cover(s.votes, proposal_id, (who, proposal_id));
}

/// Unlocking releases all that the vote held, and a second unlock of the same
/// vote fails with `BalanceAlreadyUnlocked`.
pub proof fn lemma_unlock_only_once(s: VotingState, origin: Origin, proposal_id: ProposalId)
    requires
        s.unlock_error(origin, proposal_id) is None,
    ensures
        ({
            let who = signer(origin)->Some_0;
            let v = s.vote(who, proposal_id);
            let t = s.with_vote(who, proposal_id, (Vote { locked: false, ..v }));
            &&& s.held(who, proposal_id) == cost(v.vote_decision.amount_spec())
            &&& t.held(who, proposal_id) == 0
            &&& t.unlock_error(origin, proposal_id) == Some(
                DispatchError::Module(Error::BalanceAlreadyUnlocked),
            )
        }),
{
}

/// A proposal that `finish_proposal` closed stays closed: every later call
/// fails, with `ProposalAlreadyEnded` for any registered caller.
pub proof fn lemma_finish_only_once(
    s: VotingState,
    origin: Origin,
    proposal_id: ProposalId,
    now: BlockNumber,
    later_origin: Origin,
    later: BlockNumber,
)
    requires
        s.wf(),
        s.finish_error(origin, proposal_id, now) is None,
    ensures
        ({
            let p = s.proposal(proposal_id);
            let t = s.with_proposal(proposal_id, (Proposal { status: resolve(p.ayes, p.nays), ..p }));
            &&& t.proposal(proposal_id).status != ProposalStatus::InProgress
            &&& t.finish_error(later_origin, proposal_id, later) is Some
            &&& signer(later_origin) is Some && t.voters.contains(signer(later_origin)->Some_0)
                ==> t.finish_error(later_origin, proposal_id, later) == Some(
                DispatchError::Module(Error::ProposalAlreadyEnded),
            )
        }),
{
}

/// Equal tallies, both zero included, resolve to `Tied`; more ayes to
/// `Passed`; more nays to `Rejected`.
pub proof fn lemma_resolution(ayes: u32, nays: u32)
    ensures
        ayes == nays ==> resolve(ayes, nays) == ProposalStatus::Tied,
        ayes > nays ==> resolve(ayes, nays) == ProposalStatus::Passed,
        ayes < nays ==> resolve(ayes, nays) == ProposalStatus::Rejected,
        resolve(ayes, nays) != ProposalStatus::InProgress,
        resolve(ayes, nays) != ProposalStatus::Canceled,
{
}

/// The ledger reserves on every account exactly what that account's locked
/// votes hold, the square of each one's magnitude.
pub open spec fn reservations_exact<C: ReservableCurrency>(c: C, s: VotingState) -> bool {
    forall|x: AccountId| #[trigger] c.reserved_balance(x) == held_total(s.votes, x)
}

/// A call that changes only the vote of `who` on `proposal_id`, and moves the
/// ledger as `vote`, `update_vote`, `cancel_vote` and `unlock_balance` do on
/// success, keeps every reservation exact. The premise of their reservation
/// clause holds whenever reservations are exact.
pub proof fn lemma_reservations_stay_exact<C: ReservableCurrency>(
    a: C,
    b: C,
    s: VotingState,
    t: VotingState,
    who: AccountId,
    proposal_id: ProposalId,
)
    requires
        s.wf(),
        t.wf(),
        forall|k: (AccountId, ProposalId)|
            k != (who, proposal_id) ==> #[trigger] t.votes.contains_key(k) == s.votes.contains_key(
                k,
            ) && (s.votes.contains_key(k) ==> t.votes[k] == s.votes[k]),
        reservations_exact(a, s),
        a.reserved_balance(who) >= s.held(who, proposal_id) ==> reservation_follows(
            a,
            b,
            s,
            t,
            who,
            proposal_id,
        ),
        reserved_elsewhere_unchanged(a, b, who),
    ensures
        a.reserved_balance(who) >= s.held(who, proposal_id),
        reservations_exact(b, t),
{
    lemma_held_differ_at(s.votes, t.votes, (who, proposal_id), who);
    assert forall|x: AccountId| #[trigger] b.reserved_balance(x) == held_total(t.votes, x) by {
        lemma_held_differ_at(s.votes, t.votes, (who, proposal_id), x);
        assert(a.reserved_balance(x) == held_total(s.votes, x));
    }
}

} // verus!
