use vstd::prelude::*;
use vstd::set::fold::{is_fun_commutative, lemma_fold_empty, lemma_fold_insert};
use vstd::set_lib::lemma_set_empty_equivalency_len;
use crate::types::{cost, AccountId, ProposalId, Vote, VoteDecision};

verus! {

/// Key of a recorded vote: the voter and the proposal.
pub type VoteKey = (AccountId, ProposalId);

/// Weight of the vote stored under `k` towards the ayes of proposal `q`.
pub open spec fn aye_part(votes: Map<VoteKey, Vote>, q: ProposalId, k: VoteKey) -> int {
    if k.1 == q && votes.contains_key(k) {
        match votes[k].vote_decision {
            VoteDecision::Aye(v) => v as int,
            VoteDecision::Nay(_) => 0,
        }
    } else {
        0
    }
}

/// Weight of the vote stored under `k` towards the nays of proposal `q`.
pub open spec fn nay_part(votes: Map<VoteKey, Vote>, q: ProposalId, k: VoteKey) -> int {
    if k.1 == q && votes.contains_key(k) {
        match votes[k].vote_decision {
            VoteDecision::Aye(_) => 0,
            VoteDecision::Nay(v) => v as int,
        }
    } else {
        0
    }
}

/// What the vote stored under `k` keeps reserved on `who`: the square of its
/// magnitude while it is locked and `who` cast it, nothing otherwise.
pub open spec fn held_part(votes: Map<VoteKey, Vote>, who: AccountId, k: VoteKey) -> int {
    if k.0 == who && votes.contains_key(k) && votes[k].locked {
        cost(votes[k].vote_decision.amount_spec())
    } else {
        0
    }
}

pub open spec fn held_parts(votes: Map<VoteKey, Vote>, who: AccountId) -> spec_fn(VoteKey) -> int {
    |k: VoteKey| held_part(votes, who, k)
}

/// Everything that the votes of `who` keep reserved, over all proposals.
pub open spec fn held_total(votes: Map<VoteKey, Vote>, who: AccountId) -> int {
    sum_over(votes.dom(), held_parts(votes, who))
}

pub open spec fn aye_parts(votes: Map<VoteKey, Vote>, q: ProposalId) -> spec_fn(VoteKey) -> int {
    |k: VoteKey| aye_part(votes, q, k)
}

pub open spec fn nay_parts(votes: Map<VoteKey, Vote>, q: ProposalId) -> spec_fn(VoteKey) -> int {
    |k: VoteKey| nay_part(votes, q, k)
}

pub open spec fn adder(part: spec_fn(VoteKey) -> int) -> spec_fn(int, VoteKey) -> int {
    |acc: int, k: VoteKey| acc + part(k)
}

/// The sum of `part` over the finite set `keys`.
pub open spec fn sum_over(keys: Set<VoteKey>, part: spec_fn(VoteKey) -> int) -> int {
    keys.fold(0int, adder(part))
}

/// Sum of the aye weights of the votes recorded for proposal `q`.
pub open spec fn aye_total(votes: Map<VoteKey, Vote>, q: ProposalId) -> int {
    sum_over(votes.dom(), aye_parts(votes, q))
}

/// Sum of the nay weights of the votes recorded for proposal `q`.
pub open spec fn nay_total(votes: Map<VoteKey, Vote>, q: ProposalId) -> int {
    sum_over(votes.dom(), nay_parts(votes, q))
}

proof fn lemma_adder_commutative(part: spec_fn(VoteKey) -> int)
    ensures
        is_fun_commutative(adder(part)),
{
    let f = adder(part);
    assert forall|a1: VoteKey, a2: VoteKey, b: int| #[trigger] f(f(b, a2), a1) == f(f(b, a1), a2) by {
    }
}

pub proof fn lemma_sum_empty(part: spec_fn(VoteKey) -> int)
    ensures
        sum_over(Set::empty(), part) == 0,
{
    lemma_fold_empty(0int, adder(part));
}

pub proof fn lemma_sum_insert(keys: Set<VoteKey>, part: spec_fn(VoteKey) -> int, k: VoteKey)
    requires
        keys.finite(),
        !keys.contains(k),
    ensures
        sum_over(keys.insert(k), part) == sum_over(keys, part) + part(k),
{
    lemma_adder_commutative(part);
    lemma_fold_insert(keys, 0int, adder(part), k);
}

pub proof fn lemma_sum_remove(keys: Set<VoteKey>, part: spec_fn(VoteKey) -> int, k: VoteKey)
    requires
        keys.finite(),
        keys.contains(k),
    ensures
        sum_over(keys, part) == sum_over(keys.remove(k), part) + part(k),
{
    assert(keys.remove(k).insert(k) =~= keys);
    lemma_sum_insert(keys.remove(k), part, k);
}

/// Sums of two functions that agree on `keys` are equal.
pub proof fn lemma_sum_congruent(
    keys: Set<VoteKey>,
    f: spec_fn(VoteKey) -> int,
    g: spec_fn(VoteKey) -> int,
)
    requires
        keys.finite(),
        forall|k: VoteKey| keys.contains(k) ==> f(k) == g(k),
    ensures
        sum_over(keys, f) == sum_over(keys, g),
    decreases keys.len(),
{
    lemma_set_empty_equivalency_len(keys);
    if keys.len() == 0 {
        lemma_sum_empty(f);
        lemma_sum_empty(g);
    } else {
        let k = keys.choose();
        lemma_sum_remove(keys, f, k);
        lemma_sum_remove(keys, g, k);
        lemma_sum_congruent(keys.remove(k), f, g);
    }
}

/// A sum of non-negative terms is at least each of its terms, and is zero
/// when every term is.
pub proof fn lemma_sum_bounds(keys: Set<VoteKey>, part: spec_fn(VoteKey) -> int)
    requires
        keys.finite(),
        forall|k: VoteKey| keys.contains(k) ==> part(k) >= 0,
    ensures
        sum_over(keys, part) >= 0,
        forall|k: VoteKey| keys.contains(k) ==> sum_over(keys, part) >= part(k),
        (forall|k: VoteKey| keys.contains(k) ==> part(k) == 0) ==> sum_over(keys, part) == 0,
    decreases keys.len(),
{
    lemma_set_empty_equivalency_len(keys);
    if keys.len() == 0 {
        lemma_sum_empty(part);
    } else {
        let k0 = keys.choose();
        lemma_sum_remove(keys, part, k0);
        lemma_sum_bounds(keys.remove(k0), part);
        assert forall|k: VoteKey| keys.contains(k) implies sum_over(keys, part) >= part(k) by {
            if k != k0 {
                assert(keys.remove(k0).contains(k));
            }
        }
    }
}

/// Changing the votes at the single key `k0` moves each total by the change
/// of that key's weight.
pub proof fn lemma_totals_differ_at(
    a: Map<VoteKey, Vote>,
    b: Map<VoteKey, Vote>,
    k0: VoteKey,
    q: ProposalId,
)
    requires
        a.dom().finite(),
        b.dom().finite(),
        forall|k: VoteKey|
            k != k0 ==> #[trigger] b.contains_key(k) == a.contains_key(k) && (a.contains_key(k)
                ==> b[k] == a[k]),
    ensures
        aye_total(b, q) == aye_total(a, q) - aye_part(a, q, k0) + aye_part(b, q, k0),
        nay_total(b, q) == nay_total(a, q) - nay_part(a, q, k0) + nay_part(b, q, k0),
{
    let rest = a.dom().remove(k0);
    assert(b.dom().remove(k0) =~= rest);
    if a.contains_key(k0) {
        lemma_sum_remove(a.dom(), aye_parts(a, q), k0);
        lemma_sum_remove(a.dom(), nay_parts(a, q), k0);
    } else {
        assert(a.dom() =~= rest);
    }
    if b.contains_key(k0) {
        lemma_sum_remove(b.dom(), aye_parts(b, q), k0);
        lemma_sum_remove(b.dom(), nay_parts(b, q), k0);
    } else {
        assert(b.dom() =~= rest);
    }
    lemma_sum_congruent(rest, aye_parts(a, q), aye_parts(b, q));
    lemma_sum_congruent(rest, nay_parts(a, q), nay_parts(b, q));
}

/// Each total is at least the weight of any one vote in it.
pub proof fn lemma_totals_cover(votes: Map<VoteKey, Vote>, q: ProposalId, k: VoteKey)
    requires
        votes.dom().finite(),
    ensures
        aye_total(votes, q) >= aye_part(votes, q, k),
        nay_total(votes, q) >= nay_part(votes, q, k),
{
    lemma_sum_bounds(votes.dom(), aye_parts(votes, q));
    lemma_sum_bounds(votes.dom(), nay_parts(votes, q));
}

/// The totals of a proposal that no recorded vote names are zero.
pub proof fn lemma_totals_zero(votes: Map<VoteKey, Vote>, q: ProposalId)
    requires
        votes.dom().finite(),
        forall|k: VoteKey| #[trigger] votes.contains_key(k) ==> k.1 != q,
    ensures
        aye_total(votes, q) == 0,
        nay_total(votes, q) == 0,
{
    lemma_sum_bounds(votes.dom(), aye_parts(votes, q));
    lemma_sum_bounds(votes.dom(), nay_parts(votes, q));
}

/// Changing the votes at the single key `k0` moves what each account holds by
/// the change at that key.
pub proof fn lemma_held_differ_at(
    a: Map<VoteKey, Vote>,
    b: Map<VoteKey, Vote>,
    k0: VoteKey,
    who: AccountId,
)
    requires
        a.dom().finite(),
        b.dom().finite(),
        forall|k: VoteKey|
            k != k0 ==> #[trigger] b.contains_key(k) == a.contains_key(k) && (a.contains_key(k)
                ==> b[k] == a[k]),
    ensures
        held_total(b, who) == held_total(a, who) - held_part(a, who, k0) + held_part(b, who, k0),
        held_total(a, who) >= held_part(a, who, k0),
{
    let rest = a.dom().remove(k0);
    assert(b.dom().remove(k0) =~= rest);
    if a.contains_key(k0) {
        lemma_sum_remove(a.dom(), held_parts(a, who), k0);
    } else {
        assert(a.dom() =~= rest);
    }
    if b.contains_key(k0) {
        lemma_sum_remove(b.dom(), held_parts(b, who), k0);
    } else {
        assert(b.dom() =~= rest);
    }
    lemma_sum_congruent(rest, held_parts(a, who), held_parts(b, who));
    assert forall|k: VoteKey| a.dom().contains(k) implies held_parts(a, who)(k) >= 0 by {
        assert(cost(a[k].vote_decision.amount_spec()) >= 0) by (nonlinear_arith);
    }
    lemma_sum_bounds(a.dom(), held_parts(a, who));
}

} // verus!
