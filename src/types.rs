use vstd::prelude::*;

verus! {

/// Identifier of a proposal, handed out in increasing order starting at 1.
pub type ProposalId = u32;

/// Identity of an account (a voter or a proposer).
pub type AccountId = u64;

/// Block height, the ledger's notion of time.
pub type BlockNumber = u64;

/// Opaque reference to the content of a proposal.
pub type ContentHash = [u8; 32];

/// Who is calling: the privileged root caller, or an authenticated account.
#[derive(Clone, Copy, Debug, PartialEq, Eq, Structural)]
pub enum Origin {
    Root,
    Signed(AccountId),
}

/// Direction of a vote, with its strictly positive magnitude.
#[derive(Clone, Copy, Debug, PartialEq, Eq, Structural)]
pub enum VoteDecision {
    Aye(u32),
    Nay(u32),
}

impl VoteDecision {
    pub open spec fn amount_spec(self) -> u32 {
        match self {
            VoteDecision::Aye(v) => v,
            VoteDecision::Nay(v) => v,
        }
    }

    /// The magnitude carried by the decision, whatever its direction.
    pub fn amount(&self) -> (r: u32)
        ensures
            r == self.amount_spec(),
    {
        match *self {
            VoteDecision::Aye(v) => v,
            VoteDecision::Nay(v) => v,
        }
    }
}

/// A recorded vote of one account on one proposal.
#[derive(Clone, Copy, Debug, PartialEq, Eq, Structural)]
pub struct Vote {
    pub vote_decision: VoteDecision,
    /// True while the balance reserved for this vote has not been returned.
    pub locked: bool,
}

#[derive(Clone, Copy, Debug, PartialEq, Eq, Structural)]
pub enum ProposalStatus {
    InProgress,
    Canceled,
    Passed,
    Rejected,
    Tied,
}

#[derive(Clone, Copy, Debug)]
pub struct Proposal {
    pub id: ProposalId,
    pub proposer: AccountId,
    pub text: ContentHash,
    /// The block at which voting ends.
    pub time_period: BlockNumber,
    pub status: ProposalStatus,
    pub ayes: u32,
    pub nays: u32,
}

impl Proposal {
    pub open spec fn new_spec(
        id: ProposalId,
        proposer: AccountId,
        text: ContentHash,
        time_period: BlockNumber,
    ) -> Proposal {
        Proposal { id, proposer, text, time_period, status: ProposalStatus::InProgress, ayes: 0, nays: 0 }
    }

    /// A fresh proposal: in progress, with both tallies at zero.
    pub fn new(id: ProposalId, proposer: AccountId, text: ContentHash, time_period: BlockNumber) -> (r:
        Proposal)
        ensures
            r == Proposal::new_spec(id, proposer, text, time_period),
    {
        Proposal {
            id,
            proposer,
            text,
            time_period,
            status: ProposalStatus::InProgress,
            ayes: 0,
            nays: 0,
        }
    }
}

/// What a successful call signals.
#[derive(Clone, Copy, Debug, PartialEq, Eq, Structural)]
pub enum Event {
    VoterRegistered { who: AccountId },
    ProposalSubmitted { proposal_id: ProposalId, who: AccountId },
    VoteCasted { proposal_id: ProposalId, who: AccountId },
    VoteCanceled { proposal_id: ProposalId, who: AccountId },
    ProposalEnded { proposal_id: ProposalId, status: ProposalStatus },
    ProposalUpdated { proposal_id: ProposalId, end_block: BlockNumber },
    ProposalCanceled { proposal_id: ProposalId },
}

/// Errors raised by the voting rules themselves.
#[derive(Clone, Copy, Debug, PartialEq, Eq, Structural)]
pub enum Error {
    AlreadyRegistered,
    VoterIsNotRegistered,
    VoteAlreadyCasted,
    VoteNotFound,
    InvalidVoteAmount,
    InvalidUpdateAmount,
    TimePeriodTooLow,
    ProposalIdOverflow,
    ProposalNotFound,
    Unauthorized,
    ProposalAlreadyEnded,
    BalanceAlreadyUnlocked,
    PassedRemovalThreshold,
    ProposalInProgress,
    Overflow,
}

/// Why a call failed: a bad origin, a rule of this module, or the balance ledger.
#[derive(Clone, Copy, Debug, PartialEq, Eq, Structural)]
pub enum DispatchError {
    BadOrigin,
    Module(Error),
    InsufficientBalance,
}

/// Balance reserved for a vote of the given magnitude: its square.
pub open spec fn cost(amount: u32) -> int {
    amount as int * amount as int
}

/// The terminal status that tallies resolve to.
pub open spec fn resolve(ayes: u32, nays: u32) -> ProposalStatus {
    if ayes > nays {
        ProposalStatus::Passed
    } else if ayes < nays {
        ProposalStatus::Rejected
    } else {
        ProposalStatus::Tied
    }
}

} // verus!
