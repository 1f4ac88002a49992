pub mod codec;
pub mod currency;
pub mod laws;
pub mod pallet;
pub mod tally;
pub mod types;

pub use currency::{Balances, ReservableCurrency};
pub use pallet::{Pallet, VotingState};
pub use types::{
    AccountId, BlockNumber, ContentHash, DispatchError, Error, Event, Origin, Proposal, ProposalId,
    ProposalStatus, Vote, VoteDecision,
};
