//! What an instruction asks the chain to do: token transfers and log entries.
use crate::pubkey::Pubkey;
use vstd::prelude::*;

verus! {

#[derive(Clone, Copy, Debug, PartialEq, Eq)]
pub struct StakedEvent {
    pub user: Pubkey,
    pub amount: u64,
    pub timestamp: i64,
}

#[derive(Clone, Copy, Debug, PartialEq, Eq)]
pub struct UnbondingStartedEvent {
    pub user: Pubkey,
    pub amount: u64,
    pub unbonding_end_time: i64,
}

#[derive(Clone, Copy, Debug, PartialEq, Eq)]
pub struct WithdrawnEvent {
    pub user: Pubkey,
    pub amount: u64,
}

#[derive(Clone, Copy, Debug, PartialEq, Eq)]
pub struct RewardsClaimedEvent {
    pub user: Pubkey,
    pub amount: u64,
}

#[derive(Clone, Copy, Debug, PartialEq, Eq)]
pub struct RewardsAddedEvent {
    pub amount: u64,
}

#[derive(Clone, Copy, Debug, PartialEq, Eq)]
pub struct StakesConsolidatedEvent {
    pub user: Pubkey,
    pub resulting_stake_count: u64,
}

#[derive(Clone, Copy, Debug, PartialEq, Eq)]
pub struct PartialUnstakeEvent {
    pub user: Pubkey,
    pub requested_amount: u64,
    pub processed_amount: u64,
    pub remaining_amount: u64,
    pub next_index: u64,
}

#[derive(Clone, Copy, Debug, PartialEq, Eq)]
pub struct PendingWithdrawalsEvent {
    pub user: Pubkey,
    pub remaining_count: u64,
}

#[derive(Clone, Copy, Debug, PartialEq, Eq)]
pub struct StakeConsolidatedEvent {
    pub user: Pubkey,
    pub amount: u64,
    pub existing_stake_index: u64,
    pub total_stakes: u64,
}

#[derive(Clone, Copy, Debug, PartialEq, Eq)]
pub struct StakeLimitReachedEvent {
    pub user: Pubkey,
    pub current_stakes: u64,
    pub max_stakes: u64,
}

#[derive(Clone, Copy, Debug, PartialEq, Eq)]
pub struct ApproachingStakeLimitEvent {
    pub user: Pubkey,
    pub current_stakes: u64,
    pub max_stakes: u64,
}

/// An entry in the program's log.
#[derive(Clone, Copy, Debug, PartialEq, Eq)]
pub enum Event {
    Staked(StakedEvent),
    UnbondingStarted(UnbondingStartedEvent),
    Withdrawn(WithdrawnEvent),
    RewardsClaimed(RewardsClaimedEvent),
    RewardsAdded(RewardsAddedEvent),
    StakesConsolidated(StakesConsolidatedEvent),
    PartialUnstake(PartialUnstakeEvent),
    PendingWithdrawals(PendingWithdrawalsEvent),
    StakeConsolidated(StakeConsolidatedEvent),
    StakeLimitReached(StakeLimitReachedEvent),
    ApproachingStakeLimit(ApproachingStakeLimitEvent),
}

/// A movement of tokens between two token accounts.
#[derive(Clone, Copy, Debug, PartialEq, Eq)]
pub struct TokenTransfer {
    pub from: Pubkey,
    pub to: Pubkey,
    pub authority: Pubkey,
    pub amount: u64,
    /// Where the pool is the authority: the bump with which the program signs for it.
    pub pool_bump: Option<u8>,
}

/// One step that the chain carries out for an instruction, in the order in which they are listed.
/// An instruction whose transfer fails ends there.
#[derive(Clone, Copy, Debug, PartialEq, Eq)]
pub enum Action {
    Transfer(TokenTransfer),
    Emit(Event),
}

} // verus!
