//! What the program stores: the pool, one record per user, and the fixed periods.
use crate::pubkey::Pubkey;
use vstd::prelude::*;

verus! {

/// The scale of the reward index: an index of `MULTIPLIER` is one reward token per staked token.
pub const MULTIPLIER: u64 = 1_000_000_000_000_000_000;

/// How many seconds a stake stays locked.
pub const LOCK_PERIOD: i64 = 300;

/// How many seconds pass between unstaking and withdrawal.
pub const UNBONDING_PERIOD: i64 = 120;

/// How many stakes with a positive amount a user may hold.
pub const MAX_ACTIVE_STAKES: usize = 50;

/// How close in time two stakes are joined when a user is at the limit: one day, in seconds.
pub const SIMILAR_STAKE_WINDOW: i64 = 86_400;

/// How many stakes or requests one call goes through when the caller gives no number.
pub const DEFAULT_BATCH: u64 = 25;

/// The pool that all users stake into.
#[derive(Clone, Copy, Debug, PartialEq, Eq)]
pub struct StakingPool {
    pub staking_mint: Pubkey,
    pub reward_mint: Pubkey,
    pub staking_vault: Pubkey,
    pub reward_vault: Pubkey,
    pub authority: Pubkey,
    pub total_supply: u64,
    pub reward_index: u128,
    pub bump: u8,
}

/// One deposit: how much of it is still staked, and when it was made.
#[derive(Clone, Copy, Debug, Default, PartialEq, Eq, Structural)]
pub struct StakeInfo {
    pub amount: u64,
    pub timestamp: i64,
}

/// An unstaked amount on its way back to the user.
#[derive(Clone, Copy, Debug, Default, PartialEq, Eq, Structural)]
pub struct UnbondingRequest {
    pub amount: u64,
    pub unbonding_end_time: i64,
    pub withdrawn: bool,
}

/// What the program knows of one user.
#[derive(Clone, Debug, PartialEq, Eq)]
pub struct UserState {
    pub owner: Pubkey,
    pub balance: u64,
    pub reward_index_of: u128,
    pub earned: u64,
    pub stakes: Vec<StakeInfo>,
    pub unbonding_requests: Vec<UnbondingRequest>,
}

/// A user's record as a mathematical value.
#[verifier::ext_equal]
pub struct UserView {
    pub owner: Pubkey,
    pub balance: u64,
    pub reward_index_of: u128,
    pub earned: u64,
    pub stakes: Seq<StakeInfo>,
    pub unbonding_requests: Seq<UnbondingRequest>,
}

impl View for UserState {
    type V = UserView;

    open spec fn view(&self) -> UserView {
        UserView {
            owner: self.owner,
            balance: self.balance,
            reward_index_of: self.reward_index_of,
            earned: self.earned,
            stakes: self.stakes@,
            unbonding_requests: self.unbonding_requests@,
        }
    }
}

impl Default for StakingPool {
    /// A pool that has not been set up.
    fn default() -> (pool: Self)
        ensures
            pool.staking_mint.is_default(),
            pool.reward_mint.is_default(),
            pool.staking_vault.is_default(),
            pool.reward_vault.is_default(),
            pool.authority.is_default(),
            pool.total_supply == 0,
            pool.reward_index == 0,
            pool.bump == 0,
    {
        StakingPool {
            staking_mint: Pubkey::default(),
            reward_mint: Pubkey::default(),
            staking_vault: Pubkey::default(),
            reward_vault: Pubkey::default(),
            authority: Pubkey::default(),
            total_supply: 0,
            reward_index: 0,
            bump: 0,
        }
    }
}

impl Default for UserState {
    /// The record of a user who has not staked yet.
    fn default() -> (user: Self)
        ensures
            user.owner.is_default(),
            user.balance == 0,
            user.reward_index_of == 0,
            user.earned == 0,
            user.stakes@ == Seq::<StakeInfo>::empty(),
            user.unbonding_requests@ == Seq::<UnbondingRequest>::empty(),
    {
        UserState {
            owner: Pubkey::default(),
            balance: 0,
            reward_index_of: 0,
            earned: 0,
            stakes: Vec::new(),
            unbonding_requests: Vec::new(),
        }
    }
}

/// Something stored at an address.
#[derive(Debug, PartialEq, Eq)]
pub struct Account<T> {
    pub key: Pubkey,
    pub data: T,
}

/// Who may move the tokens of a token account, and which token it holds.
#[derive(Clone, Copy, Debug, PartialEq, Eq)]
pub struct TokenAccount {
    pub owner: Pubkey,
    pub mint: Pubkey,
}

} // verus!
