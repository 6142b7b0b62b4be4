//! Setting up the pool and bringing rewards into it.
use crate::accounts::{AddRewards, Initialize};
use crate::error::{Rejection, StakingError};
use crate::event::{Action, Event, RewardsAddedEvent, TokenTransfer};
use crate::instructions::refusal;
use crate::laws::claiming::{law_add_rewards_brings_them_in, rewards_came_in};
use crate::rewards::{credited, update_reward_index};
use crate::state::StakingPool;
use vstd::prelude::*;

verus! {

/// Sets up the pool, `bump` being the bump of its address.
pub fn initialize(accounts: &mut Initialize, bump: u8) -> (result: Result<(), Rejection>)
    ensures
        result is Ok,
        final(accounts).staking_pool.key == old(accounts).staking_pool.key,
        final(accounts).staking_pool.data == (StakingPool {
            staking_mint: old(accounts).staking_mint,
            reward_mint: old(accounts).reward_mint,
            staking_vault: old(accounts).staking_vault,
            reward_vault: old(accounts).reward_vault,
            authority: old(accounts).authority,
            total_supply: 0,
            reward_index: 0,
            bump,
        }),
        final(accounts).staking_mint == old(accounts).staking_mint,
        final(accounts).reward_mint == old(accounts).reward_mint,
        final(accounts).staking_vault == old(accounts).staking_vault,
        final(accounts).reward_vault == old(accounts).reward_vault,
        final(accounts).authority == old(accounts).authority,
{
    accounts.staking_pool.data.staking_mint = accounts.staking_mint;
    accounts.staking_pool.data.reward_mint = accounts.reward_mint;
    accounts.staking_pool.data.staking_vault = accounts.staking_vault;
    accounts.staking_pool.data.reward_vault = accounts.reward_vault;
    accounts.staking_pool.data.authority = accounts.authority;
    accounts.staking_pool.data.total_supply = 0;
    accounts.staking_pool.data.reward_index = 0;
    accounts.staking_pool.data.bump = bump;
    Ok(())
}


/// The transfer that brings rewards into the vault.
pub open spec fn funding(accounts: AddRewards, amount: u64) -> Action {
    Action::Transfer(
        TokenTransfer {
            from: accounts.from_account.key,
            to: accounts.reward_vault,
            authority: accounts.authority,
            amount,
            pool_bump: None,
        },
    )
}

/// Brings `amount` reward tokens into the pool and spreads them over the stakes.
pub fn add_rewards(accounts: &mut AddRewards, amount: u64, actions: &mut Vec<Action>) -> (result:
    Result<(), Rejection>)
    ensures
        match credited(old(accounts).staking_pool.data, amount) {
            Some(pool) => {
                &&& result is Ok
                &&& old(accounts).becomes(*final(accounts), pool)
                &&& final(actions)@ == old(actions)@ + seq![
                    funding(*old(accounts), amount),
                    Action::Emit(Event::RewardsAdded(RewardsAddedEvent { amount })),
                ]
            },
            None => {
                &&& result == refusal(StakingError::ArithmeticOverflow)
                &&& old(accounts).becomes(*final(accounts), old(accounts).staking_pool.data)
                &&& final(actions)@ == old(actions)@ + seq![funding(*old(accounts), amount)]
            },
        },
        rewards_came_in(
            *old(accounts),
            amount,
            old(actions)@,
            *final(accounts),
            final(actions)@,
            result,
        ),
{
    let ghost before = *accounts;
    actions.push(
        Action::Transfer(
            TokenTransfer {
                from: accounts.from_account.key,
                to: accounts.reward_vault,
                authority: accounts.authority,
                amount,
                pool_bump: None,
            },
        ),
    );
    assert(actions@ =~= old(actions)@ + seq![funding(*old(accounts), amount)]);
    match update_reward_index(&mut accounts.staking_pool.data, amount) {
        Err(error) => {
            proof {
                law_add_rewards_brings_them_in(
                    before,
                    amount,
                    old(actions)@,
                    *accounts,
                    actions@,
                    Err(Rejection::Staking(error)),
                );
            }
            return Err(Rejection::Staking(error));
        },
        Ok(_) => {},
    }
    actions.push(Action::Emit(Event::RewardsAdded(RewardsAddedEvent { amount })));
    assert(actions@ =~= old(actions)@ + seq![
        funding(*old(accounts), amount),
        Action::Emit(Event::RewardsAdded(RewardsAddedEvent { amount })),
    ]);
    proof {
        law_add_rewards_brings_them_in(
            before,
            amount,
            old(actions)@,
            *accounts,
            actions@,
            Ok(()),
        );
    }
    Ok(())
}

} // verus!
