//! The reward index: how rewards are spread over the pool and credited to a user.
use crate::error::StakingError;
use crate::event::{Action, Event, RewardsClaimedEvent, TokenTransfer};
use crate::pubkey::Pubkey;
use crate::state::{StakingPool, UserState, UserView, MULTIPLIER};
use vstd::prelude::*;

verus! {

/// What `shares` staked tokens earn while the index moves from `from` to `to`, without a limit.
pub open spec fn accrued(shares: u64, to: u128, from: u128) -> int {
    if to <= from {
        0
    } else {
        (shares * (to - from)) / MULTIPLIER as int
    }
}

/// What `shares` staked tokens earn, limited to what 64 bits can hold.
pub open spec fn rewards(shares: u64, to: u128, from: u128) -> u64 {
    if accrued(shares, to, from) <= u64::MAX {
        accrued(shares, to, from) as u64
    } else {
        u64::MAX
    }
}

/// Whether the product of shares and index difference can be held in 128 bits.
pub open spec fn accrual_fits(shares: u64, to: u128, from: u128) -> bool {
    to > from ==> shares * (to - from) <= u128::MAX
}

/// What `shares` staked tokens earn while the index moves from `user_reward_index` to
/// `current_reward_index`.
pub fn calculate_rewards(
    shares: u64,
    current_reward_index: u128,
    user_reward_index: u128,
) -> (reward: u64)
    requires
        accrual_fits(shares, current_reward_index, user_reward_index),
    ensures
        reward == rewards(shares, current_reward_index, user_reward_index),
{
    if current_reward_index <= user_reward_index {
        return 0;
    }
    let index_delta: u128 = current_reward_index - user_reward_index;
    let reward: u128 = shares as u128 * index_delta / MULTIPLIER as u128;
    if reward <= u64::MAX as u128 {
        reward as u64
    } else {
        u64::MAX
    }
}

/// The user's record after what the stakes earned up to `index` was credited.
pub open spec fn settled(user: UserView, index: u128) -> UserView {
    UserView {
        earned: (user.earned + rewards(user.balance, index, user.reward_index_of)) as u64,
        reward_index_of: index,
        ..user
    }
}

/// Whether the credit can be computed and held.
pub open spec fn settlement_fits(user: UserView, index: u128) -> bool {
    &&& accrual_fits(user.balance, index, user.reward_index_of)
    &&& user.earned + rewards(user.balance, index, user.reward_index_of) <= u64::MAX
}

/// Tells whether `update_rewards` can be called.
pub fn check_settlement_fits(user_state: &UserState, current_reward_index: u128) -> (fits: bool)
    ensures
        fits == settlement_fits(user_state@, current_reward_index),
{
    if current_reward_index <= user_state.reward_index_of {
        return true;
    }
    let index_delta: u128 = current_reward_index - user_state.reward_index_of;
    match (user_state.balance as u128).checked_mul(index_delta) {
        None => false,
        Some(_) => {
            let reward: u64 = calculate_rewards(
                user_state.balance,
                current_reward_index,
                user_state.reward_index_of,
            );
            user_state.earned.checked_add(reward).is_some()
        },
    }
}

/// Credits the user with what the stakes earned up to `current_reward_index`.
pub fn update_rewards(user_state: &mut UserState, current_reward_index: u128)
    requires
        settlement_fits(old(user_state)@, current_reward_index),
    ensures
        final(user_state)@ == settled(old(user_state)@, current_reward_index),
{
    let reward: u64 = calculate_rewards(
        user_state.balance,
        current_reward_index,
        user_state.reward_index_of,
    );
    user_state.earned = user_state.earned + reward;
    user_state.reward_index_of = current_reward_index;
}

/// How far `reward` tokens move the index of a pool of `supply` staked tokens.
pub open spec fn index_step(reward: u64, supply: u64) -> int {
    (reward * MULTIPLIER) / supply as int
}

/// The pool after `reward` tokens were spread over its stakes, or `None` where the index would
/// exceed 128 bits. With nothing staked the index stays where it is.
pub open spec fn credited(pool: StakingPool, reward: u64) -> Option<StakingPool> {
    if pool.total_supply == 0 {
        Some(pool)
    } else if pool.reward_index + index_step(reward, pool.total_supply) <= u128::MAX {
        Some(
            StakingPool {
                reward_index: (pool.reward_index + index_step(reward, pool.total_supply)) as u128,
                ..pool
            },
        )
    } else {
        None
    }
}

/// Spreads `reward` tokens over the staked tokens of the pool.
pub fn update_reward_index(staking_pool: &mut StakingPool, reward: u64) -> (result: Result<
    (),
    StakingError,
>)
    ensures
        match credited(*old(staking_pool), reward) {
            Some(pool) => result is Ok && *final(staking_pool) == pool,
            None => result == Err::<(), StakingError>(StakingError::ArithmeticOverflow)
                && *final(staking_pool) == *old(staking_pool),
        },
{
    if staking_pool.total_supply == 0 {
        return Ok(());
    }
    assert(reward * MULTIPLIER <= u64::MAX * MULTIPLIER) by (nonlinear_arith)
        requires
            reward <= u64::MAX,
    ;
    let index_delta: u128 = reward as u128 * MULTIPLIER as u128 / staking_pool.total_supply as u128;
    match staking_pool.reward_index.checked_add(index_delta) {
        None => Err(StakingError::ArithmeticOverflow),
        Some(index) => {
            staking_pool.reward_index = index;
            Ok(())
        },
    }
}

/// The user's record after the credited rewards were paid.
pub open spec fn paid_out(user: UserView) -> UserView {
    UserView { earned: 0, ..user }
}

/// The steps that pay `amount` reward tokens out of the reward vault; none where there is nothing
/// to pay.
pub open spec fn reward_payment(
    pool_key: Pubkey,
    bump: u8,
    reward_vault: Pubkey,
    to: Pubkey,
    user: Pubkey,
    amount: u64,
) -> Seq<Action> {
    if amount == 0 {
        Seq::empty()
    } else {
        seq![
            Action::Transfer(
                TokenTransfer {
                    from: reward_vault,
                    to,
                    authority: pool_key,
                    amount,
                    pool_bump: Some(bump),
                },
            ),
            Action::Emit(Event::RewardsClaimed(RewardsClaimedEvent { user, amount })),
        ]
    }
}

/// Pays all that is credited to the user, and tells the log that `user` was paid.
pub fn pay_earned(
    user_state: &mut UserState,
    pool_key: Pubkey,
    bump: u8,
    reward_vault: Pubkey,
    to: Pubkey,
    user: Pubkey,
    actions: &mut Vec<Action>,
)
    ensures
        final(user_state)@ == paid_out(old(user_state)@),
        final(actions)@ == old(actions)@ + reward_payment(
            pool_key,
            bump,
            reward_vault,
            to,
            user,
            old(user_state)@.earned,
        ),
{
    let reward: u64 = user_state.earned;
    if reward > 0 {
        user_state.earned = 0;
        actions.push(
            Action::Transfer(
                TokenTransfer {
                    from: reward_vault,
                    to,
                    authority: pool_key,
                    amount: reward,
                    pool_bump: Some(bump),
                },
            ),
        );
        actions.push(
            Action::Emit(Event::RewardsClaimed(RewardsClaimedEvent { user, amount: reward })),
        );
    }
    assert(actions@ =~= old(actions)@ + reward_payment(
        pool_key,
        bump,
        reward_vault,
        to,
        user,
        old(user_state)@.earned,
    ));
}

/// Credits the user with what the stakes earned and pays all of it to `user_reward_account`.
pub fn claim_internal(
    user_state: &mut UserState,
    pool_key: Pubkey,
    staking_pool: &StakingPool,
    reward_vault: Pubkey,
    user_reward_account: Pubkey,
    actions: &mut Vec<Action>,
)
    requires
        settlement_fits(old(user_state)@, staking_pool.reward_index),
    ensures
        final(user_state)@ == paid_out(settled(old(user_state)@, staking_pool.reward_index)),
        final(actions)@ == old(actions)@ + reward_payment(
            pool_key,
            staking_pool.bump,
            reward_vault,
            user_reward_account,
            old(user_state)@.owner,
            settled(old(user_state)@, staking_pool.reward_index).earned,
        ),
{
    update_rewards(user_state, staking_pool.reward_index);
    let owner: Pubkey = user_state.owner;
    pay_earned(
        user_state,
        pool_key,
        staking_pool.bump,
        reward_vault,
        user_reward_account,
        owner,
        actions,
    );
}

} // verus!
