//! What settling, claiming and adding rewards come to.
use crate::accounts::{AddRewards, Claim};
use crate::error::{Rejection, StakingError};
use crate::event::{Action, Event, RewardsAddedEvent};
use crate::instructions::pool::funding;
use crate::instructions::user::{claim_fits, claim_step};
use crate::laws::terms::{
    added, extends, is_share, lemma_added, lemma_payment_total, lemma_rewards_are_the_share,
    lemma_share_is_unique, paid_from, pays, pool_kept, pool_moved,
};
use crate::pubkey::Pubkey;
use crate::rewards::{
    accrual_fits, credited, index_step, paid_out, reward_payment, rewards, settled,
    settlement_fits,
};
use crate::state::{StakingPool, UserView, MULTIPLIER};
use vstd::arithmetic::div_mod::lemma_fundamental_div_mod;
use vstd::prelude::*;

verus! {

/// The computed reward is the balance times the way of the index, in units of 10^18, rounded down
/// and cut off at 64 bits; where the index did not move on, it is nothing.
pub proof fn law_rewards_are_rounded_down(shares: u64, to: u128, from: u128)
    ensures
        to <= from ==> rewards(shares, to, from) == 0,
        to > from ==> rewards(shares, to, from) * 1_000_000_000_000_000_000 <= shares * (to - from),
        to > from && rewards(shares, to, from) < u64::MAX ==> shares * (to - from) < (rewards(
            shares,
            to,
            from,
        ) + 1) * 1_000_000_000_000_000_000,
        accrual_fits(shares, to, from) <==> to <= from || shares * (to - from) <= u128::MAX,
{
    lemma_rewards_are_the_share(shares, to, from);
}

/// Settling adds the share to what was earned, notes the index, and leaves the rest. It can be
/// done exactly where the product and the sum can be held.
pub proof fn law_settling_adds_the_share(user: UserView, index: u128, reward: int)
    requires
        is_share(reward, user.balance as int, index as int, user.reward_index_of as int),
    ensures
        settlement_fits(user, index) <==> {
            &&& index <= user.reward_index_of || user.balance * (index - user.reward_index_of)
                <= u128::MAX
            &&& user.earned + reward <= u64::MAX
        },
        settlement_fits(user, index) ==> {
            let after = settled(user, index);
            &&& after.earned == user.earned + reward
            &&& after.reward_index_of == index
            &&& after.owner == user.owner
            &&& after.balance == user.balance
            &&& after.stakes == user.stakes
            &&& after.unbonding_requests == user.unbonding_requests
        },
{
    lemma_rewards_are_the_share(user.balance, index, user.reward_index_of);
    lemma_share_is_unique(
        reward,
        rewards(user.balance, index, user.reward_index_of) as int,
        user.balance as int,
        index as int,
        user.reward_index_of as int,
    );
}

/// A payment of rewards moves exactly the amount that it is for.
pub proof fn law_payment_moves_its_amount(
    pool_key: Pubkey,
    bump: u8,
    reward_vault: Pubkey,
    to: Pubkey,
    user: Pubkey,
    amount: u64,
)
    ensures
        pays(
            reward_payment(pool_key, bump, reward_vault, to, user, amount),
            amount as int,
            reward_vault,
            to,
            pool_key,
            bump,
            user,
        ),
        paid_from(
            reward_payment(pool_key, bump, reward_vault, to, user, amount),
            reward_vault,
        ) == amount,
{
    lemma_payment_total(
        reward_payment(pool_key, bump, reward_vault, to, user, amount),
        amount as int,
        reward_vault,
        to,
        pool_key,
        bump,
        user,
    );
}

/// Paying out leaves nothing earned and touches nothing else.
pub proof fn law_paying_out_empties_earnings(user: UserView)
    ensures
        paid_out(user).earned == 0,
        paid_out(user).owner == user.owner,
        paid_out(user).balance == user.balance,
        paid_out(user).reward_index_of == user.reward_index_of,
        paid_out(user).stakes == user.stakes,
        paid_out(user).unbonding_requests == user.unbonding_requests,
{
}

/// A claim can be done exactly where the share can be computed and the sum can be held.
pub proof fn law_claim_is_open(accounts: Claim, reward: int)
    requires
        is_share(
            reward,
            accounts.user_state.data.balance as int,
            accounts.staking_pool.data.reward_index as int,
            accounts.user_state.data.reward_index_of as int,
        ),
    ensures
        ({
            let user = accounts.user_state.data;
            let index = accounts.staking_pool.data.reward_index;
            claim_fits(accounts) <==> {
                &&& index <= user.reward_index_of || user.balance * (index - user.reward_index_of)
                    <= u128::MAX
                &&& user.earned + reward <= u64::MAX
            }
        }),
{
    law_settling_adds_the_share(
        accounts.user_state.data@,
        accounts.staking_pool.data.reward_index,
        reward,
    );
}

/// A claim succeeds. What leaves the reward vault is what had been earned plus the share since,
/// and goes to the user's reward account in one transfer; then nothing is left earned, the record
/// is settled, and all else is as before.
pub proof fn law_claim_pays_everything(
    before: Claim,
    actions: Seq<Action>,
    after: Claim,
    actions_after: Seq<Action>,
    result: Result<(), Rejection>,
)
    requires
        claim_fits(before),
        result == claim_step(before).result,
        before.becomes(after, claim_step(before).pool, claim_step(before).user),
        actions_after == actions + claim_step(before).actions,
    ensures
        result is Ok,
        extends(actions, actions_after),
        ({
            let steps = added(actions, actions_after);
            let paid = paid_from(steps, before.reward_vault);
            let user = before.user_state.data;
            &&& is_share(
                paid - user.earned,
                user.balance as int,
                before.staking_pool.data.reward_index as int,
                user.reward_index_of as int,
            )
            &&& pays(
                steps,
                paid,
                before.reward_vault,
                before.user_reward_account.key,
                before.staking_pool.key,
                before.staking_pool.data.bump,
                before.user,
            )
        }),
        after.user_state.data.earned == 0,
        after.user_state.data.reward_index_of == before.staking_pool.data.reward_index,
        after.user_state.data.owner == before.user_state.data.owner,
        after.user_state.data.balance == before.user_state.data.balance,
        after.user_state.data.stakes@ == before.user_state.data.stakes@,
        after.user_state.data.unbonding_requests@ == before.user_state.data.unbonding_requests@,
        after.user_state.key == before.user_state.key,
        pool_kept(before.staking_pool.data, after.staking_pool.data),
        after.staking_pool.key == before.staking_pool.key,
        after.reward_vault == before.reward_vault,
        after.user_reward_account == before.user_reward_account,
        after.user == before.user,
{
    let user = before.user_state.data@;
    let index = before.staking_pool.data.reward_index;
    lemma_added(actions, claim_step(before).actions);
    lemma_rewards_are_the_share(user.balance, index, user.reward_index_of);
    law_payment_moves_its_amount(
        before.staking_pool.key,
        before.staking_pool.data.bump,
        before.reward_vault,
        before.user_reward_account.key,
        before.user,
        settled(user, index).earned,
    );
}

/// Whether adding rewards came to what it is for. A transfer brings the amount from the
/// authority's account into the reward vault. The index rises by the amount per staked token, in
/// units of 10^18 and rounded down, and the log tells of the amount; with nothing staked the index
/// stays. Where the index would exceed 128 bits the addition is refused, and neither index nor log
/// tells of it. Nothing else changes.
pub open spec fn rewards_came_in(
    before: AddRewards,
    amount: u64,
    actions: Seq<Action>,
    after: AddRewards,
    actions_after: Seq<Action>,
    result: Result<(), Rejection>,
) -> bool {
    let pool = before.staking_pool.data;
    let supply = pool.total_supply;
    let rise = after.staking_pool.data.reward_index - pool.reward_index;
    let steps = added(actions, actions_after);
    &&& extends(actions, actions_after)
    &&& steps.len() == if result is Ok {
        2int
    } else {
        1
    }
    &&& steps[0] matches Action::Transfer(transfer)
    &&& transfer.from == before.from_account.key
    &&& transfer.to == before.reward_vault
    &&& transfer.authority == before.authority
    &&& transfer.amount == amount
    &&& transfer.pool_bump is None
    &&& result is Ok ==> (steps[1] matches Action::Emit(Event::RewardsAdded(entry))
        && entry.amount == amount)
    &&& result is Ok && supply == 0 ==> rise == 0
    &&& result is Ok && supply > 0 ==> supply * rise <= amount * 1_000_000_000_000_000_000 < supply
        * (rise + 1)
    &&& result is Err ==> {
        &&& result == Err::<(), Rejection>(Rejection::Staking(StakingError::ArithmeticOverflow))
        &&& rise == 0
        &&& supply > 0
        &&& amount * 1_000_000_000_000_000_000 >= supply * (u128::MAX + 1 - pool.reward_index)
    }
    &&& pool_moved(pool, after.staking_pool.data, supply as int, pool.reward_index + rise)
    &&& after.staking_pool.key == before.staking_pool.key
    &&& after.reward_vault == before.reward_vault
    &&& after.from_account == before.from_account
    &&& after.authority == before.authority
}

/// A run of `add_rewards` as its contract has it brings the rewards in.
pub proof fn law_add_rewards_brings_them_in(
    before: AddRewards,
    amount: u64,
    actions: Seq<Action>,
    after: AddRewards,
    actions_after: Seq<Action>,
    result: Result<(), Rejection>,
)
    requires
        match credited(before.staking_pool.data, amount) {
            Some(pool) => {
                &&& result is Ok
                &&& before.becomes(after, pool)
                &&& actions_after == actions + seq![
                    funding(before, amount),
                    Action::Emit(Event::RewardsAdded(RewardsAddedEvent { amount })),
                ]
            },
            None => {
                &&& result == Err::<(), Rejection>(
                    Rejection::Staking(StakingError::ArithmeticOverflow),
                )
                &&& before.becomes(after, before.staking_pool.data)
                &&& actions_after == actions + seq![funding(before, amount)]
            },
        },
    ensures
        rewards_came_in(before, amount, actions, after, actions_after, result),
{
    let pool = before.staking_pool.data;
    lemma_added(
        actions,
        seq![
            funding(before, amount),
            Action::Emit(Event::RewardsAdded(RewardsAddedEvent { amount })),
        ],
    );
    lemma_added(actions, seq![funding(before, amount)]);
    if pool.total_supply > 0 {
        let supply = pool.total_supply as int;
        let whole = amount * 1_000_000_000_000_000_000;
        let step = whole / supply;
        lemma_floor(whole, supply);
        law_added_rewards_are_spread(pool, amount, step);
        if credited(pool, amount) is None {
            assert(supply * (u128::MAX + 1 - pool.reward_index) <= supply * step)
                by (nonlinear_arith)
                requires
                    supply > 0,
                    u128::MAX + 1 - pool.reward_index <= step,
            ;
        }
    } else {
        law_added_rewards_are_spread(pool, amount, 0);
    }
}

/// A quotient is the largest number of whole parts.
pub proof fn lemma_floor(whole: int, part: int)
    requires
        part > 0,
    ensures
        part * (whole / part) <= whole < part * (whole / part + 1),
{
    lemma_fundamental_div_mod(whole, part);
    let q = whole / part;
    assert(part * (q + 1) == part * q + part) by (nonlinear_arith);
}

/// Adding rewards moves the index by the reward per staked token, in units of 10^18, rounded down.
/// With nothing staked the index stays; where it would exceed 128 bits the addition is refused.
/// Nothing else of the pool changes.
pub proof fn law_added_rewards_are_spread(pool: StakingPool, reward: u64, step: int)
    requires
        pool.total_supply > 0 ==> pool.total_supply * step <= reward * 1_000_000_000_000_000_000
            < pool.total_supply * (step + 1),
        pool.total_supply == 0 ==> step == 0,
    ensures
        match credited(pool, reward) {
            Some(after) => {
                &&& after.reward_index == pool.reward_index + step
                &&& after.total_supply == pool.total_supply
                &&& after.staking_mint == pool.staking_mint
                &&& after.reward_mint == pool.reward_mint
                &&& after.staking_vault == pool.staking_vault
                &&& after.reward_vault == pool.reward_vault
                &&& after.authority == pool.authority
                &&& after.bump == pool.bump
            },
            None => pool.reward_index + step > u128::MAX,
        },
{
    if pool.total_supply > 0 {
        let supply = pool.total_supply as int;
        let product = reward * MULTIPLIER;
        let computed = index_step(reward, pool.total_supply);
        lemma_fundamental_div_mod(product, supply);
        assert(product == supply * computed + product % supply);
        assert(0 <= product % supply < supply);
        assert(computed == step) by (nonlinear_arith)
            requires
                supply > 0,
                supply * step <= product < supply * (step + 1),
                supply * computed <= product < supply * computed + supply,
        ;
    }
}

/// The transfer that goes with added rewards takes their amount from the authority's account to
/// the reward vault.
pub proof fn law_funding_brings_the_amount(accounts: AddRewards, amount: u64)
    ensures
        funding(accounts, amount) matches Action::Transfer(transfer) && {
            &&& transfer.from == accounts.from_account.key
            &&& transfer.to == accounts.reward_vault
            &&& transfer.authority == accounts.authority
            &&& transfer.amount == amount
            &&& transfer.pool_bump is None
        },
{
}

} // verus!
