//! What holds of rewards.
use crate::accounts::Claim;
use crate::event::Action;
use crate::instructions::user::{claim_fits, claim_step};
use crate::rewards::{
    accrual_fits, accrued, credited, index_step, reward_payment, rewards, settled, settlement_fits,
};
use crate::state::{StakingPool, UserView, MULTIPLIER};
use vstd::arithmetic::div_mod::{
    lemma_div_is_ordered, lemma_div_pos_is_pos, lemma_fundamental_div_mod,
};
use vstd::prelude::*;

verus! {

/// Unlimited earnings, times the scale, are the product of shares and index difference, less a
/// remainder.
pub proof fn lemma_accrued_bounds(shares: u64, to: u128, from: u128)
    ensures
        accrued(shares, to, from) >= 0,
        to > from ==> accrued(shares, to, from) * MULTIPLIER <= shares * (to - from),
        to > from ==> shares * (to - from) < (accrued(shares, to, from) + 1) * MULTIPLIER,
{
    if to > from {
        let product = shares * (to - from);
        assert(product >= 0) by (nonlinear_arith)
            requires
                product == shares * (to - from),
                to > from,
        ;
        lemma_fundamental_div_mod(product, MULTIPLIER as int);
        lemma_div_pos_is_pos(product, MULTIPLIER as int);
    }
}

/// More shares and a longer way of the index never earn less.
pub proof fn law_rewards_grow(
    shares: u64,
    more_shares: u64,
    from: u128,
    earlier: u128,
    to: u128,
    later: u128,
)
    requires
        shares <= more_shares,
        earlier <= from,
        to <= later,
    ensures
        rewards(shares, to, from) <= rewards(more_shares, later, earlier),
{
    lemma_accrued_bounds(more_shares, later, earlier);
    if to > from {
        assert(shares * (to - from) <= more_shares * (later - earlier)) by (nonlinear_arith)
            requires
                0 <= shares <= more_shares,
                0 <= to - from <= later - earlier,
        ;
        lemma_div_is_ordered(
            shares * (to - from),
            more_shares * (later - earlier),
            MULTIPLIER as int,
        );
        lemma_accrued_bounds(shares, to, from);
    }
}

/// Settling in between never earns more than settling once at the end, as long as the parts do
/// not together exceed the limit of 64 bits.
pub proof fn law_settling_often_earns_no_more(shares: u64, first: u128, second: u128, third: u128)
    requires
        first <= second <= third,
        rewards(shares, second, first) + rewards(shares, third, second) <= u64::MAX,
    ensures
        rewards(shares, second, first) + rewards(shares, third, second) <= rewards(
            shares,
            third,
            first,
        ),
{
    let a = accrued(shares, second, first);
    let b = accrued(shares, third, second);
    let c = accrued(shares, third, first);
    lemma_accrued_bounds(shares, second, first);
    lemma_accrued_bounds(shares, third, second);
    lemma_accrued_bounds(shares, third, first);
    if first < second && second < third {
        assert(shares * (second - first) + shares * (third - second) == shares * (third - first))
            by (nonlinear_arith);
        assert((a + b) * MULTIPLIER < (c + 1) * MULTIPLIER) by (nonlinear_arith)
            requires
                a * MULTIPLIER + b * MULTIPLIER < (c + 1) * MULTIPLIER,
        ;
        assert(a + b < c + 1) by (nonlinear_arith)
            requires
                (a + b) * MULTIPLIER < (c + 1) * MULTIPLIER,
        ;
    }
}

/// A second settlement at the same index credits nothing.
pub proof fn law_settling_again_changes_nothing(user: UserView, index: u128)
    requires
        settlement_fits(user, index),
    ensures
        settlement_fits(settled(user, index), index),
        settled(settled(user, index), index) == settled(user, index),
{
}

/// A second claim at the same index pays nothing.
pub proof fn law_claiming_again_pays_nothing(accounts: Claim, after: Claim)
    requires
        claim_fits(accounts),
        accounts.becomes(after, claim_step(accounts).pool, claim_step(accounts).user),
    ensures
        claim_fits(after),
        claim_step(after).actions == Seq::<Action>::empty(),
        claim_step(after).user == claim_step(accounts).user,
{
}

/// What a claim pays is what was credited before plus what the stakes earned since.
pub proof fn law_claim_pays_what_was_earned(accounts: Claim)
    requires
        claim_fits(accounts),
    ensures
        ({
            let user = accounts.user_state.data@;
            let pool = accounts.staking_pool.data;
            let amount = user.earned + rewards(
                user.balance,
                pool.reward_index,
                user.reward_index_of,
            );
            &&& claim_step(accounts).actions == reward_payment(
                accounts.staking_pool.key,
                pool.bump,
                accounts.reward_vault,
                accounts.user_reward_account.key,
                accounts.user,
                amount as u64,
            )
            &&& amount <= u64::MAX
            &&& claim_step(accounts).user.earned == 0
            &&& claim_step(accounts).user.balance == user.balance
        }),
{
}

/// Adding rewards never moves the index back and changes nothing else of the pool.
pub proof fn law_index_never_falls(pool: StakingPool, reward: u64)
    ensures
        credited(pool, reward) matches Some(after) ==> {
            &&& after.reward_index >= pool.reward_index
            &&& after == StakingPool { reward_index: after.reward_index, ..pool }
        },
{
    if pool.total_supply > 0 {
        lemma_index_step_bounds(reward, pool.total_supply);
    }
}

proof fn lemma_index_step_bounds(reward: u64, supply: u64)
    requires
        supply > 0,
    ensures
        index_step(reward, supply) >= 0,
        supply * index_step(reward, supply) <= reward * MULTIPLIER,
{
    let product = reward * MULTIPLIER;
    lemma_fundamental_div_mod(product, supply as int);
    lemma_div_pos_is_pos(product, supply as int);
}

/// The pool after several rewards were added one after the other.
pub open spec fn credited_all(pool: StakingPool, added: Seq<u64>) -> Option<StakingPool>
    decreases added.len(),
{
    if added.len() == 0 {
        Some(pool)
    } else {
        match credited_all(pool, added.drop_last()) {
            None => None,
            Some(before) => credited(before, added.last()),
        }
    }
}

/// The sum of a list of amounts.
pub open spec fn total(amounts: Seq<u64>) -> int
    decreases amounts.len(),
{
    if amounts.len() == 0 {
        0
    } else {
        total(amounts.drop_last()) + amounts.last()
    }
}

/// What holders of the given balances earn together while the index moves from `from` to `to`.
pub open spec fn total_rewards(balances: Seq<u64>, to: u128, from: u128) -> int
    decreases balances.len(),
{
    if balances.len() == 0 {
        0
    } else {
        total_rewards(balances.drop_last(), to, from) + rewards(balances.last(), to, from)
    }
}

proof fn lemma_index_way(pool: StakingPool, added: Seq<u64>)
    requires
        credited_all(pool, added) is Some,
    ensures
        credited_all(pool, added).unwrap().total_supply == pool.total_supply,
        credited_all(pool, added).unwrap().reward_index >= pool.reward_index,
        pool.total_supply * (credited_all(pool, added).unwrap().reward_index - pool.reward_index)
            <= total(added) * MULTIPLIER,
    decreases added.len(),
{
    if added.len() == 0 {
        assert(pool.total_supply * 0 == 0);
    } else {
        let before = credited_all(pool, added.drop_last()).unwrap();
        let after = credited_all(pool, added).unwrap();
        let rest = total(added.drop_last());
        let last = added.last();
        lemma_index_way(pool, added.drop_last());
        if pool.total_supply > 0 {
            let step = index_step(last, pool.total_supply);
            lemma_index_step_bounds(last, pool.total_supply);
            assert(pool.total_supply * (after.reward_index - pool.reward_index)
                == pool.total_supply * (before.reward_index - pool.reward_index)
                + pool.total_supply * step) by (nonlinear_arith)
                requires
                    after.reward_index == before.reward_index + step,
            ;
        } else {
            assert(0 <= total(added)) by {
                lemma_total_not_negative(added);
            }
            assert(pool.total_supply * (after.reward_index - pool.reward_index) == 0)
                by (nonlinear_arith)
                requires
                    pool.total_supply == 0,
            ;
        }
        assert((rest + last) * MULTIPLIER == rest * MULTIPLIER + last * MULTIPLIER)
            by (nonlinear_arith);
    }
}

/// A sum of amounts is not negative.
pub proof fn lemma_total_not_negative(amounts: Seq<u64>)
    ensures
        total(amounts) >= 0,
    decreases amounts.len(),
{
    if amounts.len() > 0 {
        lemma_total_not_negative(amounts.drop_last());
    }
}

proof fn lemma_total_rewards_bound(balances: Seq<u64>, to: u128, from: u128)
    requires
        to >= from,
    ensures
        total_rewards(balances, to, from) * MULTIPLIER <= total(balances) * (to - from),
    decreases balances.len(),
{
    if balances.len() == 0 {
        assert(0 * (to - from) == 0);
    } else {
        let rest = balances.drop_last();
        let last = balances.last();
        lemma_total_rewards_bound(rest, to, from);
        lemma_accrued_bounds(last, to, from);
        let r = rewards(last, to, from) as int;
        assert(r * MULTIPLIER <= last * (to - from)) by {
            if to == from {
                assert(last * (to - from) == 0) by (nonlinear_arith)
                    requires
                        to == from,
                ;
            } else {
                assert(r * MULTIPLIER <= accrued(last, to, from) * MULTIPLIER) by (nonlinear_arith)
                    requires
                        r <= accrued(last, to, from),
                ;
            }
        }
        let sum = total_rewards(rest, to, from);
        let staked = total(rest);
        assert((sum + r) * MULTIPLIER == sum * MULTIPLIER + r * MULTIPLIER) by (nonlinear_arith);
        assert((staked + last) * (to - from) == staked * (to - from) + last * (to - from))
            by (nonlinear_arith);
    }
}

/// However many rewards are added, all holders together never earn more by them than was brought
/// in, as long as the balances make up no more than the pool's supply.
pub proof fn law_rewards_are_covered(pool: StakingPool, added: Seq<u64>, balances: Seq<u64>)
    requires
        credited_all(pool, added) is Some,
        total(balances) <= pool.total_supply,
    ensures
        total_rewards(
            balances,
            credited_all(pool, added).unwrap().reward_index,
            pool.reward_index,
        ) <= total(added),
{
    let to = credited_all(pool, added).unwrap().reward_index;
    let from = pool.reward_index;
    let paid = total_rewards(balances, to, from);
    let staked = total(balances);
    let brought = total(added);
    lemma_index_way(pool, added);
    lemma_total_rewards_bound(balances, to, from);
    assert(staked * (to - from) <= pool.total_supply * (to - from)) by (nonlinear_arith)
        requires
            staked <= pool.total_supply,
            to >= from,
    ;
    assert(paid <= brought) by (nonlinear_arith)
        requires
            paid * MULTIPLIER <= brought * MULTIPLIER,
    ;
}

/// A balance that was settled earns nothing until rewards are added.
pub proof fn law_no_rewards_without_additions(shares: u64, index: u128)
    ensures
        accrual_fits(shares, index, index),
        rewards(shares, index, index) == 0,
{
}

} // verus!
