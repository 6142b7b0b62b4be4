//! Claiming rewards, tidying stakes, and taking over a record.
use crate::accounts::{Claim, ConsolidateStakes, UpdateUserOwner};
use crate::consolidation::{
    check_consolidation_fits, consolidated, consolidation_fits, merge_stakes,
};
use crate::error::{Rejection, StakingError};
use crate::event::{Action, Event, StakesConsolidatedEvent};
use crate::instructions::{refusal, Step};
use crate::rewards::{
    check_settlement_fits, paid_out, pay_earned, reward_payment, settled, settlement_fits,
    update_rewards,
};
use crate::state::UserView;
use vstd::prelude::*;

verus! {

/// What claiming leads to.
pub open spec fn claim_step(accounts: Claim) -> Step {
    let pool = accounts.staking_pool.data;
    let user = settled(accounts.user_state.data@, pool.reward_index);
    Step {
        pool,
        user: paid_out(user),
        actions: reward_payment(
            accounts.staking_pool.key,
            pool.bump,
            accounts.reward_vault,
            accounts.user_reward_account.key,
            accounts.user,
            user.earned,
        ),
        result: Ok(()),
    }
}

/// Whether no number exceeds its type in a claim.
pub open spec fn claim_fits(accounts: Claim) -> bool {
    settlement_fits(accounts.user_state.data@, accounts.staking_pool.data.reward_index)
}

/// Tells whether `claim` can be called.
pub fn check_claim_fits(accounts: &Claim) -> (fits: bool)
    ensures
        fits == claim_fits(*accounts),
{
    check_settlement_fits(&accounts.user_state.data, accounts.staking_pool.data.reward_index)
}

/// Credits the user with what the stakes earned and pays all of it.
pub fn claim(accounts: &mut Claim, actions: &mut Vec<Action>) -> (result: Result<(), Rejection>)
    requires
        claim_fits(*old(accounts)),
    ensures
        result == claim_step(*old(accounts)).result,
        old(accounts).becomes(
            *final(accounts),
            claim_step(*old(accounts)).pool,
            claim_step(*old(accounts)).user,
        ),
        final(actions)@ == old(actions)@ + claim_step(*old(accounts)).actions,
{
    update_rewards(&mut accounts.user_state.data, accounts.staking_pool.data.reward_index);
    pay_earned(
        &mut accounts.user_state.data,
        accounts.staking_pool.key,
        accounts.staking_pool.data.bump,
        accounts.reward_vault,
        accounts.user_reward_account.key,
        accounts.user,
        actions,
    );
    Ok(())
}


/// What consolidating leads to.
pub open spec fn consolidate_step(accounts: ConsolidateStakes, time_window: i64) -> Step {
    let pool = accounts.staking_pool.data;
    let record = accounts.user_state.data@;
    if time_window <= 0 {
        Step {
            pool,
            user: record,
            actions: Seq::empty(),
            result: refusal(StakingError::InvalidTimeWindow),
        }
    } else {
        let user = settled(record, pool.reward_index);
        let stakes = consolidated(user.stakes, time_window);
        Step {
            pool,
            user: UserView { stakes, ..user },
            actions: seq![
                Action::Emit(
                    Event::StakesConsolidated(
                        StakesConsolidatedEvent {
                            user: accounts.user,
                            resulting_stake_count: stakes.len() as u64,
                        },
                    ),
                ),
            ],
            result: Ok(()),
        }
    }
}

/// Whether no number exceeds its type in consolidating.
pub open spec fn consolidate_fits(accounts: ConsolidateStakes, time_window: i64) -> bool {
    let record = accounts.user_state.data@;
    time_window > 0 ==> {
        &&& settlement_fits(record, accounts.staking_pool.data.reward_index)
        &&& consolidation_fits(record.stakes, time_window)
    }
}

/// Tells whether `consolidate_stakes` can be called.
pub fn check_consolidate_fits(accounts: &ConsolidateStakes, time_window: i64) -> (fits: bool)
    ensures
        fits == consolidate_fits(*accounts, time_window),
{
    time_window <= 0 || (check_settlement_fits(
        &accounts.user_state.data,
        accounts.staking_pool.data.reward_index,
    ) && check_consolidation_fits(&accounts.user_state.data.stakes, time_window))
}

/// Credits the user with what the stakes earned and joins the stakes that were made at most
/// `time_window` seconds apart.
pub fn consolidate_stakes(
    accounts: &mut ConsolidateStakes,
    time_window: i64,
    actions: &mut Vec<Action>,
) -> (result: Result<(), Rejection>)
    requires
        consolidate_fits(*old(accounts), time_window),
    ensures
        result == consolidate_step(*old(accounts), time_window).result,
        old(accounts).becomes(
            *final(accounts),
            consolidate_step(*old(accounts), time_window).pool,
            consolidate_step(*old(accounts), time_window).user,
        ),
        final(actions)@ == old(actions)@ + consolidate_step(*old(accounts), time_window).actions,
{
    let ghost step = consolidate_step(*accounts, time_window);
    if time_window <= 0 {
        assert(actions@ =~= old(actions)@ + step.actions);
        return Err(Rejection::Staking(StakingError::InvalidTimeWindow));
    }
    update_rewards(&mut accounts.user_state.data, accounts.staking_pool.data.reward_index);
    merge_stakes(&mut accounts.user_state.data.stakes, time_window);
    actions.push(
        Action::Emit(
            Event::StakesConsolidated(
                StakesConsolidatedEvent {
                    user: accounts.user,
                    resulting_stake_count: accounts.user_state.data.stakes.len() as u64,
                },
            ),
        ),
    );
    assert(actions@ =~= old(actions)@ + step.actions);
    Ok(())
}


/// Enters the user as the owner of the record.
pub fn update_user_owner(accounts: &mut UpdateUserOwner) -> (result: Result<(), Rejection>)
    ensures
        result is Ok,
        old(accounts).becomes(
            *final(accounts),
            old(accounts).staking_pool.data,
            (UserView { owner: old(accounts).user, ..old(accounts).user_state.data@ }),
        ),
        final(accounts).user_state.data.owner == old(accounts).user,
        final(accounts).user_state.data.balance == old(accounts).user_state.data.balance,
        final(accounts).user_state.data.reward_index_of == old(
            accounts,
        ).user_state.data.reward_index_of,
        final(accounts).user_state.data.earned == old(accounts).user_state.data.earned,
        final(accounts).user_state.data.stakes@ == old(accounts).user_state.data.stakes@,
        final(accounts).user_state.data.unbonding_requests@ == old(
            accounts,
        ).user_state.data.unbonding_requests@,
        final(accounts).user_state.key == old(accounts).user_state.key,
        final(accounts).staking_pool == old(accounts).staking_pool,
        final(accounts).user == old(accounts).user,
{
    accounts.user_state.data.owner = accounts.user;
    Ok(())
}

} // verus!
