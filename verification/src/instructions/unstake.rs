//! Taking stakes back.
use crate::accounts::Unstake;
use crate::clock::unix_timestamp;
use crate::error::{Rejection, StakingError};
use crate::event::{Action, Event, PartialUnstakeEvent};
use crate::instructions::{given_or, or_default, refusal, Step};
use crate::pubkey::Pubkey;
use crate::rewards::{
    check_settlement_fits, claim_internal, credited, paid_out, reward_payment, settled,
    settlement_fits, update_reward_index,
};
use crate::state::{StakingPool, UserView, DEFAULT_BATCH};
use crate::unbonding::{
    lemma_nothing_released, lemma_released_grows, new_requests, preview_release, release,
    release_fits, released, stakes_after, started_events,
};
use anchor_lang::prelude::ProgramError;
use vstd::prelude::*;

verus! {

/// The index after the last stake that a call goes through.
pub open spec fn batch_end(start: u64, batch: u64, len: nat) -> int {
    if start + batch < len {
        start + batch
    } else {
        len as int
    }
}

/// The record after the user's rewards were credited and paid.
pub open spec fn unstake_claimed(accounts: Unstake) -> UserView {
    paid_out(settled(accounts.user_state.data@, accounts.staking_pool.data.reward_index))
}

/// The steps that pay the user's rewards.
pub open spec fn unstake_payment(accounts: Unstake) -> Seq<Action> {
    reward_payment(
        accounts.staking_pool.key,
        accounts.staking_pool.data.bump,
        accounts.reward_vault,
        accounts.user_reward_account.key,
        accounts.user_state.data.owner,
        settled(accounts.user_state.data@, accounts.staking_pool.data.reward_index).earned,
    )
}

/// The log entry that tells where the next call goes on, where one is needed.
pub open spec fn partial_unstake(
    user: Pubkey,
    amount: u64,
    processed: int,
    end: int,
    len: nat,
) -> Seq<Action> {
    if processed < amount && end < len {
        seq![
            Action::Emit(
                Event::PartialUnstake(
                    PartialUnstakeEvent {
                        user,
                        requested_amount: amount,
                        processed_amount: processed as u64,
                        remaining_amount: (amount - processed) as u64,
                        next_index: end as u64,
                    },
                ),
            ),
        ]
    } else {
        Seq::empty()
    }
}

/// What going through the stakes from `start` up to `end` at the moment `now` leads to. `who`
/// signed the request.
pub open spec fn release_step(
    pool: StakingPool,
    user: UserView,
    who: Pubkey,
    amount: u64,
    start: int,
    end: int,
    now: i64,
) -> Step {
    let processed = released(user.stakes, start, end, now, amount);
    if processed == 0 {
        Step {
            pool,
            user,
            actions: Seq::empty(),
            result: refusal(StakingError::NoUnlockedStakesInBatch),
        }
    } else {
        let requests = new_requests(user.stakes, start, end, now, amount);
        let smaller = StakingPool {
            total_supply: (pool.total_supply - processed) as u64,
            ..pool
        };
        let user_after = UserView {
            balance: (user.balance - processed) as u64,
            stakes: stakes_after(user.stakes, start, end, now, amount),
            unbonding_requests: user.unbonding_requests + requests,
            ..user
        };
        match credited(smaller, processed as u64) {
            None => Step {
                pool: smaller,
                user: user_after,
                actions: started_events(who, requests),
                result: refusal(StakingError::ArithmeticOverflow),
            },
            Some(pool_after) => Step {
                pool: pool_after,
                user: user_after,
                actions: started_events(who, requests) + partial_unstake(
                    who,
                    amount,
                    processed,
                    end,
                    user.stakes.len(),
                ),
                result: Ok(()),
            },
        }
    }
}

/// The same outcome, with `first` done before.
pub open spec fn after_actions(first: Seq<Action>, step: Step) -> Step {
    Step { actions: first + step.actions, ..step }
}

/// What taking back `amount` leads to.
pub open spec fn unstake_step(
    accounts: Unstake,
    amount: u64,
    start_index: Option<u64>,
    max_iterations: Option<u64>,
    clock: Result<i64, ProgramError>,
) -> Step {
    let pool = accounts.staking_pool.data;
    let user = accounts.user_state.data@;
    let start = or_default(start_index, 0);
    let batch = or_default(max_iterations, DEFAULT_BATCH);
    if amount == 0 {
        Step {
            pool,
            user,
            actions: Seq::empty(),
            result: refusal(StakingError::CannotUnstakeZero),
        }
    } else if user.balance < amount {
        Step {
            pool,
            user,
            actions: Seq::empty(),
            result: refusal(StakingError::InsufficientBalance),
        }
    } else {
        match clock {
            Err(error) => Step {
                pool,
                user: unstake_claimed(accounts),
                actions: unstake_payment(accounts),
                result: Err(Rejection::Clock(error)),
            },
            Ok(now) => if start >= user.stakes.len() {
                Step {
                    pool,
                    user: unstake_claimed(accounts),
                    actions: unstake_payment(accounts),
                    result: refusal(StakingError::InvalidStartIndex),
                }
            } else {
                after_actions(
                    unstake_payment(accounts),
                    release_step(
                        pool,
                        unstake_claimed(accounts),
                        accounts.user,
                        amount,
                        start as int,
                        batch_end(start, batch, user.stakes.len()),
                        now,
                    ),
                )
            },
        }
    }
}

/// Whether no number exceeds its type in taking back `amount`.
pub open spec fn unstake_fits(
    accounts: Unstake,
    amount: u64,
    start_index: Option<u64>,
    max_iterations: Option<u64>,
    clock: Result<i64, ProgramError>,
) -> bool {
    let pool = accounts.staking_pool.data;
    let user = accounts.user_state.data@;
    let start = or_default(start_index, 0);
    let batch = or_default(max_iterations, DEFAULT_BATCH);
    let end = batch_end(start, batch, user.stakes.len());
    amount > 0 && user.balance >= amount ==> {
        &&& settlement_fits(user, pool.reward_index)
        &&& clock matches Ok(now) ==> start < user.stakes.len() ==> {
            &&& start + batch <= u64::MAX
            &&& release_fits(user.stakes, start as int, end, now, amount)
            &&& released(user.stakes, start as int, end, now, amount) <= pool.total_supply
        }
    }
}

/// Tells whether `unstake_at` can be called.
pub fn check_unstake_fits(
    accounts: &Unstake,
    amount: u64,
    start_index: Option<u64>,
    max_iterations: Option<u64>,
    clock: &Result<i64, ProgramError>,
) -> (fits: bool)
    ensures
        fits == unstake_fits(*accounts, amount, start_index, max_iterations, *clock),
{
    let user = &accounts.user_state.data;
    let pool = &accounts.staking_pool.data;
    if amount == 0 || user.balance < amount {
        return true;
    }
    if !check_settlement_fits(user, pool.reward_index) {
        return false;
    }
    let now: i64 = match clock {
        Err(_) => {
            return true;
        },
        Ok(now) => *now,
    };
    let start: u64 = given_or(start_index, 0);
    let batch: u64 = given_or(max_iterations, DEFAULT_BATCH);
    let len: usize = user.stakes.len();
    if start >= len as u64 {
        return true;
    }
    let end: usize = match start.checked_add(batch) {
        None => {
            return false;
        },
        Some(reach) => if reach < len as u64 {
            reach as usize
        } else {
            len
        },
    };
    match preview_release(&user.stakes, start as usize, end, now, amount) {
        None => false,
        Some(sum) => sum <= pool.total_supply,
    }
}

/// Goes through the stakes from `start` up to `end`.
fn release_batch(
    accounts: &mut Unstake,
    amount: u64,
    start: usize,
    end: usize,
    now: i64,
    actions: &mut Vec<Action>,
) -> (result: Result<(), Rejection>)
    requires
        start <= end <= old(accounts).user_state.data@.stakes.len(),
        amount <= old(accounts).user_state.data@.balance,
        release_fits(
            old(accounts).user_state.data@.stakes,
            start as int,
            end as int,
            now,
            amount,
        ),
        released(old(accounts).user_state.data@.stakes, start as int, end as int, now, amount)
            <= old(accounts).staking_pool.data.total_supply,
    ensures
        ({
            let step = release_step(
                old(accounts).staking_pool.data,
                old(accounts).user_state.data@,
                old(accounts).user,
                amount,
                start as int,
                end as int,
                now,
            );
            &&& result == step.result
            &&& old(accounts).becomes(*final(accounts), step.pool, step.user)
            &&& final(actions)@ == old(actions)@ + step.actions
        }),
{
    let ghost user = accounts.user_state.data@;
    let ghost pool = accounts.staking_pool.data;
    let ghost who = accounts.user;
    let ghost requests = new_requests(user.stakes, start as int, end as int, now, amount);
    let ghost step = release_step(pool, user, who, amount, start as int, end as int, now);
    proof {
        lemma_released_grows(user.stakes, start as int, end as int, end as int, now, amount);
    }
    let user_key: Pubkey = accounts.user;
    let record = &mut accounts.user_state.data;
    let processed: u64 = release(
        &mut record.stakes,
        start,
        end,
        now,
        amount,
        user_key,
        &mut record.unbonding_requests,
        actions,
    );
    if processed == 0 {
        proof {
            lemma_nothing_released(user.stakes, start as int, end as int, now, amount);
            assert(user.unbonding_requests + requests =~= user.unbonding_requests);
            assert(actions@ =~= old(actions)@ + step.actions);
        }
        return Err(Rejection::Staking(StakingError::NoUnlockedStakesInBatch));
    }
    accounts.user_state.data.balance = accounts.user_state.data.balance - processed;
    accounts.staking_pool.data.total_supply = accounts.staking_pool.data.total_supply - processed;
    match update_reward_index(&mut accounts.staking_pool.data, processed) {
        Err(error) => {
            return Err(Rejection::Staking(error));
        },
        Ok(_) => {},
    }
    if processed < amount && end < accounts.user_state.data.stakes.len() {
        actions.push(
            Action::Emit(
                Event::PartialUnstake(
                    PartialUnstakeEvent {
                        user: accounts.user,
                        requested_amount: amount,
                        processed_amount: processed,
                        remaining_amount: amount - processed,
                        next_index: end as u64,
                    },
                ),
            ),
        );
    }
    assert(actions@ =~= old(actions)@ + step.actions);
    Ok(())
}

/// Whether a run of `unstake_at` ended as `unstake_step` says.
pub open spec fn unstaked(
    accounts: Unstake,
    amount: u64,
    start_index: Option<u64>,
    max_iterations: Option<u64>,
    clock: Result<i64, ProgramError>,
    actions: Seq<Action>,
    accounts_after: Unstake,
    actions_after: Seq<Action>,
    result: Result<(), Rejection>,
) -> bool {
    let step = unstake_step(accounts, amount, start_index, max_iterations, clock);
    &&& result == step.result
    &&& accounts.becomes(accounts_after, step.pool, step.user)
    &&& actions_after == actions + step.actions
}

/// Takes back `amount` of the user's stakes, `clock` being what the runtime's clock answered. The
/// user's rewards are paid first. Only stakes that are unlocked are taken, out of
/// `max_iterations` of them from `start_index` on.
pub fn unstake_at(
    accounts: &mut Unstake,
    amount: u64,
    start_index: Option<u64>,
    max_iterations: Option<u64>,
    clock: Result<i64, ProgramError>,
    actions: &mut Vec<Action>,
) -> (result: Result<(), Rejection>)
    requires
        unstake_fits(*old(accounts), amount, start_index, max_iterations, clock),
    ensures
        unstaked(
            *old(accounts),
            amount,
            start_index,
            max_iterations,
            clock,
            old(actions)@,
            *final(accounts),
            final(actions)@,
            result,
        ),
{
    let ghost before = *accounts;
    let ghost step = unstake_step(before, amount, start_index, max_iterations, clock);
    if amount == 0 {
        assert(actions@ =~= old(actions)@ + step.actions);
        return Err(Rejection::Staking(StakingError::CannotUnstakeZero));
    }
    if accounts.user_state.data.balance < amount {
        assert(actions@ =~= old(actions)@ + step.actions);
        return Err(Rejection::Staking(StakingError::InsufficientBalance));
    }
    claim_internal(
        &mut accounts.user_state.data,
        accounts.staking_pool.key,
        &accounts.staking_pool.data,
        accounts.reward_vault,
        accounts.user_reward_account.key,
        actions,
    );
    let now: i64 = match clock {
        Err(error) => {
            return Err(Rejection::Clock(error));
        },
        Ok(now) => now,
    };
    let start: u64 = given_or(start_index, 0);
    let batch: u64 = given_or(max_iterations, DEFAULT_BATCH);
    let len: usize = accounts.user_state.data.stakes.len();
    if start >= len as u64 {
        return Err(Rejection::Staking(StakingError::InvalidStartIndex));
    }
    let end: usize = if start + batch < len as u64 {
        (start + batch) as usize
    } else {
        len
    };
    let ghost paid = actions@;
    let result = release_batch(accounts, amount, start as usize, end, now, actions);
    proof {
        let inner = release_step(
            before.staking_pool.data,
            unstake_claimed(before),
            before.user,
            amount,
            start as int,
            end as int,
            now,
        );
        assert(old(actions)@ + (unstake_payment(before) + inner.actions) =~= paid + inner.actions);
    }
    result
}

/// Reads the clock and takes back `amount` of the user's stakes. The answer is `None`, with
/// nothing done, where a number would exceed its type.
///
/// Which moment the clock gives is left open; `unstake_at` says what follows for each.
pub fn unstake(
    accounts: &mut Unstake,
    amount: u64,
    start_index: Option<u64>,
    max_iterations: Option<u64>,
    actions: &mut Vec<Action>,
) -> (answer: Option<Result<(), Rejection>>)
    ensures
        exists|clock: Result<i64, ProgramError>|
            match answer {
                Some(result) => #[trigger] unstake_fits(
                    *old(accounts),
                    amount,
                    start_index,
                    max_iterations,
                    clock,
                ) && unstaked(
                    *old(accounts),
                    amount,
                    start_index,
                    max_iterations,
                    clock,
                    old(actions)@,
                    *final(accounts),
                    final(actions)@,
                    result,
                ),
                None => !unstake_fits(
                    *old(accounts),
                    amount,
                    start_index,
                    max_iterations,
                    clock,
                ) && *final(accounts) == *old(accounts) && final(actions)@ == old(actions)@,
            },
        amount == 0 ==> answer == Some(refusal(StakingError::CannotUnstakeZero)),
        0 < amount && old(accounts).user_state.data.balance < amount ==> answer == Some(
            refusal(StakingError::InsufficientBalance),
        ),
{
    let clock: Result<i64, ProgramError> = unix_timestamp();
    let ghost answered = clock;
    if !check_unstake_fits(accounts, amount, start_index, max_iterations, &clock) {
        assert(!unstake_fits(*old(accounts), amount, start_index, max_iterations, answered));
        return None;
    }
    assert(unstake_fits(*old(accounts), amount, start_index, max_iterations, answered));
    Some(unstake_at(accounts, amount, start_index, max_iterations, clock, actions))
}

} // verus!
