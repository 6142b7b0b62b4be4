//! Paying out what was taken back.
use crate::accounts::Withdraw;
use crate::clock::unix_timestamp;
use crate::error::{Rejection, StakingError};
use crate::event::{Action, Event, PendingWithdrawalsEvent, TokenTransfer, WithdrawnEvent};
use crate::instructions::{given_or, or_default, refusal, Step};
use crate::pubkey::Pubkey;
use crate::rewards::{paid_out, pay_earned, reward_payment};
use crate::state::{StakingPool, UnbondingRequest, UserView, DEFAULT_BATCH};
use crate::unbonding::{
    check_payout_fits, count_matured, drop_withdrawn, marked, matured_count, outstanding,
    pay_matured, payout, payout_fits,
};
use anchor_lang::prelude::ProgramError;
use vstd::prelude::*;

verus! {

/// The requests after a withdrawal: the paid ones are dropped, unless the call stopped at its
/// limit.
pub open spec fn requests_after(
    requests: Seq<UnbondingRequest>,
    now: i64,
    max: u64,
) -> Seq<UnbondingRequest> {
    if matured_count(requests, now) < max {
        outstanding(marked(requests, now, max))
    } else {
        marked(requests, now, max)
    }
}

/// The log entry that tells how many requests can still be paid, where there are any.
pub open spec fn pending_withdrawals(user: Pubkey, remaining: nat) -> Seq<Action> {
    if remaining > 0 {
        seq![
            Action::Emit(
                Event::PendingWithdrawals(
                    PendingWithdrawalsEvent { user, remaining_count: remaining as u64 },
                ),
            ),
        ]
    } else {
        Seq::empty()
    }
}

/// Whether the pool pays rewards in the token that is staked.
pub open spec fn single_token(pool: StakingPool) -> bool {
    pool.staking_mint == pool.reward_mint
}

/// The rewards that go out with a withdrawal.
pub open spec fn withdraw_payment(accounts: Withdraw) -> Seq<Action> {
    if single_token(accounts.staking_pool.data) {
        reward_payment(
            accounts.staking_pool.key,
            accounts.staking_pool.data.bump,
            accounts.reward_vault,
            accounts.user_token_account.key,
            accounts.user,
            accounts.user_state.data.earned,
        )
    } else {
        Seq::empty()
    }
}

/// The transfer that pays `amount` staked tokens back.
pub open spec fn repayment(accounts: Withdraw, amount: u64) -> Action {
    Action::Transfer(
        TokenTransfer {
            from: accounts.staking_vault,
            to: accounts.user_token_account.key,
            authority: accounts.staking_pool.key,
            amount,
            pool_bump: Some(accounts.staking_pool.data.bump),
        },
    )
}

/// What a withdrawal leads to.
pub open spec fn withdraw_step(
    accounts: Withdraw,
    max_requests: Option<u64>,
    clock: Result<i64, ProgramError>,
) -> Step {
    let pool = accounts.staking_pool.data;
    let user = accounts.user_state.data@;
    let requests = user.unbonding_requests;
    let max = or_default(max_requests, DEFAULT_BATCH);
    match clock {
        Err(error) => Step {
            pool,
            user,
            actions: Seq::empty(),
            result: Err(Rejection::Clock(error)),
        },
        Ok(now) => {
            let amount = payout(requests, requests.len() as int, now, max);
            if amount == 0 {
                Step {
                    pool,
                    user: UserView { unbonding_requests: marked(requests, now, max), ..user },
                    actions: Seq::empty(),
                    result: refusal(StakingError::NoWithdrawableAmount),
                }
            } else {
                let kept = requests_after(requests, now, max);
                let record = UserView { unbonding_requests: kept, ..user };
                Step {
                    pool,
                    user: if single_token(pool) {
                        paid_out(record)
                    } else {
                        record
                    },
                    actions: seq![repayment(accounts, amount as u64)] + withdraw_payment(accounts)
                        + seq![
                        Action::Emit(
                            Event::Withdrawn(
                                WithdrawnEvent { user: accounts.user, amount: amount as u64 },
                            ),
                        ),
                    ] + pending_withdrawals(accounts.user, matured_count(kept, now)),
                    result: Ok(()),
                }
            }
        },
    }
}

/// Whether no number exceeds its type in a withdrawal.
pub open spec fn withdraw_fits(
    accounts: Withdraw,
    max_requests: Option<u64>,
    clock: Result<i64, ProgramError>,
) -> bool {
    clock matches Ok(now) ==> payout_fits(
        accounts.user_state.data@.unbonding_requests,
        now,
        or_default(max_requests, DEFAULT_BATCH),
    )
}

/// Whether a run of `withdraw_at` ended as `withdraw_step` says.
pub open spec fn withdrawn(
    accounts: Withdraw,
    max_requests: Option<u64>,
    clock: Result<i64, ProgramError>,
    actions: Seq<Action>,
    accounts_after: Withdraw,
    actions_after: Seq<Action>,
    result: Result<(), Rejection>,
) -> bool {
    let step = withdraw_step(accounts, max_requests, clock);
    &&& result == step.result
    &&& accounts.becomes(accounts_after, step.pool, step.user)
    &&& actions_after == actions + step.actions
}

/// Tells whether `withdraw_at` can be called.
pub fn check_withdraw_fits(
    accounts: &Withdraw,
    max_requests: Option<u64>,
    clock: &Result<i64, ProgramError>,
) -> (fits: bool)
    ensures
        fits == withdraw_fits(*accounts, max_requests, *clock),
{
    let max: u64 = given_or(max_requests, DEFAULT_BATCH);
    match clock {
        Err(_) => true,
        Ok(now) => check_payout_fits(
            accounts.user_state.data.unbonding_requests.as_slice(),
            *now,
            max,
        ),
    }
}

/// Pays the user's requests that have run their time, at most `max_requests` of them, `clock`
/// being what the runtime's clock answered. Where the pool pays rewards in the staked token, the
/// credited rewards go out as well.
pub fn withdraw_at(
    accounts: &mut Withdraw,
    max_requests: Option<u64>,
    clock: Result<i64, ProgramError>,
    actions: &mut Vec<Action>,
) -> (result: Result<(), Rejection>)
    requires
        withdraw_fits(*old(accounts), max_requests, clock),
    ensures
        withdrawn(
            *old(accounts),
            max_requests,
            clock,
            old(actions)@,
            *final(accounts),
            final(actions)@,
            result,
        ),
{
    let ghost before = *accounts;
    let ghost step = withdraw_step(before, max_requests, clock);
    let now: i64 = match clock {
        Err(error) => {
            assert(actions@ =~= old(actions)@ + step.actions);
            return Err(Rejection::Clock(error));
        },
        Ok(now) => now,
    };
    let max: u64 = given_or(max_requests, DEFAULT_BATCH);
    let (amount, count): (u64, u64) = pay_matured(
        &mut accounts.user_state.data.unbonding_requests,
        now,
        max,
    );
    if amount == 0 {
        assert(actions@ =~= old(actions)@ + step.actions);
        return Err(Rejection::Staking(StakingError::NoWithdrawableAmount));
    }
    actions.push(
        Action::Transfer(
            TokenTransfer {
                from: accounts.staking_vault,
                to: accounts.user_token_account.key,
                authority: accounts.staking_pool.key,
                amount,
                pool_bump: Some(accounts.staking_pool.data.bump),
            },
        ),
    );
    if accounts.staking_pool.data.staking_mint.same(&accounts.staking_pool.data.reward_mint) {
        pay_earned(
            &mut accounts.user_state.data,
            accounts.staking_pool.key,
            accounts.staking_pool.data.bump,
            accounts.reward_vault,
            accounts.user_token_account.key,
            accounts.user,
            actions,
        );
    }
    if count < max {
        drop_withdrawn(&mut accounts.user_state.data.unbonding_requests);
    }
    actions.push(Action::Emit(Event::Withdrawn(WithdrawnEvent { user: accounts.user, amount })));
    let remaining: usize = count_matured(
        accounts.user_state.data.unbonding_requests.as_slice(),
        now,
    );
    if remaining > 0 {
        actions.push(
            Action::Emit(
                Event::PendingWithdrawals(
                    PendingWithdrawalsEvent {
                        user: accounts.user,
                        remaining_count: remaining as u64,
                    },
                ),
            ),
        );
    }
    assert(actions@ =~= old(actions)@ + step.actions);
    Ok(())
}

/// Reads the clock and pays the user's requests that have run their time. The answer is `None`,
/// with nothing done, where a number would exceed its type.
///
/// Which moment the clock gives is left open; `withdraw_at` says what follows for each.
pub fn withdraw(
    accounts: &mut Withdraw,
    max_requests: Option<u64>,
    actions: &mut Vec<Action>,
) -> (answer: Option<Result<(), Rejection>>)
    ensures
        exists|clock: Result<i64, ProgramError>|
            match answer {
                Some(result) => #[trigger] withdraw_fits(*old(accounts), max_requests, clock)
                    && withdrawn(
                    *old(accounts),
                    max_requests,
                    clock,
                    old(actions)@,
                    *final(accounts),
                    final(actions)@,
                    result,
                ),
                None => !withdraw_fits(*old(accounts), max_requests, clock) && *final(accounts)
                    == *old(accounts) && final(actions)@ == old(actions)@,
            },
{
    let clock: Result<i64, ProgramError> = unix_timestamp();
    let ghost answered = clock;
    if !check_withdraw_fits(accounts, max_requests, &clock) {
        assert(!withdraw_fits(*old(accounts), max_requests, answered));
        return None;
    }
    assert(withdraw_fits(*old(accounts), max_requests, answered));
    Some(withdraw_at(accounts, max_requests, clock, actions))
}

} // verus!
