//! What a withdrawal comes to.
use crate::accounts::Withdraw;
use crate::error::{Rejection, StakingError};
use crate::event::{Action, Event};
use crate::instructions::withdraw::{withdraw_fits, withdraw_payment, withdraw_step, withdrawn};
use crate::laws::terms::{
    added, due_count, extends, first_due, is_due, is_served, lemma_added, number_or, pays,
    pool_kept, sum_of, with_served_marked,
};
use crate::state::UnbondingRequest;
use crate::unbonding::{is_paid, marked, matured, matured_count, outstanding, payout, payout_fits};
use anchor_lang::prelude::ProgramError;
use vstd::prelude::*;

verus! {

/// The accounts that a withdrawal only names are as before.
pub open spec fn surroundings_kept(before: Withdraw, after: Withdraw) -> bool {
    &&& after.staking_pool.key == before.staking_pool.key
    &&& after.user_state.key == before.user_state.key
    &&& after.staking_vault == before.staking_vault
    &&& after.reward_vault == before.reward_vault
    &&& after.user_token_account == before.user_token_account
    &&& after.user == before.user
}

/// The two ways of counting what is due agree.
proof fn lemma_due_count(requests: Seq<UnbondingRequest>, now: i64)
    ensures
        matured_count(requests, now) == due_count(requests, now),
        requests.filter(|request: UnbondingRequest| matured(request, now)) == requests.filter(
            |request: UnbondingRequest| is_due(request, now),
        ),
        due_count(requests, now) <= requests.len(),
{
    let due = |request: UnbondingRequest| is_due(request, now);
    assert((|request: UnbondingRequest| matured(request, now)) =~= due);
    requests.lemma_filter_len(due);
}

/// What the first `n` requests pay is what the first due ones among them are for.
proof fn lemma_payout_is_sum(requests: Seq<UnbondingRequest>, n: int, now: i64, max: u64)
    requires
        0 <= n <= requests.len(),
    ensures
        payout(requests, n, now, max) == sum_of(first_due(requests.take(n), now, max as int)),
    decreases n,
{
    let due = |request: UnbondingRequest| is_due(request, now);
    reveal(Seq::filter);
    if n > 0 {
        let front = requests.take(n - 1);
        let longer = requests.take(n);
        lemma_payout_is_sum(requests, n - 1, now, max);
        lemma_due_count(front, now);
        assert(longer.drop_last() =~= front);
        assert(longer.last() == requests[n - 1]);
        let few = front.filter(due);
        if due(requests[n - 1]) {
            assert(longer.filter(due) =~= few.push(requests[n - 1]));
            if few.len() < max {
                assert(few.push(requests[n - 1]).drop_last() =~= few);
                assert(first_due(longer, now, max as int) =~= few.push(requests[n - 1]));
                assert(first_due(front, now, max as int) =~= few);
            } else {
                assert(few.push(requests[n - 1]).take(max as int) =~= few.take(max as int));
                assert(few.take(few.len() as int) =~= few);
            }
        } else {
            assert(longer.filter(due) =~= few);
        }
    }
}

/// The payout of a list is what the first `max` requests that are due are for, and exactly these
/// are marked.
pub proof fn law_payout_serves_the_first_due(requests: Seq<UnbondingRequest>, now: i64, max: u64)
    ensures
        payout(requests, requests.len() as int, now, max) == sum_of(
            first_due(requests, now, max as int),
        ),
        payout_fits(requests, now, max) <==> sum_of(first_due(requests, now, max as int))
            <= u64::MAX,
        marked(requests, now, max) == with_served_marked(requests, now, max as int),
        matured_count(requests, now) == due_count(requests, now),
        outstanding(requests) == requests.filter(|request: UnbondingRequest| !request.withdrawn),
{
    lemma_payout_is_sum(requests, requests.len() as int, now, max);
    assert(requests.take(requests.len() as int) =~= requests);
    lemma_due_count(requests, now);
    assert forall|i: int| 0 <= i < requests.len() implies is_paid(requests, i, now, max)
        == #[trigger] is_served(requests, i, now, max as int) by {
        lemma_due_count(requests.take(i), now);
    }
    assert(marked(requests, now, max) =~= with_served_marked(requests, now, max as int));
}

/// A withdrawal can be done exactly where the sum that is due can be held, or where the clock does
/// not answer.
pub proof fn law_withdrawal_is_open(
    accounts: Withdraw,
    max_requests: Option<u64>,
    clock: Result<i64, ProgramError>,
)
    ensures
        withdraw_fits(accounts, max_requests, clock) <==> (clock matches Ok(now) ==> sum_of(
            first_due(
                accounts.user_state.data.unbonding_requests@,
                now,
                number_or(max_requests, 25),
            ),
        ) <= u64::MAX),
{
    if let Ok(now) = clock {
        law_payout_serves_the_first_due(
            accounts.user_state.data.unbonding_requests@,
            now,
            number_or(max_requests, 25) as u64,
        );
    }
}

/// A withdrawal succeeds exactly where the clock answers and the first requests that are due, at
/// most as many as the caller allows, are for something, whatever else is on the record. Where the
/// clock does not answer, its error is the answer.
pub proof fn law_withdrawal_answer(
    before: Withdraw,
    max_requests: Option<u64>,
    clock: Result<i64, ProgramError>,
    actions: Seq<Action>,
    after: Withdraw,
    actions_after: Seq<Action>,
    result: Result<(), Rejection>,
)
    requires
        withdrawn(before, max_requests, clock, actions, after, actions_after, result),
    ensures
        match clock {
            Ok(now) => {
                let sum = sum_of(
                    first_due(
                        before.user_state.data.unbonding_requests@,
                        now,
                        number_or(max_requests, 25),
                    ),
                );
                &&& result is Ok <==> sum != 0
                &&& sum == 0 ==> result == Err::<(), Rejection>(
                    Rejection::Staking(StakingError::NoWithdrawableAmount),
                )
            },
            Err(error) => result == Err::<(), Rejection>(Rejection::Clock(error)),
        },
{
    if let Ok(now) = clock {
        law_payout_serves_the_first_due(
            before.user_state.data.unbonding_requests@,
            now,
            number_or(max_requests, 25) as u64,
        );
    }
}

/// A withdrawal marks the requests that it serves; where it stopped below the number that the
/// caller allows, it drops those that are marked. Where rewards are paid in the staked token and
/// it succeeds, nothing is left earned. All else on the record and the pool is as before.
pub proof fn law_withdrawal_record(
    before: Withdraw,
    max_requests: Option<u64>,
    clock: Result<i64, ProgramError>,
    actions: Seq<Action>,
    after: Withdraw,
    actions_after: Seq<Action>,
    result: Result<(), Rejection>,
)
    requires
        withdrawn(before, max_requests, clock, actions, after, actions_after, result),
    ensures
        surroundings_kept(before, after),
        pool_kept(before.staking_pool.data, after.staking_pool.data),
        after.user_state.data.owner == before.user_state.data.owner,
        after.user_state.data.balance == before.user_state.data.balance,
        after.user_state.data.reward_index_of == before.user_state.data.reward_index_of,
        after.user_state.data.stakes@ == before.user_state.data.stakes@,
        after.user_state.data.earned == if result is Ok
            && before.staking_pool.data.staking_mint == before.staking_pool.data.reward_mint {
            0
        } else {
            before.user_state.data.earned
        },
        ({
            let requests = before.user_state.data.unbonding_requests@;
            let max = number_or(max_requests, 25);
            after.user_state.data.unbonding_requests@ == match clock {
                Ok(now) => {
                    let marks = with_served_marked(requests, now, max);
                    if result is Ok && due_count(requests, now) < max {
                        marks.filter(|request: UnbondingRequest| !request.withdrawn)
                    } else {
                        marks
                    }
                },
                Err(_) => requests,
            }
        }),
{
    if let Ok(now) = clock {
        law_payout_serves_the_first_due(
            before.user_state.data.unbonding_requests@,
            now,
            number_or(max_requests, 25) as u64,
        );
    }
}

/// The steps of a withdrawal. A refused one has none. One that succeeds first sends the sum of the
/// first requests that are due from the staking vault to the user's account, signed for by the
/// pool; then, where rewards are paid in the staked token, what was earned goes to the same
/// account; then the log tells of the sum, and of the number of requests that are still due where
/// there are any.
pub proof fn law_withdrawal_steps(
    before: Withdraw,
    max_requests: Option<u64>,
    clock: Result<i64, ProgramError>,
    actions: Seq<Action>,
    after: Withdraw,
    actions_after: Seq<Action>,
    result: Result<(), Rejection>,
)
    requires
        withdraw_fits(before, max_requests, clock),
        withdrawn(before, max_requests, clock, actions, after, actions_after, result),
    ensures
        extends(actions, actions_after),
        result is Err ==> actions_after == actions,
        result is Ok ==> clock is Ok && {
            let now = clock->Ok_0;
            let steps = added(actions, actions_after);
            let pool = before.staking_pool.data;
            let sum = sum_of(
                first_due(
                    before.user_state.data.unbonding_requests@,
                    now,
                    number_or(max_requests, 25),
                ),
            );
            let earned = if pool.staking_mint == pool.reward_mint {
                before.user_state.data.earned as int
            } else {
                0
            };
            let paying: int = if earned == 0 {
                0
            } else {
                2
            };
            let left = due_count(after.user_state.data.unbonding_requests@, now);
            &&& steps.len() == 2 + paying + if left == 0 {
                0int
            } else {
                1
            }
            &&& steps[0] matches Action::Transfer(transfer)
            &&& transfer.from == before.staking_vault
            &&& transfer.to == before.user_token_account.key
            &&& transfer.authority == before.staking_pool.key
            &&& transfer.amount == sum
            &&& transfer.pool_bump == Some(pool.bump)
            &&& pays(
                steps.subrange(1, 1 + paying),
                earned,
                before.reward_vault,
                before.user_token_account.key,
                before.staking_pool.key,
                pool.bump,
                before.user,
            )
            &&& steps[1 + paying] matches Action::Emit(Event::Withdrawn(entry))
            &&& entry.user == before.user
            &&& entry.amount == sum
            &&& left > 0 ==> (steps[2 + paying] matches Action::Emit(
                Event::PendingWithdrawals(pending),
            ) && pending.user == before.user && pending.remaining_count == left)
        },
{
    let requests = before.user_state.data.unbonding_requests@;
    let step = withdraw_step(before, max_requests, clock);
    assert(requests.len() == before.user_state.data.unbonding_requests.len());
    lemma_added(actions, step.actions);
    assert(actions + Seq::<Action>::empty() =~= actions);
    if let Ok(now) = clock {
        let max = number_or(max_requests, 25) as u64;
        law_payout_serves_the_first_due(requests, now, max);
        lemma_payout_positive(requests, requests.len() as int, now, max);
        let kept = step.user.unbonding_requests;
        lemma_due_count(kept, now);
        with_served_marked(requests, now, max as int).lemma_filter_len(
            |request: UnbondingRequest| !request.withdrawn,
        );
        if step.result is Ok {
            let payment = withdraw_payment(before);
            assert(step.actions.subrange(1, 1int + payment.len()) =~= payment);
        }
    }
}

/// Requests that are for something make the sum of the first due ones positive, and only such.
pub proof fn law_sum_is_positive_where_something_is_due(
    requests: Seq<UnbondingRequest>,
    now: i64,
    max: u64,
)
    ensures
        sum_of(first_due(requests, now, max as int)) >= 0,
        sum_of(first_due(requests, now, max as int)) > 0 <==> exists|i: int|
            0 <= i < requests.len() && #[trigger] is_served(requests, i, now, max as int)
                && requests[i].amount > 0,
{
    law_payout_serves_the_first_due(requests, now, max);
    lemma_payout_positive(requests, requests.len() as int, now, max);
}

/// A prefix pays something exactly where it holds a served request that is for something.
proof fn lemma_payout_positive(requests: Seq<UnbondingRequest>, n: int, now: i64, max: u64)
    requires
        0 <= n <= requests.len(),
    ensures
        payout(requests, n, now, max) >= 0,
        payout(requests, n, now, max) > 0 <==> exists|i: int|
            0 <= i < n && #[trigger] is_served(requests, i, now, max as int) && requests[i].amount
                > 0,
    decreases n,
{
    if n > 0 {
        lemma_payout_positive(requests, n - 1, now, max);
        lemma_due_count(requests.take(n - 1), now);
        assert(is_paid(requests, n - 1, now, max) == is_served(requests, n - 1, now, max as int));
    }
}

} // verus!
