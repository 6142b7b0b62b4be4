//! What taking stakes back comes to.
use crate::accounts::Unstake;
use crate::error::{Rejection, StakingError};
use crate::event::{Action, Event};
use crate::instructions::unstake::{unstake_fits, unstake_payment, unstake_step, unstaked};
use crate::laws::balances::lemma_release_total;
use crate::laws::claiming::{
    law_payment_moves_its_amount, law_settling_adds_the_share, lemma_floor,
};
use crate::laws::terms::{
    added, extends, is_ripe, is_share, lemma_added, lemma_log_pays_nothing,
    lemma_rewards_are_the_share, number_or, paid_from, pays, pool_kept, pool_moved, record_kept,
    requests_for, ripe_sum, taken_in_order,
};
use crate::rewards::settled;
use crate::state::{StakeInfo, StakingPool, UnbondingRequest, UNBONDING_PERIOD};
use crate::unbonding::{
    lemma_filter_of_none, lemma_nothing_released, lemma_released_grows, new_requests, releasable,
    released, stakes_after, taken,
};
use anchor_lang::prelude::ProgramError;
use vstd::prelude::*;

verus! {

/// Where the batch begins that a request names; without a start index, at the front.
pub open spec fn batch_start(start_index: Option<u64>) -> int {
    number_or(start_index, 0)
}

/// The place behind the batch, within the list; without a given number the batch has 25 places.
pub open spec fn batch_stop(
    start_index: Option<u64>,
    max_iterations: Option<u64>,
    len: nat,
) -> int {
    let stop = number_or(start_index, 0) + number_or(max_iterations, 25);
    if stop < len {
        stop
    } else {
        len as int
    }
}

/// The accounts that the instruction only names are as before.
pub open spec fn surroundings_kept(before: Unstake, after: Unstake) -> bool {
    &&& after.staking_pool.key == before.staking_pool.key
    &&& after.user_state.key == before.user_state.key
    &&& after.staking_vault == before.staking_vault
    &&& after.reward_vault == before.reward_vault
    &&& after.user_token_account == before.user_token_account
    &&& after.user_reward_account == before.user_reward_account
    &&& after.user == before.user
}

/// What the unlocked stakes hold is what the ripe ones hold.
proof fn lemma_ripe_sum(stakes: Seq<StakeInfo>, start: int, end: int, now: i64)
    ensures
        ripe_sum(stakes, start, end, now) == releasable(stakes, start, end, now),
    decreases end - start,
{
    if start < end {
        lemma_ripe_sum(stakes, start, end - 1, now);
    }
}

/// Ripe stakes of the batch hold something exactly where something is released.
proof fn lemma_something_ripe(stakes: Seq<StakeInfo>, start: int, end: int, now: i64)
    requires
        0 <= start <= end <= stakes.len(),
    ensures
        releasable(stakes, start, end, now) >= 0,
        releasable(stakes, start, end, now) > 0 <==> exists|i: int|
            start <= i < end && (#[trigger] stakes[i]).amount > 0 && is_ripe(stakes[i], now),
    decreases end - start,
{
    if start < end {
        lemma_something_ripe(stakes, start, end - 1, now);
    }
}

/// A release takes the amount in the order of the list, from ripe stakes of its range, and opens
/// the requests for what it takes.
pub proof fn law_release_takes_in_order(
    stakes: Seq<StakeInfo>,
    start: int,
    end: int,
    now: i64,
    amount: u64,
)
    requires
        0 <= start <= end <= stakes.len(),
    ensures
        taken_in_order(
            stakes,
            stakes_after(stakes, start, end, now, amount),
            start,
            end,
            now,
            amount as int,
            released(stakes, start, end, now, amount),
        ),
        new_requests(stakes, start, end, now, amount) == requests_for(
            stakes,
            stakes_after(stakes, start, end, now, amount),
            now,
        ),
        amount > 0 ==> (released(stakes, start, end, now, amount) > 0 <==> exists|i: int|
            start <= i < end && (#[trigger] stakes[i]).amount > 0 && is_ripe(stakes[i], now)),
{
    let after = stakes_after(stakes, start, end, now, amount);
    let processed = released(stakes, start, end, now, amount);
    lemma_release_total(stakes, start, end, now, amount);
    lemma_something_ripe(stakes, start, end, now);
    lemma_released_grows(stakes, start, end, end, now, amount);
    assert forall|i: int| start <= i < end implies {
        &&& 0 <= #[trigger] taken(stakes, start, i, now, amount) <= stakes[i].amount
        &&& taken(stakes, start, i, now, amount) > 0 ==> is_ripe(stakes[i], now)
        &&& after[i].amount == stakes[i].amount - taken(stakes, start, i, now, amount)
    } by {
        lemma_released_grows(stakes, start, i, end, now, amount);
    }
    assert forall|i: int| 0 <= i < stakes.len() implies {
        &&& (#[trigger] after[i]).timestamp == stakes[i].timestamp
        &&& after[i].amount <= stakes[i].amount
        &&& after[i].amount < stakes[i].amount ==> start <= i < end && is_ripe(stakes[i], now)
    } by {
        if start <= i < end {
            assert(taken(stakes, start, i, now, amount) >= 0);
        }
    }
    assert forall|i: int|
        start <= i < end && is_ripe(stakes[i], now) && processed < amount implies (
    #[trigger] after[i]).amount == 0 by {
        lemma_released_grows(stakes, start, i + 1, end, now, amount);
        lemma_released_grows(stakes, start, i, i + 1, now, amount);
        assert(taken(stakes, start, i, now, amount) == stakes[i].amount);
    }
    assert forall|i: int, j: int|
        #![trigger after[i], after[j]]
        start <= i < j < end && is_ripe(stakes[i], now) && after[j].amount < stakes[j].amount
            implies after[i].amount == 0 by {
        assert(taken(stakes, start, j, now, amount) > 0);
        lemma_released_grows(stakes, start, i + 1, j, now, amount);
        lemma_released_grows(stakes, start, i, i + 1, now, amount);
        assert(taken(stakes, start, i, now, amount) == stakes[i].amount);
    }
    lemma_requests_for(stakes, start, end, now, amount);
}

/// The requests of a release are those for what the whole list lost.
proof fn lemma_requests_for(stakes: Seq<StakeInfo>, start: int, end: int, now: i64, amount: u64)
    requires
        0 <= start <= end <= stakes.len(),
    ensures
        new_requests(stakes, start, end, now, amount) == requests_for(
            stakes,
            stakes_after(stakes, start, end, now, amount),
            now,
        ),
{
    let after = stakes_after(stakes, start, end, now, amount);
    let positive = |request: UnbondingRequest| request.amount > 0;
    let portions = Seq::new(
        (end - start) as nat,
        |k: int|
            UnbondingRequest {
                amount: taken(stakes, start, start + k, now, amount) as u64,
                unbonding_end_time: (now + UNBONDING_PERIOD) as i64,
                withdrawn: false,
            },
    );
    let losses = Seq::new(
        stakes.len(),
        |i: int|
            UnbondingRequest {
                amount: (stakes[i].amount - after[i].amount) as u64,
                unbonding_end_time: (now + 120) as i64,
                withdrawn: false,
            },
    );
    let front = losses.take(start);
    let back = losses.skip(end);
    assert(losses.subrange(start, end) =~= portions) by {
        assert forall|k: int| 0 <= k < end - start implies losses.subrange(start, end)[k]
            == #[trigger] portions[k] by {
            lemma_released_grows(stakes, start, start + k, end, now, amount);
        }
    }
    assert(losses =~= front + portions + back);
    lemma_filter_of_none(front, positive);
    lemma_filter_of_none(back, positive);
    Seq::filter_distributes_over_add(front + portions, back, positive);
    Seq::filter_distributes_over_add(front, portions, positive);
    assert(losses.filter(positive) =~= portions.filter(positive));
}

/// Which requests can be carried out: those that are refused for their amount always; any other
/// where the rewards can be settled and, once the clock has answered and the start is inside the
/// list, the end of the batch and the moments that are looked at stay within their types and the
/// pool's supply covers what is taken.
pub proof fn law_unstake_is_open(
    accounts: Unstake,
    amount: u64,
    start_index: Option<u64>,
    max_iterations: Option<u64>,
    clock: Result<i64, ProgramError>,
    reward: int,
)
    requires
        is_share(
            reward,
            accounts.user_state.data.balance as int,
            accounts.staking_pool.data.reward_index as int,
            accounts.user_state.data.reward_index_of as int,
        ),
    ensures
        ({
            let user = accounts.user_state.data;
            let pool = accounts.staking_pool.data;
            let stakes = user.stakes@;
            let start = batch_start(start_index);
            let stop = batch_stop(start_index, max_iterations, stakes.len());
            unstake_fits(accounts, amount, start_index, max_iterations, clock) <==> {
                ||| amount == 0
                ||| user.balance < amount
                ||| {
                    &&& pool.reward_index <= user.reward_index_of || user.balance * (
                    pool.reward_index - user.reward_index_of) <= u128::MAX
                    &&& user.earned + reward <= u64::MAX
                    &&& (clock matches Ok(now) && start < stakes.len()) ==> {
                        let now = clock->Ok_0;
                        let sum = ripe_sum(stakes, start, stop, now);
                        &&& start + number_or(max_iterations, 25) <= u64::MAX
                        &&& forall|i: int|
                            start <= i < stop && (#[trigger] stakes[i]).amount > 0 && ripe_sum(
                                stakes,
                                start,
                                i,
                                now,
                            ) < amount ==> stakes[i].timestamp + 300 <= i64::MAX
                        &&& sum > 0 ==> now + 120 <= i64::MAX
                        &&& sum <= pool.total_supply || amount <= pool.total_supply
                    }
                }
            }
        }),
{
    let user = accounts.user_state.data;
    let stakes = user.stakes@;
    let start = batch_start(start_index);
    let stop = batch_stop(start_index, max_iterations, stakes.len());
    law_settling_adds_the_share(user@, accounts.staking_pool.data.reward_index, reward);
    if let Ok(now) = clock {
        assert forall|i: int| #[trigger] ripe_sum(stakes, start, i, now) == releasable(
            stakes,
            start,
            i,
            now,
        ) by {
            lemma_ripe_sum(stakes, start, i, now);
        }
        if start < stakes.len() && amount > 0 {
            assert forall|i: int| start <= i < stop implies (released(stakes, start, i, now, amount)
                < amount) == (#[trigger] ripe_sum(stakes, start, i, now) < amount) by {}
        }
    }
}

/// The answer to a request. It is carried out exactly where the amount is not zero and not above
/// the balance, the clock answers, the start is inside the list, some ripe stake of the batch
/// holds something, and the reward index can take the share that goes to the remaining stakers;
/// what else is on the record does not matter. Each other case has its own error.
pub proof fn law_unstake_answer(
    before: Unstake,
    amount: u64,
    start_index: Option<u64>,
    max_iterations: Option<u64>,
    clock: Result<i64, ProgramError>,
    actions: Seq<Action>,
    after: Unstake,
    actions_after: Seq<Action>,
    result: Result<(), Rejection>,
)
    requires
        unstake_fits(before, amount, start_index, max_iterations, clock),
        unstaked(
            before,
            amount,
            start_index,
            max_iterations,
            clock,
            actions,
            after,
            actions_after,
            result,
        ),
    ensures
        ({
            let stakes = before.user_state.data.stakes@;
            let pool = before.staking_pool.data;
            let start = batch_start(start_index);
            let stop = batch_stop(start_index, max_iterations, stakes.len());
            let processed = before.user_state.data.balance - after.user_state.data.balance;
            let left = pool.total_supply - processed;
            result == if amount == 0 {
                Err::<(), Rejection>(Rejection::Staking(StakingError::CannotUnstakeZero))
            } else if before.user_state.data.balance < amount {
                Err(Rejection::Staking(StakingError::InsufficientBalance))
            } else {
                match clock {
                    Err(error) => Err(Rejection::Clock(error)),
                    Ok(now) => if start >= stakes.len() {
                        Err(Rejection::Staking(StakingError::InvalidStartIndex))
                    } else if !exists|i: int|
                        start <= i < stop && (#[trigger] stakes[i]).amount > 0 && is_ripe(
                            stakes[i],
                            now,
                        ) {
                        Err(Rejection::Staking(StakingError::NoUnlockedStakesInBatch))
                    } else if left > 0 && pool.reward_index + (processed
                        * 1_000_000_000_000_000_000) / left > u128::MAX {
                        Err(Rejection::Staking(StakingError::ArithmeticOverflow))
                    } else {
                        Ok(())
                    },
                }
            }
        }),
        result is Ok <==> 0 < amount <= before.user_state.data.balance && clock is Ok && {
            let stakes = before.user_state.data.stakes@;
            let pool = before.staking_pool.data;
            let start = batch_start(start_index);
            let stop = batch_stop(start_index, max_iterations, stakes.len());
            let processed = before.user_state.data.balance - after.user_state.data.balance;
            let left = pool.total_supply - processed;
            &&& start < stakes.len()
            &&& exists|i: int|
                start <= i < stop && (#[trigger] stakes[i]).amount > 0 && is_ripe(
                    stakes[i],
                    clock->Ok_0,
                )
            &&& left > 0 ==> pool.reward_index + (processed * 1_000_000_000_000_000_000) / left
                <= u128::MAX
        },
{
    let stakes = before.user_state.data.stakes@;
    let start = batch_start(start_index);
    let stop = batch_stop(start_index, max_iterations, stakes.len());
    if let Ok(now) = clock {
        if 0 < amount <= before.user_state.data.balance && start < stakes.len() {
            law_release_takes_in_order(stakes, start, stop, now, amount);
        }
    }
}

/// A request that is refused for its amount changes nothing.
pub proof fn law_unstake_of_wrong_amount_changes_nothing(
    before: Unstake,
    amount: u64,
    start_index: Option<u64>,
    max_iterations: Option<u64>,
    clock: Result<i64, ProgramError>,
    actions: Seq<Action>,
    after: Unstake,
    actions_after: Seq<Action>,
    result: Result<(), Rejection>,
)
    requires
        amount == 0 || before.user_state.data.balance < amount,
        unstaked(
            before,
            amount,
            start_index,
            max_iterations,
            clock,
            actions,
            after,
            actions_after,
            result,
        ),
    ensures
        result is Err,
        actions_after == actions,
        record_kept(before.user_state.data, after.user_state.data),
        pool_kept(before.staking_pool.data, after.staking_pool.data),
        surroundings_kept(before, after),
{
    assert(actions + Seq::<Action>::empty() =~= actions);
}

/// A request for a proper amount takes from the stakes in their order, opens a request for what
/// each loses, and moves the totals by the same amount. The remaining stakers are credited that
/// amount. Where the clock does not answer or the start is outside the list, nothing moves. The
/// record is settled in any case, and nothing is left earned.
pub proof fn law_unstake_moves_what_it_takes(
    before: Unstake,
    amount: u64,
    start_index: Option<u64>,
    max_iterations: Option<u64>,
    clock: Result<i64, ProgramError>,
    actions: Seq<Action>,
    after: Unstake,
    actions_after: Seq<Action>,
    result: Result<(), Rejection>,
)
    requires
        0 < amount <= before.user_state.data.balance,
        unstake_fits(before, amount, start_index, max_iterations, clock),
        unstaked(
            before,
            amount,
            start_index,
            max_iterations,
            clock,
            actions,
            after,
            actions_after,
            result,
        ),
    ensures
        after.user_state.data.earned == 0,
        after.user_state.data.reward_index_of == before.staking_pool.data.reward_index,
        after.user_state.data.owner == before.user_state.data.owner,
        surroundings_kept(before, after),
        ({
            let stakes = before.user_state.data.stakes@;
            let stakes_after = after.user_state.data.stakes@;
            let requests = before.user_state.data.unbonding_requests@;
            let pool = before.staking_pool.data;
            let start = batch_start(start_index);
            let stop = batch_stop(start_index, max_iterations, stakes.len());
            let processed = before.user_state.data.balance - after.user_state.data.balance;
            let left = pool.total_supply - processed;
            let rise = after.staking_pool.data.reward_index - pool.reward_index;
            &&& pool_moved(pool, after.staking_pool.data, left, pool.reward_index + rise)
            &&& rise != 0 ==> result is Ok
            &&& result is Ok && left == 0 ==> rise == 0
            &&& result is Ok && left > 0 ==> left * rise <= processed * 1_000_000_000_000_000_000
                < left * (rise + 1)
            &&& match clock {
                Ok(now) if start < stakes.len() => {
                    &&& taken_in_order(
                        stakes,
                        stakes_after,
                        start,
                        stop,
                        now,
                        amount as int,
                        processed,
                    )
                    &&& after.user_state.data.unbonding_requests@ == requests + requests_for(
                        stakes,
                        stakes_after,
                        now,
                    )
                    &&& processed > 0 ==> now + 120 <= i64::MAX
                },
                _ => {
                    &&& processed == 0
                    &&& stakes_after == stakes
                    &&& after.user_state.data.unbonding_requests@ == requests
                },
            }
        }),
{
    let stakes = before.user_state.data.stakes@;
    let pool = before.staking_pool.data;
    let start = batch_start(start_index);
    let stop = batch_stop(start_index, max_iterations, stakes.len());
    if let Ok(now) = clock {
        if start < stakes.len() {
            law_release_takes_in_order(stakes, start, stop, now, amount);
            let processed = released(stakes, start, stop, now, amount);
            if processed == 0 {
                lemma_nothing_released(stakes, start, stop, now, amount);
                let requests = before.user_state.data.unbonding_requests@;
                assert(requests + Seq::<UnbondingRequest>::empty() =~= requests);
            } else {
                let smaller = StakingPool {
                    total_supply: (pool.total_supply - processed) as u64,
                    ..pool
                };
                if smaller.total_supply > 0 {
                    lemma_floor(
                        processed * 1_000_000_000_000_000_000,
                        smaller.total_supply as int,
                    );
                }
            }
        }
    }
}

/// The steps of a request for a proper amount: first what had been earned and the share since
/// leave the reward vault for the user's reward account, whatever the answer; then the log tells
/// of each new request; and where the request succeeds, less than the amount was taken and the
/// batch ends before the list does, a last entry tells where to go on.
pub proof fn law_unstake_steps(
    before: Unstake,
    amount: u64,
    start_index: Option<u64>,
    max_iterations: Option<u64>,
    clock: Result<i64, ProgramError>,
    actions: Seq<Action>,
    after: Unstake,
    actions_after: Seq<Action>,
    result: Result<(), Rejection>,
)
    requires
        0 < amount <= before.user_state.data.balance,
        unstake_fits(before, amount, start_index, max_iterations, clock),
        unstaked(
            before,
            amount,
            start_index,
            max_iterations,
            clock,
            actions,
            after,
            actions_after,
            result,
        ),
    ensures
        extends(actions, actions_after),
        ({
            let steps = added(actions, actions_after);
            let user = before.user_state.data;
            let len = user.stakes@.len();
            let stop = batch_stop(start_index, max_iterations, len);
            let processed = user.balance - after.user_state.data.balance;
            let paid = paid_from(steps, before.reward_vault);
            let paying = if paid == 0 {
                0int
            } else {
                2
            };
            let old_requests = user.unbonding_requests@.len();
            let requests = after.user_state.data.unbonding_requests@;
            let opened = requests.len() - old_requests;
            let goes_on = result is Ok && processed < amount && stop < len;
            &&& is_share(
                paid - user.earned,
                user.balance as int,
                before.staking_pool.data.reward_index as int,
                user.reward_index_of as int,
            )
            &&& opened >= 0
            &&& steps.len() == paying + opened + if goes_on {
                1int
            } else {
                0
            }
            &&& pays(
                steps.take(paying),
                paid,
                before.reward_vault,
                before.user_reward_account.key,
                before.staking_pool.key,
                before.staking_pool.data.bump,
                user.owner,
            )
            &&& forall|k: int|
                paying <= k < paying + opened ==> (#[trigger] steps[k] matches Action::Emit(
                    Event::UnbondingStarted(entry),
                ) && entry.user == before.user && entry.amount == requests[old_requests + k
                    - paying].amount && entry.unbonding_end_time == requests[old_requests + k
                    - paying].unbonding_end_time)
            &&& goes_on ==> (steps.last() matches Action::Emit(Event::PartialUnstake(entry))
                && entry.user == before.user && entry.requested_amount == amount
                && entry.processed_amount == processed && entry.remaining_amount == amount
                - processed && entry.next_index == stop)
        }),
{
    let step = unstake_step(before, amount, start_index, max_iterations, clock);
    let user = before.user_state.data@;
    let index = before.staking_pool.data.reward_index;
    let payment = unstake_payment(before);
    let stakes = before.user_state.data.stakes@;
    let start = batch_start(start_index);
    let stop = batch_stop(start_index, max_iterations, stakes.len());
    assert(stakes.len() == before.user_state.data.stakes.len());
    lemma_added(actions, step.actions);
    lemma_rewards_are_the_share(user.balance, index, user.reward_index_of);
    law_payment_moves_its_amount(
        before.staking_pool.key,
        before.staking_pool.data.bump,
        before.reward_vault,
        before.user_reward_account.key,
        user.owner,
        settled(user, index).earned,
    );
    let log = step.actions.skip(payment.len() as int);
    assert(step.actions =~= payment + log);
    if let Ok(now) = clock {
        if start < stakes.len() {
            lemma_released_grows(stakes, start, start, stop, now, amount);
        }
    }
    assert forall|k: int| 0 <= k < log.len() implies #[trigger] log[k] is Emit by {}
    lemma_log_pays_nothing(payment, log, before.reward_vault);
    assert(step.actions.take(payment.len() as int) =~= payment);
}

} // verus!
