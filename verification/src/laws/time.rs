//! What holds of locks and waiting times.
use crate::accounts::Unstake;
use crate::instructions::or_default;
use crate::instructions::unstake::{batch_end, unstake_fits, unstake_step};
use crate::stakes::{
    is_active, lemma_first_near, lemma_latest_active, near, similar_stake, unlocked,
};
use crate::state::{StakeInfo, UnbondingRequest, DEFAULT_BATCH, LOCK_PERIOD, UNBONDING_PERIOD};
use crate::unbonding::{
    lemma_released_grows, matured, new_requests, released, stakes_after, taken,
};
use vstd::prelude::*;

verus! {

/// An unstake takes only from stakes whose lock has run out, leaves the moment of every stake as
/// it is, and touches no stake outside its batch.
pub proof fn law_unstake_respects_the_lock(
    accounts: Unstake,
    amount: u64,
    start_index: Option<u64>,
    max_iterations: Option<u64>,
    now: i64,
    i: int,
)
    requires
        unstake_fits(accounts, amount, start_index, max_iterations, Ok(now)),
        0 <= i < accounts.user_state.data@.stakes.len(),
    ensures
        ({
            let stakes = accounts.user_state.data@.stakes;
            let after = unstake_step(
                accounts,
                amount,
                start_index,
                max_iterations,
                Ok(now),
            ).user.stakes;
            let start = or_default(start_index, 0);
            let batch = or_default(max_iterations, DEFAULT_BATCH);
            &&& after.len() == stakes.len()
            &&& after[i].timestamp == stakes[i].timestamp
            &&& after[i].amount <= stakes[i].amount
            &&& after[i].amount < stakes[i].amount ==> {
                &&& now >= stakes[i].timestamp + LOCK_PERIOD
                &&& start <= i < start + batch
            }
        }),
{
    let user = accounts.user_state.data@;
    let start = or_default(start_index, 0);
    let batch = or_default(max_iterations, DEFAULT_BATCH);
    if amount > 0 && user.balance >= amount && start < user.stakes.len() {
        let end = batch_end(start, batch, user.stakes.len());
        if start <= i < end {
            lemma_released_grows(user.stakes, start as int, i, end, now, amount);
        }
    }
}

/// An unstake that covers less than was asked for has emptied every unlocked stake of its batch.
pub proof fn law_partial_unstake_empties_its_batch(
    stakes: Seq<StakeInfo>,
    start: int,
    end: int,
    now: i64,
    amount: u64,
    i: int,
)
    requires
        0 <= start <= i < end <= stakes.len(),
        released(stakes, start, end, now, amount) < amount,
        unlocked(stakes[i], now),
    ensures
        stakes_after(stakes, start, end, now, amount)[i].amount == 0,
{
    lemma_released_grows(stakes, start, i, end, now, amount);
    lemma_released_grows(stakes, start, i + 1, end, now, amount);
}

/// Stakes that come first in the list are used first: a later stake of the batch is touched only
/// where every unlocked one before it was emptied.
pub proof fn law_earlier_stakes_are_used_first(
    stakes: Seq<StakeInfo>,
    start: int,
    end: int,
    now: i64,
    amount: u64,
    i: int,
    j: int,
)
    requires
        0 <= start <= i < j < end <= stakes.len(),
        unlocked(stakes[i], now),
        taken(stakes, start, j, now, amount) > 0,
    ensures
        stakes_after(stakes, start, end, now, amount)[i].amount == 0,
{
    lemma_released_grows(stakes, start, i, j, now, amount);
    lemma_released_grows(stakes, start, i + 1, j, now, amount);
    lemma_released_grows(stakes, start, j, j + 1, now, amount);
}

/// Every entry that a filter leaves was let through and stood in the list.
proof fn lemma_filter_entries(
    requests: Seq<UnbondingRequest>,
    keep: spec_fn(UnbondingRequest) -> bool,
    k: int,
)
    requires
        0 <= k < requests.filter(keep).len(),
    ensures
        keep(requests.filter(keep)[k]),
        requests.contains(requests.filter(keep)[k]),
    decreases requests.len(),
{
    reveal(Seq::filter);
    if requests.len() > 0 {
        let front = requests.drop_last();
        if keep(requests.last()) && k == front.filter(keep).len() {
            assert(requests.filter(keep)[k] == requests[requests.len() - 1]);
        } else {
            lemma_filter_entries(front, keep, k);
            let entry = front.filter(keep)[k];
            let place = choose|m: int| 0 <= m < front.len() && front[m] == entry;
            assert(requests[place] == entry);
        }
    }
}

/// What is unstaked can be withdrawn only once the unbonding period has passed, and then it can.
pub proof fn law_unbonding_takes_its_time(
    stakes: Seq<StakeInfo>,
    start: int,
    end: int,
    now: i64,
    amount: u64,
    k: int,
    later: i64,
)
    requires
        0 <= start <= end <= stakes.len(),
        now + UNBONDING_PERIOD <= i64::MAX,
        0 <= k < new_requests(stakes, start, end, now, amount).len(),
    ensures
        ({
            let request = new_requests(stakes, start, end, now, amount)[k];
            &&& request.amount > 0
            &&& request.unbonding_end_time == now + UNBONDING_PERIOD
            &&& matured(request, later) <==> later - now >= UNBONDING_PERIOD
        }),
{
    let portions = Seq::new(
        (end - start) as nat,
        |m: int|
            UnbondingRequest {
                amount: taken(stakes, start, start + m, now, amount) as u64,
                unbonding_end_time: (now + UNBONDING_PERIOD) as i64,
                withdrawn: false,
            },
    );
    let positive = |request: UnbondingRequest| request.amount > 0;
    lemma_filter_entries(portions, positive, k);
}

/// A deposit at the limit joins the first active stake near to it. Where none is near, it joins
/// the latest active stake.
pub proof fn law_similar_stake_is_near_or_latest(stakes: Seq<StakeInfo>, window: i64, now: i64)
    ensures
        similar_stake(stakes, window, Ok(now)) matches Some(i) ==> {
            &&& 0 <= i < stakes.len()
            &&& is_active(stakes[i])
            &&& if near(now, stakes[i].timestamp, window) {
                forall|j: int|
                    0 <= j < i && is_active(#[trigger] stakes[j]) ==> !near(
                        now,
                        stakes[j].timestamp,
                        window,
                    )
            } else {
                forall|j: int|
                    0 <= j < stakes.len() && is_active(#[trigger] stakes[j]) ==> {
                        &&& !near(now, stakes[j].timestamp, window)
                        &&& stakes[j].timestamp <= stakes[i].timestamp
                        &&& j > i ==> stakes[j].timestamp < stakes[i].timestamp
                    }
            }
        },
        similar_stake(stakes, window, Ok(now)) is None <==> forall|j: int|
            0 <= j < stakes.len() ==> !is_active(#[trigger] stakes[j]),
{
    lemma_first_near(stakes, window, now);
    lemma_latest_active(stakes);
}

} // verus!
