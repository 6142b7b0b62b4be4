//! What holds of unbonding requests and their payment.
use crate::accounts::{Claim, ConsolidateStakes, Stake, Unstake, Withdraw};
use crate::instructions::or_default;
use crate::instructions::stake::{stake_fits, stake_step};
use crate::instructions::unstake::{batch_end, unstake_fits, unstake_step};
use crate::instructions::user::{claim_fits, claim_step, consolidate_fits, consolidate_step};
use crate::instructions::withdraw::{repayment, requests_after, withdraw_fits, withdraw_step};
use crate::laws::balances::{law_stake_keeps_balance, moved};
use crate::laws::time::law_unbonding_takes_its_time;
use crate::stakes::total_unlocked;
use crate::state::{StakeInfo, UnbondingRequest, UserView, DEFAULT_BATCH, UNBONDING_PERIOD};
use crate::unbonding::{
    is_paid, lemma_matured_count_step, lemma_payout_grows, lemma_released_grows, marked, matured,
    matured_count, new_requests, outstanding, payout, payout_fits, releasable, released, taken,
};
use anchor_lang::prelude::ProgramError;
use vstd::prelude::*;

verus! {

/// What the requests that were not paid yet are worth together.
pub open spec fn owed(requests: Seq<UnbondingRequest>) -> int
    decreases requests.len(),
{
    if requests.len() == 0 {
        0
    } else {
        owed(requests.drop_last()) + worth(requests.last())
    }
}

/// What a request is still worth.
pub open spec fn worth(request: UnbondingRequest) -> int {
    if request.withdrawn {
        0
    } else {
        request.amount as int
    }
}

/// All that the pool has from a user: what is staked and what is on its way back.
pub open spec fn holdings(user: UserView) -> int {
    user.balance + owed(user.unbonding_requests)
}

proof fn lemma_owed_of_concatenation(a: Seq<UnbondingRequest>, b: Seq<UnbondingRequest>)
    ensures
        owed(a + b) == owed(a) + owed(b),
    decreases b.len(),
{
    if b.len() == 0 {
        assert(a + b =~= a);
    } else {
        assert((a + b).drop_last() =~= a + b.drop_last());
        lemma_owed_of_concatenation(a, b.drop_last());
    }
}

/// Dropping requests that are worth nothing changes nothing of what is owed.
proof fn lemma_owed_of_filter(
    requests: Seq<UnbondingRequest>,
    keep: spec_fn(UnbondingRequest) -> bool,
)
    requires
        forall|request: UnbondingRequest| !#[trigger] keep(request) ==> worth(request) == 0,
    ensures
        owed(requests.filter(keep)) == owed(requests),
    decreases requests.len(),
{
    reveal(Seq::filter);
    if requests.len() > 0 {
        let front = requests.drop_last();
        lemma_owed_of_filter(front, keep);
        if keep(requests.last()) {
            let kept = front.filter(keep);
            assert(kept.push(requests.last()).drop_last() =~= kept);
        }
    }
}

/// The parts that a release takes, before those of nothing are left out.
spec fn portions(
    stakes: Seq<StakeInfo>,
    start: int,
    end: int,
    now: i64,
    amount: u64,
) -> Seq<UnbondingRequest> {
    Seq::new(
        (end - start) as nat,
        |k: int|
            UnbondingRequest {
                amount: taken(stakes, start, start + k, now, amount) as u64,
                unbonding_end_time: (now + UNBONDING_PERIOD) as i64,
                withdrawn: false,
            },
    )
}

proof fn lemma_owed_of_portions(
    stakes: Seq<StakeInfo>,
    start: int,
    end: int,
    now: i64,
    amount: u64,
)
    requires
        0 <= start <= end <= stakes.len(),
    ensures
        owed(portions(stakes, start, end, now, amount)) == released(
            stakes,
            start,
            end,
            now,
            amount,
        ),
    decreases end - start,
{
    if start < end {
        lemma_owed_of_portions(stakes, start, end - 1, now, amount);
        lemma_released_grows(stakes, start, end - 1, end, now, amount);
        assert(portions(stakes, start, end, now, amount).drop_last() =~= portions(
            stakes,
            start,
            end - 1,
            now,
            amount,
        ));
        assert(portions(stakes, start, end, now, amount).last().amount == taken(
            stakes,
            start,
            end - 1,
            now,
            amount,
        ));
    }
}

/// The requests that a release opens are worth what it takes.
pub proof fn law_new_requests_are_worth_what_was_released(
    stakes: Seq<StakeInfo>,
    start: int,
    end: int,
    now: i64,
    amount: u64,
)
    requires
        0 <= start <= end <= stakes.len(),
    ensures
        owed(new_requests(stakes, start, end, now, amount)) == released(
            stakes,
            start,
            end,
            now,
            amount,
        ),
{
    let positive = |request: UnbondingRequest| request.amount > 0;
    lemma_owed_of_portions(stakes, start, end, now, amount);
    lemma_owed_of_filter(portions(stakes, start, end, now, amount), positive);
    assert(portions(stakes, start, end, now, amount).filter(positive) =~= new_requests(
        stakes,
        start,
        end,
        now,
        amount,
    ));
}

/// Taking stakes back moves money from the stakes to the requests: the pool has as much from the
/// user as before.
pub proof fn law_unstake_keeps_holdings(
    accounts: Unstake,
    amount: u64,
    start_index: Option<u64>,
    max_iterations: Option<u64>,
    clock: Result<i64, ProgramError>,
)
    requires
        unstake_fits(accounts, amount, start_index, max_iterations, clock),
    ensures
        ({
            let step = unstake_step(accounts, amount, start_index, max_iterations, clock);
            let user = accounts.user_state.data@;
            &&& owed(step.user.unbonding_requests) == owed(user.unbonding_requests) + moved(
                accounts,
                amount,
                start_index,
                max_iterations,
                clock,
            )
            &&& holdings(step.user) == holdings(user)
        }),
{
    let user = accounts.user_state.data@;
    let start = or_default(start_index, 0);
    let batch = or_default(max_iterations, DEFAULT_BATCH);
    if let Ok(now) = clock {
        if amount > 0 && user.balance >= amount && start < user.stakes.len() {
            let end = batch_end(start, batch, user.stakes.len());
            lemma_released_grows(user.stakes, start as int, end, end, now, amount);
            law_new_requests_are_worth_what_was_released(
                user.stakes,
                start as int,
                end,
                now,
                amount,
            );
            lemma_owed_of_concatenation(
                user.unbonding_requests,
                new_requests(user.stakes, start as int, end, now, amount),
            );
        }
    }
}

proof fn lemma_owed_of_marked(requests: Seq<UnbondingRequest>, n: int, now: i64, max: u64)
    requires
        0 <= n <= requests.len(),
    ensures
        owed(marked(requests, now, max).take(n)) == owed(requests.take(n)) - payout(
            requests,
            n,
            now,
            max,
        ),
    decreases n,
{
    if n > 0 {
        lemma_owed_of_marked(requests, n - 1, now, max);
        assert(marked(requests, now, max).take(n).drop_last() =~= marked(
            requests,
            now,
            max,
        ).take(n - 1));
        assert(requests.take(n).drop_last() =~= requests.take(n - 1));
    }
}

/// What is owed after a payout and what was paid make up what was owed before, whether or not the
/// paid requests are dropped.
pub proof fn law_payout_reduces_what_is_owed(
    requests: Seq<UnbondingRequest>,
    now: i64,
    max: u64,
)
    ensures
        owed(marked(requests, now, max)) == owed(requests) - payout(
            requests,
            requests.len() as int,
            now,
            max,
        ),
        owed(requests_after(requests, now, max)) == owed(marked(requests, now, max)),
        0 <= payout(requests, requests.len() as int, now, max) <= owed(requests),
{
    let all = requests.len() as int;
    lemma_owed_of_marked(requests, all, now, max);
    lemma_payout_grows(requests, all, all, now, max);
    assert(requests.take(all) =~= requests);
    assert(marked(requests, now, max).take(all) =~= marked(requests, now, max));
    lemma_owed_of_filter(
        marked(requests, now, max),
        |request: UnbondingRequest| !request.withdrawn,
    );
    lemma_owed_not_negative(marked(requests, now, max));
}

proof fn lemma_owed_not_negative(requests: Seq<UnbondingRequest>)
    ensures
        owed(requests) >= 0,
    decreases requests.len(),
{
    if requests.len() > 0 {
        lemma_owed_not_negative(requests.drop_last());
    }
}

/// A withdrawal pays exactly what it takes off what the pool has from the user, and one that is
/// refused leaves that as it was.
pub proof fn law_withdraw_pays_what_it_takes_off(
    accounts: Withdraw,
    max_requests: Option<u64>,
    clock: Result<i64, ProgramError>,
)
    requires
        withdraw_fits(accounts, max_requests, clock),
    ensures
        ({
            let step = withdraw_step(accounts, max_requests, clock);
            let loss = holdings(accounts.user_state.data@) - holdings(step.user);
            &&& step.result is Ok ==> 0 < loss <= u64::MAX && step.actions.len() > 0
                && step.actions[0] == repayment(accounts, loss as u64)
            &&& step.result is Err ==> loss == 0 && step.actions.len() == 0
        }),
{
    let user = accounts.user_state.data@;
    if let Ok(now) = clock {
        law_payout_reduces_what_is_owed(
            user.unbonding_requests,
            now,
            or_default(max_requests, DEFAULT_BATCH),
        );
    }
}

/// A request that was paid is never paid again: at no later moment can it be.
pub proof fn law_no_request_is_paid_twice(
    requests: Seq<UnbondingRequest>,
    i: int,
    now: i64,
    max: u64,
    later: i64,
)
    requires
        0 <= i < requests.len(),
        is_paid(requests, i, now, max),
    ensures
        !matured(marked(requests, now, max)[i], later),
        worth(marked(requests, now, max)[i]) == 0,
{
}

/// Two withdrawals one after the other pay together at most what was owed before the first.
pub proof fn law_two_payouts_stay_within_what_is_owed(
    requests: Seq<UnbondingRequest>,
    now: i64,
    max: u64,
    later: i64,
    later_max: u64,
)
    ensures
        ({
            let rest = requests_after(requests, now, max);
            payout(requests, requests.len() as int, now, max) + payout(
                rest,
                rest.len() as int,
                later,
                later_max,
            ) <= owed(requests)
        }),
{
    law_payout_reduces_what_is_owed(requests, now, max);
    law_payout_reduces_what_is_owed(requests_after(requests, now, max), later, later_max);
}

/// A request that was not paid stays as it is.
pub proof fn law_unpaid_requests_stay(
    requests: Seq<UnbondingRequest>,
    i: int,
    now: i64,
    max: u64,
)
    requires
        0 <= i < requests.len(),
        !is_paid(requests, i, now, max),
    ensures
        marked(requests, now, max)[i] == requests[i],
        !requests[i].withdrawn ==> outstanding(marked(requests, now, max)).contains(requests[i]),
{
    let unpaid = |request: UnbondingRequest| !request.withdrawn;
    if !requests[i].withdrawn {
        assert(marked(requests, now, max)[i] == requests[i]);
        lemma_filter_keeps(marked(requests, now, max), unpaid, i);
    }
}

/// An entry that a filter lets through is among what is left.
proof fn lemma_filter_keeps(
    requests: Seq<UnbondingRequest>,
    keep: spec_fn(UnbondingRequest) -> bool,
    i: int,
)
    requires
        0 <= i < requests.len(),
        keep(requests[i]),
    ensures
        requests.filter(keep).contains(requests[i]),
    decreases requests.len(),
{
    reveal(Seq::filter);
    let front = requests.drop_last();
    if i == front.len() {
        let kept = front.filter(keep).push(requests.last());
        assert(kept[kept.len() - 1] == requests[i]);
    } else {
        lemma_filter_keeps(front, keep, i);
        let place = choose|k: int|
            0 <= k < front.filter(keep).len() && front.filter(keep)[k] == front[i];
        assert(requests.filter(keep)[place] == requests[i]);
    }
}

proof fn lemma_matured_of_marked(requests: Seq<UnbondingRequest>, n: int, now: i64, max: u64)
    requires
        0 <= n <= requests.len(),
    ensures
        ({
            let count = matured_count(requests.take(n), now);
            matured_count(marked(requests, now, max).take(n), now) == count - if count < max {
                count as int
            } else {
                max as int
            }
        }),
    decreases n,
{
    if n > 0 {
        lemma_matured_of_marked(requests, n - 1, now, max);
        lemma_matured_count_step(requests, n - 1, now);
        lemma_matured_count_step(marked(requests, now, max), n - 1, now);
    } else {
        reveal(Seq::filter);
        assert(requests.take(0) =~= Seq::empty());
        assert(marked(requests, now, max).take(0) =~= Seq::empty());
    }
}

proof fn lemma_matured_of_outstanding(requests: Seq<UnbondingRequest>, now: i64)
    ensures
        matured_count(outstanding(requests), now) == matured_count(requests, now),
    decreases requests.len(),
{
    reveal(Seq::filter);
    if requests.len() > 0 {
        let front = requests.drop_last();
        lemma_matured_of_outstanding(front, now);
        if !requests.last().withdrawn {
            let kept = outstanding(front);
            assert(outstanding(requests) =~= kept.push(requests.last()));
            assert(kept.push(requests.last()).drop_last() =~= kept);
        }
    }
}

/// A withdrawal pays as many requests as can be paid, up to its limit; the others can still be
/// paid at once.
pub proof fn law_withdraw_leaves_what_exceeds_its_limit(
    requests: Seq<UnbondingRequest>,
    now: i64,
    max: u64,
)
    ensures
        matured_count(requests_after(requests, now, max), now) == (if matured_count(
            requests,
            now,
        ) < max {
            0
        } else {
            matured_count(requests, now) - max
        }),
{
    let all = requests.len() as int;
    lemma_matured_of_marked(requests, all, now, max);
    assert(requests.take(all) =~= requests);
    assert(marked(requests, now, max).take(all) =~= marked(requests, now, max));
    lemma_matured_of_outstanding(marked(requests, now, max), now);
}

/// Where what is owed can be held in 64 bits, so can every payout.
pub proof fn law_payout_fits_what_is_owed(requests: Seq<UnbondingRequest>, now: i64, max: u64)
    requires
        owed(requests) <= u64::MAX,
    ensures
        payout_fits(requests, now, max),
{
    law_payout_reduces_what_is_owed(requests, now, max);
}

// ---------------------------------------------------------------------------
// What the pool has from a user changes only by deposits and repayments
// ---------------------------------------------------------------------------

/// A deposit adds its amount to what the pool has from the user, or nothing where it is refused.
pub proof fn law_stake_adds_to_holdings(
    accounts: Stake,
    amount: u64,
    clock: Result<i64, ProgramError>,
)
    requires
        stake_fits(accounts, amount, clock),
    ensures
        ({
            let step = stake_step(accounts, amount, clock);
            holdings(step.user) == holdings(accounts.user_state.data@) + if step.result is Ok {
                amount as int
            } else {
                0
            }
        }),
{
    law_stake_keeps_balance(accounts, amount, clock);
}

/// A claim keeps what the pool has from the user.
pub proof fn law_claim_keeps_holdings(accounts: Claim)
    requires
        claim_fits(accounts),
    ensures
        holdings(claim_step(accounts).user) == holdings(accounts.user_state.data@),
{
}

/// Consolidating keeps what the pool has from the user.
pub proof fn law_consolidate_keeps_holdings(accounts: ConsolidateStakes, time_window: i64)
    requires
        consolidate_fits(accounts, time_window),
    ensures
        holdings(consolidate_step(accounts, time_window).user) == holdings(
            accounts.user_state.data@,
        ),
{
}

// ---------------------------------------------------------------------------
// Money that is due can be had
// ---------------------------------------------------------------------------

proof fn lemma_releasable_of_prefix(stakes: Seq<StakeInfo>, n: int, now: i64)
    requires
        0 <= n <= stakes.len(),
    ensures
        releasable(stakes, 0, n, now) == total_unlocked(stakes.take(n), now),
    decreases n,
{
    if n > 0 {
        assert(stakes.take(n).drop_last() =~= stakes.take(n - 1));
        lemma_releasable_of_prefix(stakes, n - 1, now);
    }
}

/// An unstake whose batch is the whole list moves all that was asked for, as far as it is
/// unlocked.
pub proof fn law_whole_list_covers_what_is_unlocked(
    accounts: Unstake,
    amount: u64,
    max_iterations: u64,
    now: i64,
)
    requires
        0 < amount <= accounts.user_state.data.balance,
        0 < accounts.user_state.data@.stakes.len() <= max_iterations,
    ensures
        ({
            let available = total_unlocked(accounts.user_state.data@.stakes, now);
            moved(accounts, amount, None, Some(max_iterations), Ok(now)) == if available < amount {
                available
            } else {
                amount as int
            }
        }),
{
    let stakes = accounts.user_state.data@.stakes;
    lemma_releasable_of_prefix(stakes, stakes.len() as int, now);
    assert(stakes.take(stakes.len() as int) =~= stakes);
}

/// What the requests that can be paid at the moment `now` are worth together.
pub open spec fn total_matured(requests: Seq<UnbondingRequest>, now: i64) -> int
    decreases requests.len(),
{
    if requests.len() == 0 {
        0
    } else {
        total_matured(requests.drop_last(), now) + if matured(requests.last(), now) {
            requests.last().amount as int
        } else {
            0
        }
    }
}

proof fn lemma_payout_of_prefix(requests: Seq<UnbondingRequest>, n: int, now: i64, max: u64)
    requires
        0 <= n <= requests.len(),
        matured_count(requests.take(n), now) <= max,
    ensures
        payout(requests, n, now, max) == total_matured(requests.take(n), now),
    decreases n,
{
    if n > 0 {
        lemma_matured_count_step(requests, n - 1, now);
        lemma_payout_of_prefix(requests, n - 1, now, max);
        assert(requests.take(n).drop_last() =~= requests.take(n - 1));
    }
}

/// A withdrawal whose limit is not exceeded pays every request that can be paid.
pub proof fn law_withdraw_pays_all_that_is_due(
    requests: Seq<UnbondingRequest>,
    now: i64,
    max: u64,
)
    requires
        matured_count(requests, now) <= max,
    ensures
        payout(requests, requests.len() as int, now, max) == total_matured(requests, now),
{
    assert(requests.take(requests.len() as int) =~= requests);
    lemma_payout_of_prefix(requests, requests.len() as int, now, max);
}

proof fn lemma_all_matured(requests: Seq<UnbondingRequest>, now: i64)
    requires
        forall|k: int| 0 <= k < requests.len() ==> matured(#[trigger] requests[k], now),
    ensures
        total_matured(requests, now) == owed(requests),
        matured_count(requests, now) == requests.len(),
    decreases requests.len(),
{
    reveal(Seq::filter);
    if requests.len() > 0 {
        let front = requests.drop_last();
        assert forall|k: int| 0 <= k < front.len() implies matured(#[trigger] front[k], now) by {
            assert(front[k] == requests[k]);
        }
        lemma_all_matured(front, now);
        assert(matured(requests[requests.len() - 1], now));
    }
}

/// What was unstaked comes back in full: once the unbonding period has passed, a withdrawal of
/// all the new requests pays what was released.
pub proof fn law_released_money_comes_back(
    stakes: Seq<StakeInfo>,
    start: int,
    end: int,
    now: i64,
    amount: u64,
    later: i64,
    max: u64,
)
    requires
        0 <= start <= end <= stakes.len(),
        now + UNBONDING_PERIOD <= later,
        new_requests(stakes, start, end, now, amount).len() <= max,
    ensures
        ({
            let requests = new_requests(stakes, start, end, now, amount);
            payout(requests, requests.len() as int, later, max) == released(
                stakes,
                start,
                end,
                now,
                amount,
            )
        }),
{
    let requests = new_requests(stakes, start, end, now, amount);
    assert forall|k: int| 0 <= k < requests.len() implies matured(#[trigger] requests[k], later) by {
        law_unbonding_takes_its_time(stakes, start, end, now, amount, k, later);
    }
    lemma_all_matured(requests, later);
    law_withdraw_pays_all_that_is_due(requests, later, max);
    law_new_requests_are_worth_what_was_released(stakes, start, end, now, amount);
}

} // verus!
