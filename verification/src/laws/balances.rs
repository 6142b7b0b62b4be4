//! What holds of the amounts that users have in the pool.
use crate::accounts::{Claim, ConsolidateStakes, Stake, Unstake, Withdraw};
use crate::consolidation::{
    consolidated, consolidation_fits, law_consolidation_conserves, others_after,
};
use crate::instructions::stake::{stake_fits, stake_step};
use crate::instructions::unstake::{batch_end, unstake_fits, unstake_step};
use crate::instructions::user::{claim_fits, claim_step, consolidate_fits, consolidate_step};
use crate::instructions::withdraw::{withdraw_fits, withdraw_step};
use crate::instructions::or_default;
use crate::laws::rewards::{lemma_total_not_negative, total};
use crate::stakes::{
    active_count, is_active, latest_active, lemma_first_near, lemma_latest_active,
    lemma_total_of_update, similar_stake, total_staked,
};
use crate::state::{
    StakeInfo, StakingPool, UserView, DEFAULT_BATCH, MAX_ACTIVE_STAKES, SIMILAR_STAKE_WINDOW,
};
use crate::unbonding::{lemma_released_grows, released, stakes_after, taken};
use anchor_lang::prelude::ProgramError;
use vstd::prelude::*;

verus! {

// ---------------------------------------------------------------------------
// A record's balance is the sum of its stakes
// ---------------------------------------------------------------------------

/// The balance on a user's record is what the stakes hold together.
pub open spec fn balanced(user: UserView) -> bool {
    user.balance == total_staked(user.stakes)
}

/// A new record is balanced.
pub proof fn law_new_record_is_balanced(user: UserView)
    requires
        user.balance == 0,
        user.stakes.len() == 0,
    ensures
        balanced(user),
{
}

/// Where a similar stake is found, it is an active one of the list.
pub proof fn law_similar_stake_is_active(
    stakes: Seq<StakeInfo>,
    window: i64,
    clock: Result<i64, ProgramError>,
)
    ensures
        similar_stake(stakes, window, clock) matches Some(i) ==> 0 <= i < stakes.len()
            && is_active(stakes[i]),
        clock is Ok && active_count(stakes) > 0 ==> similar_stake(stakes, window, clock) is Some,
{
    if let Ok(now) = clock {
        lemma_first_near(stakes, window, now);
        lemma_latest_active(stakes);
        if active_count(stakes) > 0 && latest_active(stakes) is None {
            lemma_no_active(stakes);
        }
    }
}

proof fn lemma_no_active(stakes: Seq<StakeInfo>)
    requires
        forall|i: int| 0 <= i < stakes.len() ==> !is_active(#[trigger] stakes[i]),
    ensures
        active_count(stakes) == 0,
    decreases stakes.len(),
{
    reveal(Seq::filter);
    if stakes.len() > 0 {
        let front = stakes.drop_last();
        assert forall|i: int| 0 <= i < front.len() implies !is_active(#[trigger] front[i]) by {
            assert(front[i] == stakes[i]);
        }
        lemma_no_active(front);
        assert(!is_active(stakes[stakes.len() - 1]));
    }
}

/// A deposit keeps the record balanced, and the user's balance and the pool's supply both grow by
/// the amount, or not at all where the deposit is refused.
pub proof fn law_stake_keeps_balance(
    accounts: Stake,
    amount: u64,
    clock: Result<i64, ProgramError>,
)
    requires
        stake_fits(accounts, amount, clock),
    ensures
        ({
            let step = stake_step(accounts, amount, clock);
            let gain = if step.result is Ok {
                amount as int
            } else {
                0
            };
            let user = accounts.user_state.data@;
            &&& step.user.balance == user.balance + gain
            &&& step.pool.total_supply == accounts.staking_pool.data.total_supply + gain
            &&& total_staked(step.user.stakes) == total_staked(user.stakes) + gain
            &&& balanced(user) ==> balanced(step.user)
            &&& step.user.unbonding_requests == user.unbonding_requests
        }),
{
    let user = accounts.user_state.data@;
    if amount > 0 {
        if active_count(user.stakes) >= MAX_ACTIVE_STAKES {
            law_similar_stake_is_active(user.stakes, SIMILAR_STAKE_WINDOW, clock);
            if let Some(i) = similar_stake(user.stakes, SIMILAR_STAKE_WINDOW, clock) {
                let grown = StakeInfo {
                    amount: (user.stakes[i].amount + amount) as u64,
                    timestamp: user.stakes[i].timestamp,
                };
                lemma_total_of_update(user.stakes, i, grown);
            }
        } else if let Ok(now) = clock {
            let stake = StakeInfo { amount, timestamp: now };
            assert(user.stakes.push(stake).drop_last() =~= user.stakes);
        }
    }
}

/// What a release takes out of the stakes is what it reports.
pub proof fn lemma_release_total(
    stakes: Seq<StakeInfo>,
    start: int,
    end: int,
    now: i64,
    amount: u64,
)
    requires
        0 <= start <= end <= stakes.len(),
    ensures
        total_staked(stakes_after(stakes, start, end, now, amount)) == total_staked(stakes)
            - released(stakes, start, end, now, amount),
    decreases end - start,
{
    let after = stakes_after(stakes, start, end, now, amount);
    if start == end {
        assert(after =~= stakes);
    } else {
        let before = stakes_after(stakes, start, end - 1, now, amount);
        lemma_release_total(stakes, start, end - 1, now, amount);
        lemma_released_grows(stakes, start, end - 1, end, now, amount);
        assert(after =~= before.update(end - 1, after[end - 1]));
        lemma_total_of_update(before, end - 1, after[end - 1]);
        assert(taken(stakes, start, end - 1, now, amount) == released(
            stakes,
            start,
            end,
            now,
            amount,
        ) - released(stakes, start, end - 1, now, amount));
    }
}

/// How much an unstake moves: what the unlocked stakes of the batch cover of the amount, or
/// nothing where the request is refused before that.
pub open spec fn moved(
    accounts: Unstake,
    amount: u64,
    start_index: Option<u64>,
    max_iterations: Option<u64>,
    clock: Result<i64, ProgramError>,
) -> int {
    let user = accounts.user_state.data@;
    let start = or_default(start_index, 0);
    let batch = or_default(max_iterations, DEFAULT_BATCH);
    match clock {
        Err(_) => 0,
        Ok(now) => if amount == 0 || user.balance < amount || start >= user.stakes.len() {
            0
        } else {
            released(
                user.stakes,
                start as int,
                batch_end(start, batch, user.stakes.len()),
                now,
                amount,
            )
        },
    }
}

/// Taking stakes back keeps the record balanced. What is moved leaves the stakes, the balance and
/// the supply alike, and is at most what was asked for. A request that is answered with success
/// moves something. The owner stays.
pub proof fn law_unstake_keeps_balance(
    accounts: Unstake,
    amount: u64,
    start_index: Option<u64>,
    max_iterations: Option<u64>,
    clock: Result<i64, ProgramError>,
)
    requires
        unstake_fits(accounts, amount, start_index, max_iterations, clock),
    ensures
        ({
            let step = unstake_step(accounts, amount, start_index, max_iterations, clock);
            let loss = moved(accounts, amount, start_index, max_iterations, clock);
            let user = accounts.user_state.data@;
            &&& 0 <= loss <= amount
            &&& step.user.balance == user.balance - loss
            &&& step.pool.total_supply == accounts.staking_pool.data.total_supply - loss
            &&& total_staked(step.user.stakes) == total_staked(user.stakes) - loss
            &&& balanced(user) ==> balanced(step.user)
            &&& step.result is Ok ==> loss > 0
            &&& step.user.owner == user.owner
        }),
{
    let user = accounts.user_state.data@;
    let start = or_default(start_index, 0);
    let batch = or_default(max_iterations, DEFAULT_BATCH);
    if let Ok(now) = clock {
        if amount > 0 && user.balance >= amount && start < user.stakes.len() {
            let end = batch_end(start, batch, user.stakes.len());
            lemma_released_grows(user.stakes, start as int, end, end, now, amount);
            lemma_release_total(user.stakes, start as int, end, now, amount);
        }
    }
}

/// A withdrawal changes neither the owner nor the stakes nor the pool.
pub proof fn law_withdraw_keeps_balance(
    accounts: Withdraw,
    max_requests: Option<u64>,
    clock: Result<i64, ProgramError>,
)
    requires
        withdraw_fits(accounts, max_requests, clock),
    ensures
        ({
            let step = withdraw_step(accounts, max_requests, clock);
            let user = accounts.user_state.data@;
            &&& step.user.owner == user.owner
            &&& step.user.balance == user.balance
            &&& step.user.stakes == user.stakes
            &&& step.pool == accounts.staking_pool.data
            &&& balanced(user) ==> balanced(step.user)
        }),
{
}

/// A claim changes neither the owner nor the stakes nor the requests nor the pool.
pub proof fn law_claim_keeps_balance(accounts: Claim)
    requires
        claim_fits(accounts),
    ensures
        ({
            let step = claim_step(accounts);
            let user = accounts.user_state.data@;
            &&& step.user.owner == user.owner
            &&& step.user.balance == user.balance
            &&& step.user.stakes == user.stakes
            &&& step.user.unbonding_requests == user.unbonding_requests
            &&& step.pool == accounts.staking_pool.data
            &&& balanced(user) ==> balanced(step.user)
        }),
{
}

/// Consolidating stakes changes neither the owner nor the balance nor what the stakes hold together, nor the
/// requests, nor the pool.
pub proof fn law_consolidate_keeps_balance(accounts: ConsolidateStakes, time_window: i64)
    requires
        consolidate_fits(accounts, time_window),
    ensures
        ({
            let step = consolidate_step(accounts, time_window);
            let user = accounts.user_state.data@;
            &&& step.user.owner == user.owner
            &&& step.user.balance == user.balance
            &&& total_staked(step.user.stakes) == total_staked(user.stakes)
            &&& balanced(user) ==> balanced(step.user)
            &&& step.user.unbonding_requests == user.unbonding_requests
            &&& step.pool == accounts.staking_pool.data
        }),
{
    if time_window > 0 {
        law_consolidation_conserves(accounts.user_state.data@.stakes, time_window, 0);
    }
}

// ---------------------------------------------------------------------------
// The pool's supply is the sum of all balances
// ---------------------------------------------------------------------------

/// The pool's supply is what the balances of all users make up together.
pub open spec fn supply_is_sum(pool: StakingPool, balances: Seq<u64>) -> bool {
    pool.total_supply == total(balances)
}

proof fn lemma_total_of_change(balances: Seq<u64>, i: int, balance: u64)
    requires
        0 <= i < balances.len(),
    ensures
        total(balances.update(i, balance)) == total(balances) - balances[i] + balance,
        total(balances) >= balances[i],
    decreases balances.len(),
{
    let front = balances.drop_last();
    if i == balances.len() - 1 {
        assert(balances.update(i, balance).drop_last() =~= front);
        lemma_total_not_negative(front);
    } else {
        assert(balances.update(i, balance).drop_last() =~= front.update(i, balance));
        lemma_total_of_change(front, i, balance);
    }
}

/// A pool that was just set up, without users, has the supply that its users make up.
pub proof fn law_new_pool_has_no_supply(pool: StakingPool)
    requires
        pool.total_supply == 0,
    ensures
        supply_is_sum(pool, Seq::empty()),
{
}

/// Deposits of the user at `i` keep the supply equal to the sum of all balances.
pub proof fn law_stake_keeps_supply(
    accounts: Stake,
    amount: u64,
    clock: Result<i64, ProgramError>,
    balances: Seq<u64>,
    i: int,
)
    requires
        stake_fits(accounts, amount, clock),
        0 <= i < balances.len(),
        balances[i] == accounts.user_state.data.balance,
        supply_is_sum(accounts.staking_pool.data, balances),
    ensures
        ({
            let step = stake_step(accounts, amount, clock);
            supply_is_sum(step.pool, balances.update(i, step.user.balance))
        }),
{
    law_stake_keeps_balance(accounts, amount, clock);
    lemma_total_of_change(balances, i, stake_step(accounts, amount, clock).user.balance);
}

/// Unstaking of the user at `i` keeps the supply equal to the sum of all balances.
pub proof fn law_unstake_keeps_supply(
    accounts: Unstake,
    amount: u64,
    start_index: Option<u64>,
    max_iterations: Option<u64>,
    clock: Result<i64, ProgramError>,
    balances: Seq<u64>,
    i: int,
)
    requires
        unstake_fits(accounts, amount, start_index, max_iterations, clock),
        0 <= i < balances.len(),
        balances[i] == accounts.user_state.data.balance,
        supply_is_sum(accounts.staking_pool.data, balances),
    ensures
        ({
            let step = unstake_step(accounts, amount, start_index, max_iterations, clock);
            supply_is_sum(step.pool, balances.update(i, step.user.balance))
        }),
{
    law_unstake_keeps_balance(accounts, amount, start_index, max_iterations, clock);
    lemma_total_of_change(
        balances,
        i,
        unstake_step(accounts, amount, start_index, max_iterations, clock).user.balance,
    );
}

/// Where the supply is the sum of all balances, an unstake never takes more out of the supply
/// than it holds.
pub proof fn law_supply_covers_every_unstake(
    accounts: Unstake,
    amount: u64,
    start_index: Option<u64>,
    max_iterations: Option<u64>,
    clock: Result<i64, ProgramError>,
    balances: Seq<u64>,
    i: int,
)
    requires
        0 <= i < balances.len(),
        balances[i] == accounts.user_state.data.balance,
        supply_is_sum(accounts.staking_pool.data, balances),
    ensures
        moved(accounts, amount, start_index, max_iterations, clock)
            <= accounts.staking_pool.data.total_supply,
{
    let user = accounts.user_state.data@;
    let start = or_default(start_index, 0);
    let batch = or_default(max_iterations, DEFAULT_BATCH);
    lemma_total_of_change(balances, i, 0);
    if let Ok(now) = clock {
        if amount > 0 && user.balance >= amount && start < user.stakes.len() {
            let end = batch_end(start, batch, user.stakes.len());
            lemma_released_grows(user.stakes, start as int, end, end, now, amount);
        }
    }
}

// ---------------------------------------------------------------------------
// No user holds more stakes than the limit
// ---------------------------------------------------------------------------

/// If each entry of a list is active only where the entry of another list is, the list has no
/// more active entries.
proof fn lemma_fewer_active(few: Seq<StakeInfo>, many: Seq<StakeInfo>)
    requires
        few.len() == many.len(),
        forall|i: int|
            0 <= i < few.len() && is_active(#[trigger] few[i]) ==> is_active(many[i]),
    ensures
        active_count(few) <= active_count(many),
    decreases few.len(),
{
    reveal(Seq::filter);
    if few.len() > 0 {
        let a = few.drop_last();
        let b = many.drop_last();
        assert forall|i: int| 0 <= i < a.len() && is_active(#[trigger] a[i]) implies is_active(
            b[i],
        ) by {
            assert(a[i] == few[i] && b[i] == many[i]);
        }
        lemma_fewer_active(a, b);
        assert(is_active(few[few.len() - 1]) ==> is_active(many[few.len() - 1]));
    }
}

/// The first entry counts for one if it is active.
proof fn lemma_active_of_first(stakes: Seq<StakeInfo>)
    requires
        stakes.len() > 0,
    ensures
        active_count(stakes) == active_count(stakes.drop_first()) + if is_active(stakes[0]) {
            1nat
        } else {
            0nat
        },
    decreases stakes.len(),
{
    reveal(Seq::filter);
    if stakes.len() == 1 {
        assert(stakes.drop_last() =~= Seq::empty());
        assert(stakes.drop_first() =~= Seq::empty());
    } else {
        lemma_active_of_first(stakes.drop_last());
        assert(stakes.drop_last().drop_first() =~= stakes.drop_first().drop_last());
    }
}

/// A list has at most as many active entries as entries.
proof fn lemma_active_at_most_all(stakes: Seq<StakeInfo>)
    ensures
        active_count(stakes) <= stakes.len(),
    decreases stakes.len(),
{
    reveal(Seq::filter);
    if stakes.len() > 0 {
        lemma_active_at_most_all(stakes.drop_last());
    }
}

/// Consolidation leaves at most as many stakes as were active before.
pub proof fn law_consolidation_leaves_no_more_stakes(stakes: Seq<StakeInfo>, window: i64)
    requires
        consolidation_fits(stakes, window),
    ensures
        consolidated(stakes, window).len() <= active_count(stakes),
    decreases stakes.len(),
{
    if stakes.len() > 0 {
        let rest = stakes.drop_first();
        lemma_active_of_first(stakes);
        if !is_active(stakes[0]) {
            law_consolidation_leaves_no_more_stakes(rest, window);
        } else {
            let others = others_after(stakes[0], rest, window);
            law_consolidation_leaves_no_more_stakes(others, window);
            lemma_fewer_active(others, rest);
        }
    }
}

/// A deposit does not take a user over the limit of active stakes.
pub proof fn law_stake_stays_within_limit(
    accounts: Stake,
    amount: u64,
    clock: Result<i64, ProgramError>,
)
    requires
        stake_fits(accounts, amount, clock),
        active_count(accounts.user_state.data@.stakes) <= MAX_ACTIVE_STAKES,
    ensures
        active_count(stake_step(accounts, amount, clock).user.stakes) <= MAX_ACTIVE_STAKES,
{
    let stakes = accounts.user_state.data@.stakes;
    if amount > 0 {
        if active_count(stakes) >= MAX_ACTIVE_STAKES {
            law_similar_stake_is_active(stakes, SIMILAR_STAKE_WINDOW, clock);
            if let Some(i) = similar_stake(stakes, SIMILAR_STAKE_WINDOW, clock) {
                lemma_fewer_active(stake_step(accounts, amount, clock).user.stakes, stakes);
            }
        } else if let Ok(now) = clock {
            reveal(Seq::filter);
            let stake = StakeInfo { amount, timestamp: now };
            assert(stakes.push(stake).drop_last() =~= stakes);
        }
    }
}

/// Taking stakes back never adds an active stake.
pub proof fn law_unstake_adds_no_active_stake(
    accounts: Unstake,
    amount: u64,
    start_index: Option<u64>,
    max_iterations: Option<u64>,
    clock: Result<i64, ProgramError>,
)
    requires
        unstake_fits(accounts, amount, start_index, max_iterations, clock),
    ensures
        active_count(
            unstake_step(accounts, amount, start_index, max_iterations, clock).user.stakes,
        ) <= active_count(accounts.user_state.data@.stakes),
{
    let user = accounts.user_state.data@;
    let start = or_default(start_index, 0);
    if let Ok(now) = clock {
        if amount > 0 && user.balance >= amount && start < user.stakes.len() {
            let end = batch_end(start, or_default(max_iterations, DEFAULT_BATCH), user.stakes.len());
            let after = stakes_after(user.stakes, start as int, end, now, amount);
            assert forall|i: int| 0 <= i < after.len() && is_active(
                #[trigger] after[i],
            ) implies is_active(user.stakes[i]) by {
                if start <= i < end {
                    lemma_released_grows(user.stakes, start as int, i, end, now, amount);
                }
            }
            lemma_fewer_active(after, user.stakes);
        }
    }
}

/// Consolidating never adds an active stake.
pub proof fn law_consolidate_adds_no_active_stake(accounts: ConsolidateStakes, time_window: i64)
    requires
        consolidate_fits(accounts, time_window),
    ensures
        active_count(consolidate_step(accounts, time_window).user.stakes) <= active_count(
            accounts.user_state.data@.stakes,
        ),
{
    if time_window > 0 {
        let before = accounts.user_state.data@.stakes;
        law_consolidation_leaves_no_more_stakes(before, time_window);
        lemma_active_at_most_all(consolidated(before, time_window));
    }
}

} // verus!
