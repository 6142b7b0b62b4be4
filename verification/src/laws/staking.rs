//! What a deposit comes to.
use crate::accounts::Stake;
use crate::error::{Rejection, StakingError};
use crate::event::{Action, Event};
use crate::instructions::stake::{stake_fits, stake_step, staked};
use crate::laws::balances::law_similar_stake_is_active;
use crate::laws::claiming::law_settling_adds_the_share;
use crate::laws::terms::{
    added, extends, gap, held, is_share, joins, lemma_added, lemma_rewards_are_the_share,
    none_near_before, pool_kept, pool_moved, record_kept, record_settled,
};
use crate::laws::time::law_similar_stake_is_near_or_latest;
use crate::pubkey::Pubkey;
use crate::stakes::{
    active_count, as_place, first_near, is_active, lemma_first_near, search_fits, similar_stake,
};
use crate::state::StakeInfo;
use anchor_lang::prelude::ProgramError;
use vstd::prelude::*;

verus! {

/// The accounts that a deposit only names are as before.
pub open spec fn surroundings_kept(before: Stake, after: Stake) -> bool {
    &&& after.staking_pool.key == before.staking_pool.key
    &&& after.user_state.key == before.user_state.key
    &&& after.staking_vault == before.staking_vault
    &&& after.user_token_account == before.user_token_account
    &&& after.user == before.user
}

/// The owner of a record that had none is the user; any other owner stays.
pub open spec fn owner_entered(before: Pubkey, user: Pubkey, after: Pubkey) -> bool {
    if forall|k: int| 0 <= k < 32 ==> #[trigger] before.bytes@[k] == 0 {
        after == user
    } else {
        after == before
    }
}

/// The step brings `amount` tokens from the user's account into the staking vault, on the user's
/// own signature.
pub open spec fn brings_in(step: Action, accounts: Stake, amount: u64) -> bool {
    &&& step matches Action::Transfer(transfer)
    &&& transfer.from == accounts.user_token_account.key
    &&& transfer.to == accounts.staking_vault
    &&& transfer.authority == accounts.user
    &&& transfer.amount == amount
    &&& transfer.pool_bump is None
}

/// The two ways of counting the stakes that hold something agree.
proof fn lemma_held(stakes: Seq<StakeInfo>)
    ensures
        active_count(stakes) == held(stakes),
        held(stakes) <= stakes.len(),
{
    assert((|stake: StakeInfo| is_active(stake)) =~= (|stake: StakeInfo| stake.amount > 0));
    stakes.lemma_filter_len(|stake: StakeInfo| stake.amount > 0);
}

/// The search finds the stake that the deposit joins, and there is only one such.
pub proof fn law_search_finds_the_stake_to_join(stakes: Seq<StakeInfo>, window: i64, now: i64)
    ensures
        match similar_stake(stakes, window, Ok(now)) {
            Some(i) => joins(stakes, window as int, now, i) && forall|k: int| #[trigger]
                joins(stakes, window as int, now, k) ==> k == i,
            None => forall|k: int| 0 <= k < stakes.len() ==> (#[trigger] stakes[k]).amount == 0,
        },
        forall|error: ProgramError| #[trigger] similar_stake(stakes, window, Err(error)) is None,
        forall|i: usize| #[trigger] as_place(Some(i)) == Some(i as int),
        as_place(None) is None,
{
    law_similar_stake_is_near_or_latest(stakes, window, now);
    if let Some(i) = similar_stake(stakes, window, Ok(now)) {
        assert forall|k: int| #[trigger] joins(stakes, window as int, now, k) implies k == i by {
            if k < i {
                assert(stakes[k].amount > 0);
            } else if i < k {
                assert(stakes[i].amount > 0);
            }
        }
    } else {
        assert forall|k: int| 0 <= k < stakes.len() implies (#[trigger] stakes[k]).amount == 0 by {
            assert(!is_active(stakes[k]));
        }
    }
}

/// The search can be done exactly where every distance that it looks at can be held: that to each
/// stake that holds something, up to and with the first that is near. Without a clock it can
/// always be done.
pub proof fn law_search_is_open(
    stakes: Seq<StakeInfo>,
    window: i64,
    clock: Result<i64, ProgramError>,
)
    ensures
        search_fits(stakes, window, clock) <==> (clock matches Ok(now) ==> forall|i: int|
            0 <= i < stakes.len() && (#[trigger] stakes[i]).amount > 0 && none_near_before(
                stakes,
                window as int,
                now,
                i,
            ) ==> gap(now as int, stakes[i].timestamp as int) <= i64::MAX),
{
    if let Ok(now) = clock {
        assert forall|i: int| 0 <= i < stakes.len() implies (first_near(
            #[trigger] stakes.take(i),
            window,
            now,
        ) is None) == none_near_before(stakes, window as int, now, i) by {
            lemma_none_near_before(stakes, window, now, i);
        }
    }
}

/// Which deposits can be done: one of nothing always; one below the limit where the rewards can be
/// settled and the totals can grow; one at the limit where the distances that are looked at, the
/// stake that is joined and the totals stay within their types.
pub proof fn law_deposit_is_open(
    accounts: Stake,
    amount: u64,
    clock: Result<i64, ProgramError>,
    reward: int,
)
    requires
        is_share(
            reward,
            accounts.user_state.data.balance as int,
            accounts.staking_pool.data.reward_index as int,
            accounts.user_state.data.reward_index_of as int,
        ),
    ensures
        ({
            let user = accounts.user_state.data;
            let pool = accounts.staking_pool.data;
            let stakes = user.stakes@;
            let totals = user.balance + amount <= u64::MAX && pool.total_supply + amount
                <= u64::MAX;
            stake_fits(accounts, amount, clock) <==> {
                ||| amount == 0
                ||| held(stakes) >= 50 && (clock matches Ok(now) ==> {
                    &&& forall|i: int|
                        0 <= i < stakes.len() && (#[trigger] stakes[i]).amount > 0
                            && none_near_before(stakes, 86_400, now, i) ==> gap(
                            now as int,
                            stakes[i].timestamp as int,
                        ) <= i64::MAX
                    &&& forall|i: int| #[trigger]
                        joins(stakes, 86_400, now, i) ==> stakes[i].amount + amount <= u64::MAX
                            && totals
                })
                ||| held(stakes) < 50 && {
                    &&& pool.reward_index <= user.reward_index_of || user.balance * (
                    pool.reward_index - user.reward_index_of) <= u128::MAX
                    &&& user.earned + reward <= u64::MAX
                    &&& clock is Ok ==> totals
                }
            }
        }),
{
    let user = accounts.user_state.data;
    let stakes = user.stakes@;
    lemma_held(stakes);
    law_settling_adds_the_share(user@, accounts.staking_pool.data.reward_index, reward);
    law_search_is_open(stakes, 86_400, clock);
    if let Ok(now) = clock {
        law_search_finds_the_stake_to_join(stakes, 86_400, now);
        law_similar_stake_is_active(stakes, 86_400, clock);
    }
}

/// The search finds nothing in front of a place exactly where no stake there is near.
proof fn lemma_none_near_before(stakes: Seq<StakeInfo>, window: i64, now: i64, i: int)
    requires
        0 <= i <= stakes.len(),
    ensures
        (first_near(stakes.take(i), window, now) is None) == none_near_before(
            stakes,
            window as int,
            now,
            i,
        ),
{
    let front = stakes.take(i);
    lemma_first_near(front, window, now);
    if first_near(front, window, now) is None {
        assert forall|j: int| 0 <= j < i && (#[trigger] stakes[j]).amount > 0 implies gap(
            now as int,
            stakes[j].timestamp as int,
        ) > window by {
            assert(is_active(front[j]));
        }
    } else {
        let j = first_near(front, window, now).unwrap();
        assert(stakes[j] == front[j]);
    }
}

/// A deposit of nothing is refused, and nothing changes.
pub proof fn law_deposit_of_nothing_is_refused(
    before: Stake,
    amount: u64,
    clock: Result<i64, ProgramError>,
    actions: Seq<Action>,
    after: Stake,
    actions_after: Seq<Action>,
    result: Result<(), Rejection>,
)
    requires
        staked(before, amount, clock, actions, after, actions_after, result),
    ensures
        amount == 0 <==> result == Err::<(), Rejection>(
            Rejection::Staking(StakingError::CannotStakeZero),
        ),
        amount == 0 ==> {
            &&& actions_after == actions
            &&& record_kept(before.user_state.data, after.user_state.data)
            &&& pool_kept(before.staking_pool.data, after.staking_pool.data)
            &&& surroundings_kept(before, after)
        },
{
    assert(actions + Seq::<Action>::empty() =~= actions);
}

/// A deposit below the limit first adds to what was earned the share since the last settlement.
/// Where the clock answers it succeeds: balance and supply grow by the amount, and the amount
/// stands as a new stake of that moment behind all earlier ones, which stay as they are. One
/// transfer brings the amount in, one log entry tells of it, and from 37 stakes on another warns
/// of the limit. Where the clock does not answer, its error is the answer and no step is listed.
pub proof fn law_deposit_below_the_limit(
    before: Stake,
    amount: u64,
    clock: Result<i64, ProgramError>,
    actions: Seq<Action>,
    after: Stake,
    actions_after: Seq<Action>,
    result: Result<(), Rejection>,
)
    requires
        amount > 0,
        held(before.user_state.data.stakes@) < 50,
        stake_fits(before, amount, clock),
        staked(before, amount, clock, actions, after, actions_after, result),
    ensures
        extends(actions, actions_after),
        surroundings_kept(before, after),
        owner_entered(before.user_state.data.owner, before.user, after.user_state.data.owner),
        record_settled(
            before.user_state.data,
            after.user_state.data,
            before.staking_pool.data.reward_index,
        ),
        after.user_state.data.unbonding_requests@ == before.user_state.data.unbonding_requests@,
        match clock {
            Ok(now) => {
                let steps = added(actions, actions_after);
                let count = held(before.user_state.data.stakes@);
                &&& result is Ok
                &&& after.user_state.data.balance == before.user_state.data.balance + amount
                &&& after.user_state.data.stakes@.len() == before.user_state.data.stakes@.len() + 1
                &&& after.user_state.data.stakes@.drop_last() == before.user_state.data.stakes@
                &&& after.user_state.data.stakes@.last().amount == amount
                &&& after.user_state.data.stakes@.last().timestamp == now
                &&& pool_moved(
                    before.staking_pool.data,
                    after.staking_pool.data,
                    before.staking_pool.data.total_supply + amount,
                    before.staking_pool.data.reward_index as int,
                )
                &&& steps.len() == if count >= 37 {
                    3int
                } else {
                    2
                }
                &&& brings_in(steps[0], before, amount)
                &&& steps[1] matches Action::Emit(Event::Staked(entry))
                &&& entry.user == before.user
                &&& entry.amount == amount
                &&& entry.timestamp == now
                &&& count >= 37 ==> (steps[2] matches Action::Emit(
                    Event::ApproachingStakeLimit(warning),
                ) && warning.user == before.user && warning.current_stakes == count + 1
                    && warning.max_stakes == 50)
            },
            Err(error) => {
                &&& result == Err::<(), Rejection>(Rejection::Clock(error))
                &&& after.user_state.data.balance == before.user_state.data.balance
                &&& after.user_state.data.stakes@ == before.user_state.data.stakes@
                &&& pool_kept(before.staking_pool.data, after.staking_pool.data)
                &&& actions_after == actions
            },
        },
{
    let user = before.user_state.data@;
    lemma_held(user.stakes);
    lemma_added(actions, stake_step(before, amount, clock).actions);
    assert(actions + Seq::<Action>::empty() =~= actions);
    lemma_rewards_are_the_share(
        user.balance,
        before.staking_pool.data.reward_index,
        user.reward_index_of,
    );
    if let Ok(now) = clock {
        assert(user.stakes.push(StakeInfo { amount, timestamp: now }).drop_last() =~= user.stakes);
    }
}

/// A deposit at the limit leaves what was earned and the noted index as they are. Where the clock
/// answers it succeeds: one stake, the one that it joins, grows by the amount and keeps its
/// moment, and balance and supply grow by the amount. One transfer brings the amount in, and one
/// log entry tells of it. Where the clock does not answer, the deposit is refused and the log
/// tells of the limit.
pub proof fn law_deposit_at_the_limit(
    before: Stake,
    amount: u64,
    clock: Result<i64, ProgramError>,
    actions: Seq<Action>,
    after: Stake,
    actions_after: Seq<Action>,
    result: Result<(), Rejection>,
)
    requires
        amount > 0,
        held(before.user_state.data.stakes@) >= 50,
        stake_fits(before, amount, clock),
        staked(before, amount, clock, actions, after, actions_after, result),
    ensures
        extends(actions, actions_after),
        surroundings_kept(before, after),
        owner_entered(before.user_state.data.owner, before.user, after.user_state.data.owner),
        after.user_state.data.earned == before.user_state.data.earned,
        after.user_state.data.reward_index_of == before.user_state.data.reward_index_of,
        after.user_state.data.unbonding_requests@ == before.user_state.data.unbonding_requests@,
        ({
            let steps = added(actions, actions_after);
            let stakes = before.user_state.data.stakes@;
            let stakes_after = after.user_state.data.stakes@;
            match clock {
                Ok(now) => {
                    &&& result is Ok
                    &&& after.user_state.data.balance == before.user_state.data.balance + amount
                    &&& pool_moved(
                        before.staking_pool.data,
                        after.staking_pool.data,
                        before.staking_pool.data.total_supply + amount,
                        before.staking_pool.data.reward_index as int,
                    )
                    &&& stakes_after.len() == stakes.len()
                    &&& forall|i: int|
                        0 <= i < stakes.len() ==> {
                            &&& (#[trigger] stakes_after[i]).timestamp == stakes[i].timestamp
                            &&& stakes_after[i].amount == stakes[i].amount + if joins(
                                stakes,
                                86_400,
                                now,
                                i,
                            ) {
                                amount as int
                            } else {
                                0
                            }
                        }
                    &&& steps.len() == 2
                    &&& brings_in(steps[0], before, amount)
                    &&& steps[1] matches Action::Emit(Event::StakeConsolidated(entry))
                    &&& entry.user == before.user
                    &&& entry.amount == amount
                    &&& joins(stakes, 86_400, now, entry.existing_stake_index as int)
                    &&& entry.total_stakes == held(stakes)
                },
                Err(_) => {
                    &&& result == Err::<(), Rejection>(
                        Rejection::Staking(StakingError::TooManyActiveStakes),
                    )
                    &&& after.user_state.data.balance == before.user_state.data.balance
                    &&& stakes_after == stakes
                    &&& pool_kept(before.staking_pool.data, after.staking_pool.data)
                    &&& steps.len() == 1
                    &&& steps[0] matches Action::Emit(Event::StakeLimitReached(entry))
                    &&& entry.user == before.user
                    &&& entry.current_stakes == held(stakes)
                    &&& entry.max_stakes == 50
                },
            }
        }),
{
    let stakes = before.user_state.data.stakes@;
    assert(stakes.len() == before.user_state.data.stakes.len());
    lemma_held(stakes);
    lemma_added(actions, stake_step(before, amount, clock).actions);
    law_similar_stake_is_active(stakes, 86_400, clock);
    if let Ok(now) = clock {
        law_search_finds_the_stake_to_join(stakes, 86_400, now);
    }
}

/// No deposit, refused or not, lowers what a user has earned, and none but a settlement raises it.
pub proof fn law_deposit_never_lowers_earnings(
    before: Stake,
    amount: u64,
    clock: Result<i64, ProgramError>,
    actions: Seq<Action>,
    after: Stake,
    actions_after: Seq<Action>,
    result: Result<(), Rejection>,
)
    requires
        stake_fits(before, amount, clock),
        staked(before, amount, clock, actions, after, actions_after, result),
    ensures
        after.user_state.data.earned >= before.user_state.data.earned,
        after.user_state.data.earned > before.user_state.data.earned
            ==> after.user_state.data.reward_index_of == before.staking_pool.data.reward_index
            && before.user_state.data.reward_index_of < before.staking_pool.data.reward_index,
{
    let user = before.user_state.data@;
    lemma_rewards_are_the_share(
        user.balance,
        before.staking_pool.data.reward_index,
        user.reward_index_of,
    );
}

} // verus!
