//! Deposits.
use crate::accounts::Stake;
use crate::clock::unix_timestamp;
use crate::error::{Rejection, StakingError};
use crate::event::{
    Action, ApproachingStakeLimitEvent, Event, StakeConsolidatedEvent, StakeLimitReachedEvent,
    StakedEvent, TokenTransfer,
};
use crate::instructions::{refusal, Step};
use crate::pubkey::{lemma_default_is_unique, Pubkey};
use crate::rewards::{check_settlement_fits, settled, settlement_fits, update_rewards};
use crate::stakes::{
    active_count, check_search_fits, count_active, find_similar_stake, search_fits, similar_stake,
};
use crate::state::{StakeInfo, StakingPool, UserView, MAX_ACTIVE_STAKES, SIMILAR_STAKE_WINDOW};
use anchor_lang::prelude::ProgramError;
use vstd::prelude::*;

verus! {

/// The record, with `user` entered as its owner where it had none.
pub open spec fn with_owner(record: UserView, user: Pubkey) -> UserView {
    if record.owner.is_default() {
        UserView { owner: user, ..record }
    } else {
        record
    }
}

/// The transfer that brings a deposit into the vault.
pub open spec fn deposit(accounts: Stake, amount: u64) -> Action {
    Action::Transfer(
        TokenTransfer {
            from: accounts.user_token_account.key,
            to: accounts.staking_vault,
            authority: accounts.user,
            amount,
            pool_bump: None,
        },
    )
}

/// The pool with `amount` more staked tokens.
pub open spec fn with_deposit(pool: StakingPool, amount: u64) -> StakingPool {
    StakingPool { total_supply: (pool.total_supply + amount) as u64, ..pool }
}

/// The user's record after the stake at `i` grew by `amount`.
pub open spec fn joined_record(user: UserView, i: int, amount: u64) -> UserView {
    UserView {
        balance: (user.balance + amount) as u64,
        stakes: user.stakes.update(
            i,
            StakeInfo {
                amount: (user.stakes[i].amount + amount) as u64,
                timestamp: user.stakes[i].timestamp,
            },
        ),
        ..user
    }
}

/// The steps for a deposit that joins the stake at `i`.
pub open spec fn joined_actions(accounts: Stake, i: int, amount: u64, active: nat) -> Seq<Action> {
    seq![
        deposit(accounts, amount),
        Action::Emit(
            Event::StakeConsolidated(
                StakeConsolidatedEvent {
                    user: accounts.user,
                    amount,
                    existing_stake_index: i as u64,
                    total_stakes: active as u64,
                },
            ),
        ),
    ]
}

/// The user's record with one more stake.
pub open spec fn opened_record(user: UserView, amount: u64, now: i64) -> UserView {
    UserView {
        balance: (user.balance + amount) as u64,
        stakes: user.stakes.push(StakeInfo { amount, timestamp: now }),
        ..user
    }
}

/// The steps for a deposit that becomes a stake of its own.
pub open spec fn opened_actions(accounts: Stake, amount: u64, now: i64, active: nat) -> Seq<
    Action,
> {
    seq![
        deposit(accounts, amount),
        Action::Emit(
            Event::Staked(StakedEvent { user: accounts.user, amount, timestamp: now }),
        ),
    ] + limit_warning(accounts.user, active)
}

/// A deposit of a user at the limit of stakes: it joins the similar stake, or is refused where
/// there is none.
pub open spec fn joining_step(
    accounts: Stake,
    amount: u64,
    clock: Result<i64, ProgramError>,
) -> Step {
    let pool = accounts.staking_pool.data;
    let user = with_owner(accounts.user_state.data@, accounts.user);
    let active = active_count(user.stakes);
    match similar_stake(user.stakes, SIMILAR_STAKE_WINDOW, clock) {
        Some(i) => Step {
            pool: with_deposit(pool, amount),
            user: joined_record(user, i, amount),
            actions: joined_actions(accounts, i, amount, active),
            result: Ok(()),
        },
        None => Step {
            pool,
            user,
            actions: seq![
                Action::Emit(
                    Event::StakeLimitReached(
                        StakeLimitReachedEvent {
                            user: accounts.user,
                            current_stakes: active as u64,
                            max_stakes: MAX_ACTIVE_STAKES as u64,
                        },
                    ),
                ),
            ],
            result: refusal(StakingError::TooManyActiveStakes),
        },
    }
}

/// The warning that goes with a deposit at three quarters of the limit or more.
pub open spec fn limit_warning(user: Pubkey, active: nat) -> Seq<Action> {
    if active >= MAX_ACTIVE_STAKES * 3 / 4 {
        seq![
            Action::Emit(
                Event::ApproachingStakeLimit(
                    ApproachingStakeLimitEvent {
                        user,
                        current_stakes: (active + 1) as u64,
                        max_stakes: MAX_ACTIVE_STAKES as u64,
                    },
                ),
            ),
        ]
    } else {
        Seq::empty()
    }
}

/// A deposit of a user below the limit: earlier earnings are credited, and the deposit becomes a
/// stake of its own.
pub open spec fn opening_step(
    accounts: Stake,
    amount: u64,
    clock: Result<i64, ProgramError>,
) -> Step {
    let pool = accounts.staking_pool.data;
    let user = settled(
        with_owner(accounts.user_state.data@, accounts.user),
        pool.reward_index,
    );
    match clock {
        Err(error) => Step {
            pool,
            user,
            actions: Seq::empty(),
            result: Err(Rejection::Clock(error)),
        },
        Ok(now) => Step {
            pool: with_deposit(pool, amount),
            user: opened_record(user, amount, now),
            actions: opened_actions(accounts, amount, now, active_count(user.stakes)),
            result: Ok(()),
        },
    }
}

/// What a deposit of `amount` leads to.
pub open spec fn stake_step(
    accounts: Stake,
    amount: u64,
    clock: Result<i64, ProgramError>,
) -> Step {
    let record = accounts.user_state.data@;
    if amount == 0 {
        Step {
            pool: accounts.staking_pool.data,
            user: record,
            actions: Seq::empty(),
            result: refusal(StakingError::CannotStakeZero),
        }
    } else if active_count(record.stakes) >= MAX_ACTIVE_STAKES {
        joining_step(accounts, amount, clock)
    } else {
        opening_step(accounts, amount, clock)
    }
}

/// Whether the totals can take `amount` more.
pub open spec fn deposit_fits(pool: StakingPool, user: UserView, amount: u64) -> bool {
    &&& user.balance + amount <= u64::MAX
    &&& pool.total_supply + amount <= u64::MAX
}

/// Whether no number exceeds its type in a deposit of `amount`.
pub open spec fn stake_fits(accounts: Stake, amount: u64, clock: Result<i64, ProgramError>) -> bool {
    let pool = accounts.staking_pool.data;
    let user = accounts.user_state.data@;
    amount > 0 ==> if active_count(user.stakes) >= MAX_ACTIVE_STAKES {
        &&& search_fits(user.stakes, SIMILAR_STAKE_WINDOW, clock)
        &&& similar_stake(user.stakes, SIMILAR_STAKE_WINDOW, clock) matches Some(i) ==> {
            &&& user.stakes[i].amount + amount <= u64::MAX
            &&& deposit_fits(pool, user, amount)
        }
    } else {
        &&& settlement_fits(user, pool.reward_index)
        &&& clock is Ok ==> deposit_fits(pool, user, amount)
    }
}

/// Tells whether `stake_at` can be called.
pub fn check_stake_fits(accounts: &Stake, amount: u64, clock: &Result<i64, ProgramError>) -> (fits:
    bool)
    ensures
        fits == stake_fits(*accounts, amount, *clock),
{
    if amount == 0 {
        return true;
    }
    let user = &accounts.user_state.data;
    let pool = &accounts.staking_pool.data;
    let totals_fit: bool = user.balance.checked_add(amount).is_some()
        && pool.total_supply.checked_add(amount).is_some();
    if count_active(user.stakes.as_slice()) >= MAX_ACTIVE_STAKES {
        if !check_search_fits(user.stakes.as_slice(), SIMILAR_STAKE_WINDOW, clock) {
            return false;
        }
        match find_similar_stake(user.stakes.as_slice(), SIMILAR_STAKE_WINDOW, clock) {
            None => true,
            Some(i) => totals_fit && user.stakes[i].amount.checked_add(amount).is_some(),
        }
    } else {
        check_settlement_fits(user, pool.reward_index) && (clock.is_err() || totals_fit)
    }
}

/// Enters the user as the owner of a record that has none.
fn enter_owner(accounts: &mut Stake)
    ensures
        old(accounts).becomes(
            *final(accounts),
            old(accounts).staking_pool.data,
            with_owner(old(accounts).user_state.data@, old(accounts).user),
        ),
{
    let nobody: Pubkey = Pubkey::default();
    proof {
        if accounts.user_state.data.owner.is_default() {
            lemma_default_is_unique(accounts.user_state.data.owner, nobody);
        }
    }
    if accounts.user_state.data.owner.same(&nobody) {
        accounts.user_state.data.owner = accounts.user;
    }
}

/// Adds a deposit to the stake at `index`.
fn join_stake(
    accounts: &mut Stake,
    index: usize,
    amount: u64,
    active: usize,
    actions: &mut Vec<Action>,
)
    requires
        index < old(accounts).user_state.data@.stakes.len(),
        old(accounts).user_state.data@.stakes[index as int].amount + amount <= u64::MAX,
        deposit_fits(old(accounts).staking_pool.data, old(accounts).user_state.data@, amount),
    ensures
        old(accounts).becomes(
            *final(accounts),
            with_deposit(old(accounts).staking_pool.data, amount),
            joined_record(old(accounts).user_state.data@, index as int, amount),
        ),
        final(actions)@ == old(actions)@ + joined_actions(
            *old(accounts),
            index as int,
            amount,
            active as nat,
        ),
{
    let stakes = &mut accounts.user_state.data.stakes;
    stakes[index].amount = stakes[index].amount + amount;
    accounts.user_state.data.balance = accounts.user_state.data.balance + amount;
    accounts.staking_pool.data.total_supply = accounts.staking_pool.data.total_supply + amount;
    actions.push(
        Action::Transfer(
            TokenTransfer {
                from: accounts.user_token_account.key,
                to: accounts.staking_vault,
                authority: accounts.user,
                amount,
                pool_bump: None,
            },
        ),
    );
    actions.push(
        Action::Emit(
            Event::StakeConsolidated(
                StakeConsolidatedEvent {
                    user: accounts.user,
                    amount,
                    existing_stake_index: index as u64,
                    total_stakes: active as u64,
                },
            ),
        ),
    );
    assert(actions@ =~= old(actions)@ + joined_actions(
        *old(accounts),
        index as int,
        amount,
        active as nat,
    ));
}

/// Adds a deposit made at the moment `now` as a stake of its own.
fn open_stake(
    accounts: &mut Stake,
    amount: u64,
    now: i64,
    active: usize,
    actions: &mut Vec<Action>,
)
    requires
        active < MAX_ACTIVE_STAKES,
        deposit_fits(old(accounts).staking_pool.data, old(accounts).user_state.data@, amount),
    ensures
        old(accounts).becomes(
            *final(accounts),
            with_deposit(old(accounts).staking_pool.data, amount),
            opened_record(old(accounts).user_state.data@, amount, now),
        ),
        final(actions)@ == old(actions)@ + opened_actions(
            *old(accounts),
            amount,
            now,
            active as nat,
        ),
{
    accounts.user_state.data.stakes.push(StakeInfo { amount, timestamp: now });
    accounts.user_state.data.balance = accounts.user_state.data.balance + amount;
    accounts.staking_pool.data.total_supply = accounts.staking_pool.data.total_supply + amount;
    actions.push(
        Action::Transfer(
            TokenTransfer {
                from: accounts.user_token_account.key,
                to: accounts.staking_vault,
                authority: accounts.user,
                amount,
                pool_bump: None,
            },
        ),
    );
    actions.push(
        Action::Emit(Event::Staked(StakedEvent { user: accounts.user, amount, timestamp: now })),
    );
    if active >= MAX_ACTIVE_STAKES * 3 / 4 {
        actions.push(
            Action::Emit(
                Event::ApproachingStakeLimit(
                    ApproachingStakeLimitEvent {
                        user: accounts.user,
                        current_stakes: active as u64 + 1,
                        max_stakes: MAX_ACTIVE_STAKES as u64,
                    },
                ),
            ),
        );
    }
    assert(actions@ =~= old(actions)@ + opened_actions(
        *old(accounts),
        amount,
        now,
        active as nat,
    ));
}

/// Whether a run of `stake_at` on `accounts` and `actions` ended as `stake_step` says.
pub open spec fn staked(
    accounts: Stake,
    amount: u64,
    clock: Result<i64, ProgramError>,
    actions: Seq<Action>,
    accounts_after: Stake,
    actions_after: Seq<Action>,
    result: Result<(), Rejection>,
) -> bool {
    let step = stake_step(accounts, amount, clock);
    &&& result == step.result
    &&& accounts.becomes(accounts_after, step.pool, step.user)
    &&& actions_after == actions + step.actions
}

/// Deposits `amount` tokens of the user into the pool, `clock` being what the runtime's clock
/// answered.
pub fn stake_at(
    accounts: &mut Stake,
    amount: u64,
    clock: Result<i64, ProgramError>,
    actions: &mut Vec<Action>,
) -> (result: Result<(), Rejection>)
    requires
        stake_fits(*old(accounts), amount, clock),
    ensures
        staked(
            *old(accounts),
            amount,
            clock,
            old(actions)@,
            *final(accounts),
            final(actions)@,
            result,
        ),
{
    if amount == 0 {
        assert(actions@ =~= old(actions)@ + Seq::<Action>::empty());
        return Err(Rejection::Staking(StakingError::CannotStakeZero));
    }
    enter_owner(accounts);
    let active: usize = count_active(accounts.user_state.data.stakes.as_slice());
    if active >= MAX_ACTIVE_STAKES {
        match find_similar_stake(
            accounts.user_state.data.stakes.as_slice(),
            SIMILAR_STAKE_WINDOW,
            &clock,
        ) {
            Some(index) => {
                join_stake(accounts, index, amount, active, actions);
                Ok(())
            },
            None => {
                actions.push(
                    Action::Emit(
                        Event::StakeLimitReached(
                            StakeLimitReachedEvent {
                                user: accounts.user,
                                current_stakes: active as u64,
                                max_stakes: MAX_ACTIVE_STAKES as u64,
                            },
                        ),
                    ),
                );
                assert(actions@ =~= old(actions)@ + stake_step(
                    *old(accounts),
                    amount,
                    clock,
                ).actions);
                Err(Rejection::Staking(StakingError::TooManyActiveStakes))
            },
        }
    } else {
        let index: u128 = accounts.staking_pool.data.reward_index;
        update_rewards(&mut accounts.user_state.data, index);
        match clock {
            Err(error) => {
                assert(actions@ =~= old(actions)@ + Seq::<Action>::empty());
                Err(Rejection::Clock(error))
            },
            Ok(now) => {
                open_stake(accounts, amount, now, active, actions);
                Ok(())
            },
        }
    }
}

/// Reads the clock and deposits `amount` tokens of the user into the pool. The answer is `None`,
/// with nothing done, where a number would exceed its type.
///
/// Which moment the clock gives is left open; `stake_at` says what follows for each.
pub fn stake(accounts: &mut Stake, amount: u64, actions: &mut Vec<Action>) -> (answer: Option<
    Result<(), Rejection>,
>)
    ensures
        exists|clock: Result<i64, ProgramError>|
            match answer {
                Some(result) => #[trigger] stake_fits(*old(accounts), amount, clock) && staked(
                    *old(accounts),
                    amount,
                    clock,
                    old(actions)@,
                    *final(accounts),
                    final(actions)@,
                    result,
                ),
                None => !stake_fits(*old(accounts), amount, clock) && *final(accounts) == *old(
                    accounts,
                ) && final(actions)@ == old(actions)@,
            },
        amount == 0 ==> answer == Some(refusal(StakingError::CannotStakeZero)),
{
    let clock: Result<i64, ProgramError> = unix_timestamp();
    let ghost answered = clock;
    if !check_stake_fits(accounts, amount, &clock) {
        assert(!stake_fits(*old(accounts), amount, answered));
        return None;
    }
    assert(stake_fits(*old(accounts), amount, answered));
    Some(stake_at(accounts, amount, clock, actions))
}

} // verus!
