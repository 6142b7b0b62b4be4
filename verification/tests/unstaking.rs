use anchor_lang::prelude::ProgramError;
use staking_rewards::accounts::{Unstake, Withdraw};
use staking_rewards::error::{Rejection, StakingError};
use staking_rewards::event::{
    Action, Event, PartialUnstakeEvent, PendingWithdrawalsEvent, RewardsClaimedEvent,
    TokenTransfer, UnbondingStartedEvent, WithdrawnEvent,
};
use staking_rewards::instructions::unstake::{check_unstake_fits, unstake, unstake_at};
use staking_rewards::instructions::withdraw::{check_withdraw_fits, withdraw, withdraw_at};
use staking_rewards::pubkey::Pubkey;
use staking_rewards::state::{
    Account, StakeInfo, StakingPool, TokenAccount, UnbondingRequest, UserState, LOCK_PERIOD,
    MULTIPLIER, UNBONDING_PERIOD,
};
use staking_rewards::unbonding::{
    check_payout_fits, count_matured, drop_withdrawn, pay_matured, preview_release,
};

const M: u128 = MULTIPLIER as u128;

fn key(n: u8) -> Pubkey {
    Pubkey { bytes: [n; 32] }
}

fn at(amount: u64, timestamp: i64) -> StakeInfo {
    StakeInfo { amount, timestamp }
}

fn request(amount: u64, unbonding_end_time: i64, withdrawn: bool) -> UnbondingRequest {
    UnbondingRequest { amount, unbonding_end_time, withdrawn }
}

fn pool(supply: u64, index: u128) -> StakingPool {
    StakingPool {
        staking_mint: key(1),
        reward_mint: key(2),
        total_supply: supply,
        reward_index: index,
        bump: 254,
        ..StakingPool::default()
    }
}

fn record(stakes: Vec<StakeInfo>, requests: Vec<UnbondingRequest>) -> UserState {
    let balance = stakes.iter().map(|s| s.amount).sum();
    UserState {
        owner: key(9),
        balance,
        stakes,
        unbonding_requests: requests,
        ..UserState::default()
    }
}

fn unstaking(stakes: Vec<StakeInfo>, pool: StakingPool) -> Unstake {
    Unstake {
        staking_pool: Account { key: key(10), data: pool },
        staking_vault: key(3),
        reward_vault: key(4),
        user_state: Account { key: key(11), data: record(stakes, vec![]) },
        user_token_account: Account {
            key: key(12),
            data: TokenAccount { owner: key(9), mint: key(1) },
        },
        user_reward_account: Account {
            key: key(13),
            data: TokenAccount { owner: key(9), mint: key(2) },
        },
        user: key(9),
    }
}

fn withdrawing(requests: Vec<UnbondingRequest>, pool: StakingPool) -> Withdraw {
    Withdraw {
        staking_pool: Account { key: key(10), data: pool },
        staking_vault: key(3),
        reward_vault: key(4),
        user_state: Account { key: key(11), data: record(vec![], requests) },
        user_token_account: Account {
            key: key(12),
            data: TokenAccount { owner: key(9), mint: key(1) },
        },
        user: key(9),
    }
}

fn started(amount: u64, unbonding_end_time: i64) -> Action {
    Action::Emit(Event::UnbondingStarted(UnbondingStartedEvent {
        user: key(9),
        amount,
        unbonding_end_time,
    }))
}

fn from_vault(vault: u8, to: u8, amount: u64) -> Action {
    Action::Transfer(TokenTransfer {
        from: key(vault),
        to: key(to),
        authority: key(10),
        amount,
        pool_bump: Some(254),
    })
}

fn refused(error: StakingError) -> Result<(), Rejection> {
    Err(Rejection::Staking(error))
}

#[test]
fn periods_are_five_and_two_minutes() {
    assert_eq!(LOCK_PERIOD, 5 * 60);
    assert_eq!(UNBONDING_PERIOD, 2 * 60);
}

#[test]
fn unstake_takes_unlocked_stakes_in_order() {
    let mut a = unstaking(vec![at(0, 0), at(5, 0), at(7, 900), at(9, 10)], pool(100, 0));
    assert!(check_unstake_fits(&a, 11, None, None, &Ok(1000)));
    let mut actions = Vec::new();
    assert_eq!(unstake_at(&mut a, 11, None, None, Ok(1000), &mut actions), Ok(()));
    assert_eq!(a.user_state.data.stakes, vec![at(0, 0), at(0, 0), at(7, 900), at(3, 10)]);
    assert_eq!(a.user_state.data.balance, 10);
    assert_eq!(
        a.user_state.data.unbonding_requests,
        vec![request(5, 1120, false), request(6, 1120, false)]
    );
    assert_eq!(a.staking_pool.data.total_supply, 89);
    assert_eq!(a.staking_pool.data.reward_index, 11 * M / 89);
    assert_eq!(actions, vec![started(5, 1120), started(6, 1120)]);
}

#[test]
fn unstake_pays_rewards_first() {
    let mut a = unstaking(vec![at(10, 0)], pool(10, 2 * M));
    let mut actions = Vec::new();
    assert_eq!(unstake_at(&mut a, 10, None, None, Ok(300), &mut actions), Ok(()));
    assert_eq!(
        actions,
        vec![
            from_vault(4, 13, 20),
            Action::Emit(Event::RewardsClaimed(RewardsClaimedEvent { user: key(9), amount: 20 })),
            started(10, 420),
        ]
    );
    assert_eq!(a.user_state.data.earned, 0);
    assert_eq!(a.staking_pool.data.total_supply, 0);
    assert_eq!(a.staking_pool.data.reward_index, 2 * M);
}

#[test]
fn lock_ends_on_the_second() {
    let mut early = unstaking(vec![at(10, 0)], pool(10, 0));
    assert_eq!(
        unstake_at(&mut early, 10, None, None, Ok(299), &mut Vec::new()),
        refused(StakingError::NoUnlockedStakesInBatch)
    );
    assert_eq!(early.user_state.data.stakes, vec![at(10, 0)]);
    let mut due = unstaking(vec![at(10, 0)], pool(10, 0));
    assert_eq!(unstake_at(&mut due, 10, None, None, Ok(300), &mut Vec::new()), Ok(()));
}

#[test]
fn unstake_stops_at_its_batch() {
    let mut a = unstaking(vec![at(5, 0); 4], pool(20, 0));
    let mut actions = Vec::new();
    assert_eq!(unstake_at(&mut a, 20, Some(1), Some(2), Ok(1000), &mut actions), Ok(()));
    assert_eq!(a.user_state.data.stakes, vec![at(5, 0), at(0, 0), at(0, 0), at(5, 0)]);
    assert_eq!(
        actions[2],
        Action::Emit(Event::PartialUnstake(PartialUnstakeEvent {
            user: key(9),
            requested_amount: 20,
            processed_amount: 10,
            remaining_amount: 10,
            next_index: 3,
        }))
    );
    assert_eq!(actions.len(), 3);
}

#[test]
fn unstake_goes_through_twenty_five_stakes_by_default() {
    let mut a = unstaking(vec![at(1, 0); 30], pool(30, 0));
    let mut actions = Vec::new();
    assert_eq!(unstake_at(&mut a, 30, None, None, Ok(1000), &mut actions), Ok(()));
    assert_eq!(a.user_state.data.balance, 5);
    assert_eq!(actions.len(), 26);
}

#[test]
fn no_next_index_is_told_at_the_end_of_the_list() {
    let mut a = unstaking(vec![at(5, 0), at(5, 900)], pool(20, 0));
    let mut actions = Vec::new();
    assert_eq!(unstake_at(&mut a, 10, None, None, Ok(1000), &mut actions), Ok(()));
    assert_eq!(actions, vec![started(5, 1120)]);
}

#[test]
fn unstake_refusals() {
    let a = || unstaking(vec![at(5, 0)], pool(5, 0));
    let run = |amount, start, max| {
        unstake_at(&mut a(), amount, start, max, Ok(1000), &mut Vec::new())
    };
    assert_eq!(run(0, None, None), refused(StakingError::CannotUnstakeZero));
    assert_eq!(run(6, None, None), refused(StakingError::InsufficientBalance));
    assert_eq!(run(5, Some(1), None), refused(StakingError::InvalidStartIndex));
    assert_eq!(run(5, None, Some(0)), refused(StakingError::NoUnlockedStakesInBatch));
    assert_eq!(run(5, Some(u64::MAX), Some(u64::MAX)), refused(StakingError::InvalidStartIndex));
}

#[test]
fn unstake_may_overflow_the_index() {
    let mut a = unstaking(vec![at(5, 0)], pool(6, u128::MAX));
    a.user_state.data.reward_index_of = u128::MAX;
    let mut actions = Vec::new();
    assert_eq!(
        unstake_at(&mut a, 5, None, None, Ok(1000), &mut actions),
        refused(StakingError::ArithmeticOverflow)
    );
}

#[test]
fn unstake_passes_on_the_error_of_the_clock() {
    let mut a = unstaking(vec![at(5, 0)], pool(5, M));
    let mut actions = Vec::new();
    assert_eq!(
        unstake_at(&mut a, 5, None, None, Err(ProgramError::InvalidArgument), &mut actions),
        Err(Rejection::Clock(ProgramError::InvalidArgument))
    );
    assert_eq!(actions.len(), 2);
}

#[test]
fn unstake_reads_the_clock() {
    let mut a = unstaking(vec![at(5, 0)], pool(5, 0));
    let mut actions = Vec::new();
    assert_eq!(
        unstake(&mut a, 5, None, None, &mut actions),
        Some(Err(Rejection::Clock(ProgramError::UnsupportedSysvar)))
    );
    assert_eq!(
        unstake(&mut a, 0, None, None, &mut actions),
        Some(refused(StakingError::CannotUnstakeZero))
    );
    assert_eq!(
        unstake(&mut a, 6, None, None, &mut actions),
        Some(refused(StakingError::InsufficientBalance))
    );
}

#[test]
fn unstake_bounds_are_found() {
    let now = Ok(1000);
    let a = unstaking(vec![at(5, 0)], pool(4, 0));
    assert!(!check_unstake_fits(&a, 5, None, None, &now));
    assert!(check_unstake_fits(&a, 4, None, None, &now));
    let a = unstaking(vec![at(5, 0), at(5, i64::MAX)], pool(10, 0));
    assert!(!check_unstake_fits(&a, 6, None, None, &now));
    assert!(check_unstake_fits(&a, 5, None, None, &now));
    assert!(!check_unstake_fits(&a, 5, None, None, &Ok(i64::MAX)));
    assert!(!check_unstake_fits(&a, 5, Some(1), Some(u64::MAX), &now));
    let mut a = unstaking(vec![at(5, 0)], pool(5, u128::MAX));
    assert!(!check_unstake_fits(&a, 5, None, None, &now));
    let mut actions = Vec::new();
    assert_eq!(unstake(&mut a, 5, None, None, &mut actions), None);
    assert!(actions.is_empty());
}

#[test]
fn release_is_previewed() {
    let stakes = vec![at(5, 0), at(7, 900), at(9, 10)];
    assert_eq!(preview_release(&stakes, 0, 3, 1000, 100), Some(14));
    assert_eq!(preview_release(&stakes, 0, 3, 1000, 6), Some(6));
    assert_eq!(preview_release(&stakes, 1, 2, 1000, 6), Some(0));
    assert_eq!(preview_release(&stakes, 0, 3, i64::MAX, 6), None);
}

#[test]
fn matured_requests_are_counted_and_paid() {
    let mut list = vec![
        request(1, 10, false),
        request(2, 10, true),
        request(4, 11, false),
        request(8, 12, false),
    ];
    assert_eq!(count_matured(&list, 9), 0);
    assert_eq!(count_matured(&list, 11), 2);
    assert!(check_payout_fits(&list, 12, 2));
    assert_eq!(pay_matured(&mut list, 12, 2), (5, 2));
    assert_eq!(count_matured(&list, 12), 1);
    drop_withdrawn(&mut list);
    assert_eq!(list, vec![request(8, 12, false)]);
}

#[test]
fn payout_bounds_are_found() {
    let list = [request(u64::MAX, 0, false), request(1, 0, false)];
    assert!(!check_payout_fits(&list, 0, 2));
    assert!(check_payout_fits(&list, 0, 1));
    let mut a = withdrawing(list.to_vec(), pool(0, 0));
    assert!(!check_withdraw_fits(&a, None, &Ok(0)));
    assert!(check_withdraw_fits(&a, None, &Err(ProgramError::UnsupportedSysvar)));
    let mut actions = Vec::new();
    assert_eq!(
        withdraw(&mut a, None, &mut actions),
        Some(Err(Rejection::Clock(ProgramError::UnsupportedSysvar)))
    );
}

#[test]
fn withdraw_pays_and_drops() {
    let requests =
        vec![request(3, 10, false), request(9, 1, true), request(5, 20, false), request(7, 30, false)];
    let mut a = withdrawing(requests, pool(0, 0));
    a.user_state.data.earned = 6;
    assert!(check_withdraw_fits(&a, None, &Ok(20)));
    let mut actions = Vec::new();
    assert_eq!(withdraw_at(&mut a, None, Ok(20), &mut actions), Ok(()));
    assert_eq!(a.user_state.data.unbonding_requests, vec![request(7, 30, false)]);
    assert_eq!(a.user_state.data.earned, 6);
    assert_eq!(
        actions,
        vec![
            from_vault(3, 12, 8),
            Action::Emit(Event::Withdrawn(WithdrawnEvent { user: key(9), amount: 8 })),
        ]
    );
    assert_eq!(
        withdraw_at(&mut a, None, Ok(29), &mut actions),
        refused(StakingError::NoWithdrawableAmount)
    );
}

#[test]
fn withdraw_at_its_limit_keeps_the_paid_requests() {
    let requests = vec![request(3, 10, false), request(5, 20, false), request(7, 20, false)];
    let mut a = withdrawing(requests, pool(0, 0));
    let mut actions = Vec::new();
    assert_eq!(withdraw_at(&mut a, Some(1), Ok(20), &mut actions), Ok(()));
    assert_eq!(
        a.user_state.data.unbonding_requests,
        vec![request(3, 10, true), request(5, 20, false), request(7, 20, false)]
    );
    assert_eq!(
        actions,
        vec![
            from_vault(3, 12, 3),
            Action::Emit(Event::Withdrawn(WithdrawnEvent { user: key(9), amount: 3 })),
            Action::Emit(Event::PendingWithdrawals(PendingWithdrawalsEvent {
                user: key(9),
                remaining_count: 2,
            })),
        ]
    );
    let mut actions = Vec::new();
    assert_eq!(withdraw_at(&mut a, None, Ok(20), &mut actions), Ok(()));
    assert_eq!(actions[0], from_vault(3, 12, 12));
    assert!(a.user_state.data.unbonding_requests.is_empty());
}

#[test]
fn withdraw_pays_rewards_in_the_same_token() {
    let single = StakingPool { reward_mint: key(1), ..pool(0, 0) };
    let mut a = withdrawing(vec![request(3, 10, false)], single);
    a.user_state.data.earned = 6;
    let mut actions = Vec::new();
    assert_eq!(withdraw_at(&mut a, None, Ok(20), &mut actions), Ok(()));
    assert_eq!(a.user_state.data.earned, 0);
    assert_eq!(
        actions,
        vec![
            from_vault(3, 12, 3),
            from_vault(4, 12, 6),
            Action::Emit(Event::RewardsClaimed(RewardsClaimedEvent { user: key(9), amount: 6 })),
            Action::Emit(Event::Withdrawn(WithdrawnEvent { user: key(9), amount: 3 })),
        ]
    );
}

#[test]
fn withdraw_refusals() {
    let mut a = withdrawing(vec![request(3, 10, false)], pool(0, 0));
    let mut actions = Vec::new();
    assert_eq!(
        withdraw_at(&mut a, None, Ok(9), &mut actions),
        refused(StakingError::NoWithdrawableAmount)
    );
    assert_eq!(
        withdraw_at(&mut a, Some(0), Ok(10), &mut actions),
        refused(StakingError::NoWithdrawableAmount)
    );
    assert_eq!(
        withdraw_at(&mut a, None, Err(ProgramError::InvalidArgument), &mut actions),
        Err(Rejection::Clock(ProgramError::InvalidArgument))
    );
    assert!(actions.is_empty());
}

#[test]
fn unstaked_money_comes_back_after_the_unbonding_period() {
    let mut a = unstaking(vec![at(5, 0), at(6, 0)], pool(11, 0));
    assert_eq!(unstake_at(&mut a, 8, None, None, Ok(1000), &mut Vec::new()), Ok(()));
    let requests = a.user_state.data.unbonding_requests.clone();
    let mut early = withdrawing(requests.clone(), pool(3, 0));
    assert_eq!(
        withdraw_at(&mut early, None, Ok(1119), &mut Vec::new()),
        refused(StakingError::NoWithdrawableAmount)
    );
    let mut due = withdrawing(requests, pool(3, 0));
    let mut actions = Vec::new();
    assert_eq!(withdraw_at(&mut due, None, Ok(1120), &mut actions), Ok(()));
    assert_eq!(actions[0], from_vault(3, 12, 8));
}
