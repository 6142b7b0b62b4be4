use anchor_lang::prelude::ProgramError;
use staking_rewards::accounts::{ConsolidateStakes, Stake};
use staking_rewards::consolidation::{check_consolidation_fits, merge_stakes};
use staking_rewards::error::{Rejection, StakingError};
use staking_rewards::event::{
    Action, ApproachingStakeLimitEvent, Event, StakeConsolidatedEvent, StakeLimitReachedEvent,
    StakedEvent, StakesConsolidatedEvent, TokenTransfer,
};
use staking_rewards::instructions::stake::{check_stake_fits, stake, stake_at};
use staking_rewards::instructions::user::{check_consolidate_fits, consolidate_stakes};
use staking_rewards::pubkey::Pubkey;
use staking_rewards::stakes::{check_search_fits, count_active, find_similar_stake};
use staking_rewards::state::{
    Account, StakeInfo, StakingPool, TokenAccount, UserState, MULTIPLIER,
};

const M: u128 = MULTIPLIER as u128;
const DAY: i64 = 24 * 60 * 60;

fn key(n: u8) -> Pubkey {
    Pubkey { bytes: [n; 32] }
}

fn at(amount: u64, timestamp: i64) -> StakeInfo {
    StakeInfo { amount, timestamp }
}

fn pool(supply: u64, index: u128) -> StakingPool {
    StakingPool { total_supply: supply, reward_index: index, bump: 254, ..StakingPool::default() }
}

fn record(stakes: Vec<StakeInfo>) -> UserState {
    let balance = stakes.iter().map(|s| s.amount).sum();
    UserState { owner: key(9), balance, stakes, ..UserState::default() }
}

fn accounts(user_state: UserState, pool: StakingPool) -> Stake {
    Stake {
        staking_pool: Account { key: key(10), data: pool },
        staking_vault: key(3),
        user_state: Account { key: key(11), data: user_state },
        user_token_account: Account {
            key: key(12),
            data: TokenAccount { owner: key(9), mint: key(1) },
        },
        user: key(9),
    }
}

fn deposit(amount: u64) -> Action {
    Action::Transfer(TokenTransfer {
        from: key(12),
        to: key(3),
        authority: key(9),
        amount,
        pool_bump: None,
    })
}

fn consolidation(stakes: Vec<StakeInfo>, index: u128) -> ConsolidateStakes {
    ConsolidateStakes {
        staking_pool: Account { key: key(10), data: pool(100, index) },
        user_state: Account { key: key(11), data: record(stakes) },
        user: key(9),
    }
}

fn merged(stakes: &[StakeInfo], window: i64) -> Vec<StakeInfo> {
    let mut list = stakes.to_vec();
    assert!(check_consolidation_fits(&list, window));
    merge_stakes(&mut list, window);
    list
}

#[test]
fn active_stakes_are_counted() {
    assert_eq!(count_active(&[]), 0);
    assert_eq!(count_active(&[at(1, 0), at(0, 0), at(3, 0)]), 2);
}

#[test]
fn first_near_stake_is_found() {
    let stakes = [at(0, 1000), at(5, 10), at(5, 995), at(5, 1000)];
    assert!(check_search_fits(&stakes, 10, &Ok(1000)));
    assert_eq!(find_similar_stake(&stakes, 10, &Ok(1000)), Some(2));
    assert_eq!(find_similar_stake(&stakes, 5, &Ok(990)), Some(2));
    assert_eq!(find_similar_stake(&stakes, 4, &Ok(990)), Some(3));
}

#[test]
fn latest_stake_is_found_where_none_is_near() {
    let stakes = [at(5, 100), at(5, 300), at(5, 300), at(0, 900), at(5, 200)];
    assert_eq!(find_similar_stake(&stakes, 10, &Ok(5000)), Some(2));
}

#[test]
fn no_stake_is_found_without_active_stakes_or_clock() {
    assert_eq!(find_similar_stake(&[at(0, 5)], 10, &Ok(5)), None);
    assert_eq!(find_similar_stake(&[], 10, &Ok(5)), None);
    let lost = Err(ProgramError::UnsupportedSysvar);
    assert_eq!(find_similar_stake(&[at(5, 5)], 10, &lost), None);
}

#[test]
fn far_moments_do_not_fit() {
    assert!(!check_search_fits(&[at(5, -1)], 10, &Ok(i64::MAX)));
    assert!(!check_search_fits(&[at(5, 0)], 10, &Ok(i64::MIN)));
    assert!(check_search_fits(&[at(0, -1)], 10, &Ok(i64::MAX)));
    assert!(check_search_fits(&[at(5, i64::MAX), at(5, -1)], 10, &Ok(i64::MAX)));
}

#[test]
fn near_stakes_are_joined_at_the_earlier_moment() {
    assert_eq!(merged(&[at(5, 100), at(7, 90), at(9, 1000)], 10), vec![at(12, 90), at(9, 1000)]);
    assert_eq!(merged(&[at(5, 100), at(7, 111)], 10), vec![at(5, 100), at(7, 111)]);
    assert_eq!(merged(&[at(5, 100), at(7, 110)], 10), vec![at(12, 100)]);
}

#[test]
fn joining_goes_on_from_the_earlier_moment() {
    assert_eq!(merged(&[at(1, 100), at(1, 95), at(1, 87)], 10), vec![at(3, 87)]);
    assert_eq!(merged(&[at(1, 100), at(1, 80), at(1, 90)], 10), vec![at(2, 90), at(1, 80)]);
}

#[test]
fn stake_that_was_taken_in_lends_its_moment() {
    assert_eq!(
        merged(&[at(1, 100), at(1, 160), at(1, 130)], 50),
        vec![at(2, 100), at(1, 130)]
    );
}

#[test]
fn empty_stakes_are_dropped() {
    assert_eq!(merged(&[at(0, 100), at(4, 5000), at(0, 9000)], 10), vec![at(4, 5000)]);
    assert_eq!(merged(&[], 10), vec![]);
}

#[test]
fn distant_stakes_are_kept() {
    let stakes = [at(4, 0), at(5, 100), at(6, 200)];
    assert_eq!(merged(&stakes, 99), stakes.to_vec());
}

#[test]
fn consolidation_keeps_the_total() {
    let stakes = [at(4, 0), at(5, 3), at(6, 200), at(7, 8), at(8, 203)];
    let total: u64 = stakes.iter().map(|s| s.amount).sum();
    assert_eq!(merged(&stakes, 7).iter().map(|s| s.amount).sum::<u64>(), total);
}

#[test]
fn consolidation_bounds_are_found() {
    assert!(!check_consolidation_fits(&vec![at(u64::MAX, 0), at(1, 0)], 1));
    assert!(check_consolidation_fits(&vec![at(u64::MAX, 0), at(1, 5)], 1));
    assert!(!check_consolidation_fits(&vec![at(1, i64::MAX), at(1, -1)], 1));
    assert!(!check_consolidation_fits(&vec![at(1, i64::MIN), at(0, 0)], 1));
}

#[test]
fn consolidating_settles_and_reports() {
    let mut a = consolidation(vec![at(5, 100), at(7, 90), at(0, 5)], M);
    assert!(check_consolidate_fits(&a, 10));
    let mut actions = Vec::new();
    assert_eq!(consolidate_stakes(&mut a, 10, &mut actions), Ok(()));
    assert_eq!(a.user_state.data.stakes, vec![at(12, 90)]);
    assert_eq!(a.user_state.data.balance, 12);
    assert_eq!(a.user_state.data.earned, 12);
    assert_eq!(
        actions,
        vec![Action::Emit(Event::StakesConsolidated(StakesConsolidatedEvent {
            user: key(9),
            resulting_stake_count: 1,
        }))]
    );
}

#[test]
fn consolidating_needs_a_positive_window() {
    for window in [0, -1, i64::MIN] {
        let mut a = consolidation(vec![at(5, 100), at(7, 90)], M);
        assert!(check_consolidate_fits(&a, window));
        let mut actions = Vec::new();
        assert_eq!(
            consolidate_stakes(&mut a, window, &mut actions),
            Err(Rejection::Staking(StakingError::InvalidTimeWindow))
        );
        assert_eq!(a.user_state.data.earned, 0);
        assert!(actions.is_empty());
    }
}

#[test]
fn first_stake_enters_the_owner() {
    let mut a = accounts(UserState::default(), pool(100, M));
    assert!(check_stake_fits(&a, 40, &Ok(777)));
    let mut actions = Vec::new();
    assert_eq!(stake_at(&mut a, 40, Ok(777), &mut actions), Ok(()));
    assert_eq!(a.user_state.data.owner, key(9));
    assert_eq!(a.user_state.data.balance, 40);
    assert_eq!(a.user_state.data.stakes, vec![at(40, 777)]);
    assert_eq!(a.user_state.data.earned, 0);
    assert_eq!(a.user_state.data.reward_index_of, M);
    assert_eq!(a.staking_pool.data.total_supply, 140);
    assert_eq!(
        actions,
        vec![
            deposit(40),
            Action::Emit(Event::Staked(StakedEvent { user: key(9), amount: 40, timestamp: 777 })),
        ]
    );
}

#[test]
fn owner_on_file_stays() {
    let mut user_state = record(vec![]);
    user_state.owner = key(77);
    let mut a = accounts(user_state, pool(0, 0));
    let mut actions = Vec::new();
    assert_eq!(stake_at(&mut a, 1, Ok(5), &mut actions), Ok(()));
    assert_eq!(a.user_state.data.owner, key(77));
}

#[test]
fn stake_settles_what_was_earned_before() {
    let mut a = accounts(record(vec![at(10, 5)]), pool(10, 3 * M));
    let mut actions = Vec::new();
    assert_eq!(stake_at(&mut a, 90, Ok(6), &mut actions), Ok(()));
    assert_eq!(a.user_state.data.earned, 30);
    assert_eq!(a.user_state.data.balance, 100);
}

#[test]
fn zero_cannot_be_staked() {
    let mut a = accounts(UserState::default(), pool(0, 0));
    let mut actions = Vec::new();
    assert_eq!(
        stake_at(&mut a, 0, Ok(5), &mut actions),
        Err(Rejection::Staking(StakingError::CannotStakeZero))
    );
    assert_eq!(a.user_state.data, UserState::default());
    assert!(actions.is_empty());
    assert_eq!(
        stake(&mut a, 0, &mut actions),
        Some(Err(Rejection::Staking(StakingError::CannotStakeZero)))
    );
}

#[test]
fn stake_passes_on_the_error_of_the_clock() {
    let mut a = accounts(UserState::default(), pool(0, 0));
    let mut actions = Vec::new();
    assert_eq!(
        stake_at(&mut a, 7, Err(ProgramError::InvalidArgument), &mut actions),
        Err(Rejection::Clock(ProgramError::InvalidArgument))
    );
    assert!(actions.is_empty());
}

#[test]
fn stake_reads_the_clock() {
    // Off chain the runtime serves no clock.
    let mut a = accounts(UserState::default(), pool(0, 0));
    let mut actions = Vec::new();
    assert_eq!(
        stake(&mut a, 7, &mut actions),
        Some(Err(Rejection::Clock(ProgramError::UnsupportedSysvar)))
    );
    assert_eq!(a.staking_pool.data.total_supply, 0);
}

#[test]
fn stake_that_does_not_fit_is_left_undone() {
    let mut a = accounts(record(vec![at(u64::MAX, 0)]), pool(u64::MAX, u128::MAX));
    let mut actions = Vec::new();
    assert_eq!(stake(&mut a, 1, &mut actions), None);
    assert!(actions.is_empty());
    assert!(!check_stake_fits(&accounts(record(vec![]), pool(u64::MAX, 0)), 1, &Ok(0)));
}

#[test]
fn warning_starts_at_three_quarters_of_the_limit() {
    let mut below = accounts(record(vec![at(1, 0); 36]), pool(36, 0));
    let mut actions = Vec::new();
    assert_eq!(stake_at(&mut below, 1, Ok(5), &mut actions), Ok(()));
    assert_eq!(actions.len(), 2);
    let mut reached = accounts(record(vec![at(1, 0); 37]), pool(37, 0));
    let mut actions = Vec::new();
    assert_eq!(stake_at(&mut reached, 1, Ok(5), &mut actions), Ok(()));
    assert_eq!(
        actions[2],
        Action::Emit(Event::ApproachingStakeLimit(ApproachingStakeLimitEvent {
            user: key(9),
            current_stakes: 38,
            max_stakes: 50,
        }))
    );
}

#[test]
fn stake_at_the_limit_joins_a_similar_one() {
    let mut stakes = vec![at(1, 0); 50];
    stakes[20] = at(6, 10 * DAY);
    stakes.push(at(0, 10 * DAY));
    let mut a = accounts(record(stakes.clone()), pool(55, 4 * M));
    assert!(check_stake_fits(&a, 4, &Ok(11 * DAY)));
    let mut actions = Vec::new();
    assert_eq!(stake_at(&mut a, 4, Ok(11 * DAY), &mut actions), Ok(()));
    stakes[20] = at(10, 10 * DAY);
    assert_eq!(a.user_state.data.stakes, stakes);
    assert_eq!(a.user_state.data.balance, 59);
    assert_eq!(a.staking_pool.data.total_supply, 59);
    assert_eq!(a.user_state.data.earned, 0);
    assert_eq!(
        actions,
        vec![
            deposit(4),
            Action::Emit(Event::StakeConsolidated(StakeConsolidatedEvent {
                user: key(9),
                amount: 4,
                existing_stake_index: 20,
                total_stakes: 50,
            })),
        ]
    );
}

#[test]
fn stake_at_the_limit_joins_the_latest_where_none_is_near() {
    let mut a = accounts(record(vec![at(1, 0); 50]), pool(50, 0));
    let mut actions = Vec::new();
    assert_eq!(stake_at(&mut a, 4, Ok(11 * DAY), &mut actions), Ok(()));
    assert_eq!(a.user_state.data.stakes[49], at(5, 0));
    assert_eq!(count_active(&a.user_state.data.stakes), 50);
}

#[test]
fn stake_at_the_limit_without_clock_is_refused() {
    let mut a = accounts(record(vec![at(1, 0); 50]), pool(50, 0));
    let mut actions = Vec::new();
    assert_eq!(
        stake_at(&mut a, 4, Err(ProgramError::UnsupportedSysvar), &mut actions),
        Err(Rejection::Staking(StakingError::TooManyActiveStakes))
    );
    assert_eq!(
        actions,
        vec![Action::Emit(Event::StakeLimitReached(StakeLimitReachedEvent {
            user: key(9),
            current_stakes: 50,
            max_stakes: 50,
        }))]
    );
    assert_eq!(a.staking_pool.data.total_supply, 50);
}

#[test]
fn stake_at_the_limit_may_not_fit() {
    let mut stakes = vec![at(1, 0); 50];
    stakes[0] = at(u64::MAX, 0);
    let mut user_state = record(vec![]);
    user_state.stakes = stakes;
    let a = accounts(user_state, pool(0, 0));
    assert!(!check_stake_fits(&a, 1, &Ok(0)));
    assert!(!check_stake_fits(&a, 1, &Ok(i64::MIN)));
    assert!(check_stake_fits(&a, 1, &Err(ProgramError::UnsupportedSysvar)));
}
