use staking_rewards::accounts::{AddRewards, Claim};
use staking_rewards::error::{Rejection, StakingError};
use staking_rewards::event::{Action, Event, RewardsAddedEvent, RewardsClaimedEvent, TokenTransfer};
use staking_rewards::instructions::pool::add_rewards;
use staking_rewards::instructions::user::{check_claim_fits, claim};
use staking_rewards::pubkey::Pubkey;
use staking_rewards::rewards::{
    calculate_rewards, check_settlement_fits, claim_internal, update_reward_index, update_rewards,
};
use staking_rewards::state::{Account, StakingPool, TokenAccount, UserState, MULTIPLIER};

const M: u128 = MULTIPLIER as u128;

fn key(n: u8) -> Pubkey {
    Pubkey { bytes: [n; 32] }
}

fn pool(supply: u64, index: u128) -> StakingPool {
    StakingPool {
        staking_mint: key(1),
        reward_mint: key(2),
        staking_vault: key(3),
        reward_vault: key(4),
        authority: key(5),
        total_supply: supply,
        reward_index: index,
        bump: 254,
    }
}

fn user(balance: u64, index: u128, earned: u64) -> UserState {
    UserState { owner: key(9), balance, reward_index_of: index, earned, ..UserState::default() }
}

fn claim_accounts(balance: u64, earned: u64, index: u128) -> Claim {
    Claim {
        staking_pool: Account { key: key(10), data: pool(balance, index) },
        reward_vault: key(4),
        user_state: Account { key: key(11), data: user(balance, 0, earned) },
        user_reward_account: Account {
            key: key(12),
            data: TokenAccount { owner: key(9), mint: key(2) },
        },
        user: key(9),
    }
}

fn add_accounts(supply: u64, index: u128) -> AddRewards {
    AddRewards {
        staking_pool: Account { key: key(10), data: pool(supply, index) },
        reward_vault: key(4),
        from_account: Account { key: key(13), data: TokenAccount { owner: key(5), mint: key(2) } },
        authority: key(5),
    }
}

#[test]
fn multiplier_is_ten_to_the_eighteenth() {
    assert_eq!(MULTIPLIER, 10u64.pow(18));
}

#[test]
fn rewards_are_shares_times_index_difference() {
    assert_eq!(calculate_rewards(100, 3 * M, M), 200);
    assert_eq!(calculate_rewards(7, M / 2, 0), 3);
    assert_eq!(calculate_rewards(0, u128::MAX, 0), 0);
}

#[test]
fn rewards_are_zero_without_progress() {
    assert_eq!(calculate_rewards(100, 5, 5), 0);
    assert_eq!(calculate_rewards(100, 4, 5), 0);
}

#[test]
fn rewards_stop_at_the_largest_number() {
    assert_eq!(calculate_rewards(10, (u64::MAX as u128) * M, 0), u64::MAX);
}

#[test]
fn settlement_credits_once() {
    let mut u = user(50, M, 3);
    update_rewards(&mut u, 2 * M);
    assert_eq!(u.earned, 53);
    assert_eq!(u.reward_index_of, 2 * M);
    update_rewards(&mut u, 2 * M);
    assert_eq!(u.earned, 53);
    assert_eq!(u.balance, 50);
}

#[test]
fn settlement_takes_over_a_lower_index() {
    let mut u = user(50, 2 * M, 3);
    update_rewards(&mut u, M);
    assert_eq!(u.earned, 3);
    assert_eq!(u.reward_index_of, M);
}

#[test]
fn settlement_bounds_are_found() {
    assert!(check_settlement_fits(&user(1, 0, 0), M));
    assert!(!check_settlement_fits(&user(2, 0, 0), u128::MAX));
    assert!(!check_settlement_fits(&user(1, 0, u64::MAX), M));
    assert!(check_settlement_fits(&user(u64::MAX, 7, u64::MAX), 7));
}

#[test]
fn settling_often_earns_no_more() {
    let half = M / 2;
    let once = calculate_rewards(3, 2 * half, 0);
    let twice = calculate_rewards(3, half, 0) + calculate_rewards(3, 2 * half, half);
    assert_eq!((once, twice), (3, 2));
}

#[test]
fn index_moves_by_reward_per_token() {
    let mut p = pool(200, 10);
    assert_eq!(update_reward_index(&mut p, 50), Ok(()));
    assert_eq!(p.reward_index, 10 + M / 4);
    let mut p = pool(3, 0);
    assert_eq!(update_reward_index(&mut p, 1), Ok(()));
    assert_eq!(p.reward_index, 333_333_333_333_333_333);
}

#[test]
fn index_stays_without_stakes() {
    let mut p = pool(0, 10);
    assert_eq!(update_reward_index(&mut p, 50), Ok(()));
    assert_eq!(p, pool(0, 10));
}

#[test]
fn index_overflow_is_an_error() {
    let mut p = pool(1, u128::MAX);
    assert_eq!(update_reward_index(&mut p, 1), Err(StakingError::ArithmeticOverflow));
    assert_eq!(p, pool(1, u128::MAX));
}

#[test]
fn added_rewards_cover_what_is_earned() {
    let balances = [1u64, 5, 11, 83];
    let mut p = pool(100, 0);
    for reward in [7u64, 13, 99] {
        assert_eq!(update_reward_index(&mut p, reward), Ok(()));
    }
    let earned: u64 = balances.iter().map(|b| calculate_rewards(*b, p.reward_index, 0)).sum();
    assert!(earned <= 7 + 13 + 99);
    assert_eq!(earned, 1 + 5 + 13 + 98);
}

#[test]
fn claim_pays_all_and_then_nothing() {
    let mut a = claim_accounts(50, 3, 2 * M);
    assert!(check_claim_fits(&a));
    let mut actions = Vec::new();
    assert_eq!(claim(&mut a, &mut actions), Ok(()));
    assert_eq!(
        actions,
        vec![
            Action::Transfer(TokenTransfer {
                from: key(4),
                to: key(12),
                authority: key(10),
                amount: 103,
                pool_bump: Some(254),
            }),
            Action::Emit(Event::RewardsClaimed(RewardsClaimedEvent { user: key(9), amount: 103 })),
        ]
    );
    assert_eq!(a.user_state.data.earned, 0);
    assert_eq!(a.user_state.data.reward_index_of, 2 * M);
    assert!(check_claim_fits(&a));
    let mut again = Vec::new();
    assert_eq!(claim(&mut a, &mut again), Ok(()));
    assert!(again.is_empty());
}

#[test]
fn claim_that_does_not_fit_is_found() {
    assert!(!check_claim_fits(&claim_accounts(u64::MAX, 0, u128::MAX)));
}

#[test]
fn internal_claim_names_the_owner() {
    let mut u = user(10, 0, 0);
    let p = pool(10, M);
    let mut actions = Vec::new();
    claim_internal(&mut u, key(10), &p, key(4), key(12), &mut actions);
    assert_eq!(actions.len(), 2);
    assert_eq!(
        actions[1],
        Action::Emit(Event::RewardsClaimed(RewardsClaimedEvent { user: key(9), amount: 10 }))
    );
}

#[test]
fn added_rewards_move_the_index_and_the_tokens() {
    let mut a = add_accounts(4, 0);
    let mut actions = Vec::new();
    assert_eq!(add_rewards(&mut a, 8, &mut actions), Ok(()));
    assert_eq!(a.staking_pool.data, pool(4, 2 * M));
    assert_eq!(
        actions,
        vec![
            Action::Transfer(TokenTransfer {
                from: key(13),
                to: key(4),
                authority: key(5),
                amount: 8,
                pool_bump: None,
            }),
            Action::Emit(Event::RewardsAdded(RewardsAddedEvent { amount: 8 })),
        ]
    );
}

#[test]
fn added_rewards_may_overflow_the_index() {
    let mut a = add_accounts(1, u128::MAX);
    let mut actions = Vec::new();
    assert_eq!(
        add_rewards(&mut a, 8, &mut actions),
        Err(Rejection::Staking(StakingError::ArithmeticOverflow))
    );
    assert_eq!(actions.len(), 1);
}
