use staking_rewards::accounts::{ConsolidateStakes, Stake, Unstake, Withdraw};
use staking_rewards::event::{Action, TokenTransfer};
use staking_rewards::instructions::stake::{check_stake_fits, stake_at};
use staking_rewards::instructions::unstake::{check_unstake_fits, unstake_at};
use staking_rewards::instructions::user::{check_consolidate_fits, consolidate_stakes};
use staking_rewards::instructions::withdraw::{check_withdraw_fits, withdraw_at};
use staking_rewards::pubkey::Pubkey;
use staking_rewards::stakes::count_active;
use staking_rewards::state::{Account, StakingPool, TokenAccount, UserState};

fn key(n: u8) -> Pubkey {
    Pubkey { bytes: [n; 32] }
}

fn tokens(n: u8) -> Account<TokenAccount> {
    Account { key: key(n), data: TokenAccount { owner: key(9), mint: key(1) } }
}

fn new_pool() -> StakingPool {
    StakingPool { staking_mint: key(1), reward_mint: key(2), bump: 254, ..StakingPool::default() }
}

fn deposit(pool: StakingPool, user: UserState, amount: u64, now: i64) -> (StakingPool, UserState) {
    let mut a = Stake {
        staking_pool: Account { key: key(10), data: pool },
        staking_vault: key(3),
        user_state: Account { key: key(11), data: user },
        user_token_account: tokens(12),
        user: key(9),
    };
    assert!(check_stake_fits(&a, amount, &Ok(now)));
    assert_eq!(stake_at(&mut a, amount, Ok(now), &mut Vec::new()), Ok(()));
    (a.staking_pool.data, a.user_state.data)
}

fn take_back(pool: StakingPool, user: UserState, amount: u64, now: i64) -> (StakingPool, UserState) {
    let mut a = Unstake {
        staking_pool: Account { key: key(10), data: pool },
        staking_vault: key(3),
        reward_vault: key(4),
        user_state: Account { key: key(11), data: user },
        user_token_account: tokens(12),
        user_reward_account: tokens(13),
        user: key(9),
    };
    assert!(check_unstake_fits(&a, amount, None, Some(100), &Ok(now)));
    assert_eq!(unstake_at(&mut a, amount, None, Some(100), Ok(now), &mut Vec::new()), Ok(()));
    (a.staking_pool.data, a.user_state.data)
}

fn tidy(pool: StakingPool, user: UserState, window: i64) -> UserState {
    let mut a = ConsolidateStakes {
        staking_pool: Account { key: key(10), data: pool },
        user_state: Account { key: key(11), data: user },
        user: key(9),
    };
    assert!(check_consolidate_fits(&a, window));
    assert_eq!(consolidate_stakes(&mut a, window, &mut Vec::new()), Ok(()));
    a.user_state.data
}

fn staked(user: &UserState) -> u64 {
    user.stakes.iter().map(|s| s.amount).sum()
}

fn owed(user: &UserState) -> u64 {
    user.unbonding_requests.iter().filter(|r| !r.withdrawn).map(|r| r.amount).sum()
}

#[test]
fn deposit_comes_back_in_full() {
    let (pool, user) = deposit(new_pool(), UserState::default(), 40, 1000);
    let (pool, user) = deposit(pool, user, 2, 1010);
    assert_eq!((staked(&user), user.balance, pool.total_supply), (42, 42, 42));
    let user = tidy(pool, user, 60);
    assert_eq!((staked(&user), user.stakes.len()), (42, 1));
    let (pool, user) = take_back(pool, user, 42, 1300);
    assert_eq!((staked(&user), user.balance, pool.total_supply, owed(&user)), (0, 0, 0, 42));
    let mut a = Withdraw {
        staking_pool: Account { key: key(10), data: pool },
        staking_vault: key(3),
        reward_vault: key(4),
        user_state: Account { key: key(11), data: user },
        user_token_account: tokens(12),
        user: key(9),
    };
    assert!(check_withdraw_fits(&a, None, &Ok(1420)));
    let mut actions = Vec::new();
    assert_eq!(withdraw_at(&mut a, None, Ok(1420), &mut actions), Ok(()));
    assert_eq!(
        actions[0],
        Action::Transfer(TokenTransfer {
            from: key(3),
            to: key(12),
            authority: key(10),
            amount: 42,
            pool_bump: Some(254),
        })
    );
    assert_eq!(owed(&a.user_state.data), 0);
}

#[test]
fn supply_is_the_sum_of_two_balances() {
    let (pool, first) = deposit(new_pool(), UserState::default(), 40, 1000);
    let (pool, second) = deposit(pool, UserState::default(), 25, 1000);
    let (pool, first) = take_back(pool, first, 15, 2000);
    assert_eq!(pool.total_supply, first.balance + second.balance);
    assert_eq!(first.balance, staked(&first));
    assert_eq!(first.balance + owed(&first), 40);
}

#[test]
fn active_stakes_never_exceed_fifty() {
    let mut pool = new_pool();
    let mut user = UserState::default();
    for i in 0..60 {
        (pool, user) = deposit(pool, user, 1, 1000 * i);
        assert!(count_active(&user.stakes) <= 50);
        assert_eq!(user.balance, staked(&user));
    }
    assert_eq!(user.stakes.len(), 50);
    assert_eq!(user.balance, 60);
}

#[test]
fn consolidation_never_locks_unlocked_money() {
    let (pool, user) = deposit(new_pool(), UserState::default(), 5, 0);
    let (pool, user) = deposit(pool, user, 6, 50);
    let unlocked = |user: &UserState| -> u64 {
        user.stakes.iter().filter(|s| 310 >= s.timestamp + 300).map(|s| s.amount).sum()
    };
    assert_eq!(unlocked(&user), 5);
    let user = tidy(pool, user, 60);
    assert_eq!(unlocked(&user), 11);
}
