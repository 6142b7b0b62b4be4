use anchor_lang::prelude::Pubkey as ChainKey;
use staking_rewards::accounts::{
    pool_signer_seeds, AddRewards, Claim, ConsolidateStakes, Initialize, Stake, Unstake,
    UpdateUserOwner, Withdraw, REWARD_VAULT_SEED, STAKING_POOL_SEED, STAKING_VAULT_SEED,
    USER_STATE_SEED,
};
use staking_rewards::error::{AccountName, ConstraintError, StakingError};
use staking_rewards::instructions::pool::initialize;
use staking_rewards::instructions::user::update_user_owner;
use staking_rewards::pubkey::Pubkey;
use staking_rewards::state::{Account, StakingPool, TokenAccount, UserState};

fn key(n: u8) -> Pubkey {
    Pubkey { bytes: [n; 32] }
}

fn program() -> Pubkey {
    key(200)
}

fn derived(seeds: &[&[u8]]) -> (Pubkey, u8) {
    let (address, bump) =
        ChainKey::find_program_address(seeds, &ChainKey::new_from_array(program().bytes));
    (Pubkey { bytes: address.to_bytes() }, bump)
}

fn pool_address() -> Pubkey {
    derived(&[b"staking_pool_v2"]).0
}

fn staking_vault() -> Pubkey {
    derived(&[b"staking_vault", &pool_address().bytes]).0
}

fn reward_vault() -> Pubkey {
    derived(&[b"reward_vault", &pool_address().bytes]).0
}

fn user_record() -> Pubkey {
    derived(&[b"user_state", &pool_address().bytes, &key(9).bytes]).0
}

fn pool() -> Account<StakingPool> {
    Account {
        key: pool_address(),
        data: StakingPool {
            staking_mint: key(1),
            reward_mint: key(2),
            authority: key(5),
            ..StakingPool::default()
        },
    }
}

fn record() -> Account<UserState> {
    Account { key: user_record(), data: UserState { owner: key(9), ..UserState::default() } }
}

fn tokens(n: u8, owner: u8, mint: u8) -> Account<TokenAccount> {
    Account { key: key(n), data: TokenAccount { owner: key(owner), mint: key(mint) } }
}

fn stake() -> Stake {
    Stake {
        staking_pool: pool(),
        staking_vault: staking_vault(),
        user_state: record(),
        user_token_account: tokens(12, 9, 1),
        user: key(9),
    }
}

fn unstake() -> Unstake {
    Unstake {
        staking_pool: pool(),
        staking_vault: staking_vault(),
        reward_vault: reward_vault(),
        user_state: record(),
        user_token_account: tokens(12, 9, 1),
        user_reward_account: tokens(13, 9, 2),
        user: key(9),
    }
}

fn withdraw() -> Withdraw {
    Withdraw {
        staking_pool: pool(),
        staking_vault: staking_vault(),
        reward_vault: reward_vault(),
        user_state: record(),
        user_token_account: tokens(12, 9, 1),
        user: key(9),
    }
}

fn claim() -> Claim {
    Claim {
        staking_pool: pool(),
        reward_vault: reward_vault(),
        user_state: record(),
        user_reward_account: tokens(13, 9, 2),
        user: key(9),
    }
}

fn add_rewards() -> AddRewards {
    AddRewards {
        staking_pool: pool(),
        reward_vault: reward_vault(),
        from_account: tokens(14, 5, 2),
        authority: key(5),
    }
}

fn setup() -> Initialize {
    Initialize {
        staking_pool: Account { key: pool_address(), data: StakingPool::default() },
        staking_mint: key(1),
        reward_mint: key(2),
        staking_vault: staking_vault(),
        reward_vault: reward_vault(),
        authority: key(5),
    }
}

#[test]
fn seeds_spell_their_names() {
    assert_eq!(&STAKING_POOL_SEED, b"staking_pool_v2");
    assert_eq!(&STAKING_VAULT_SEED, b"staking_vault");
    assert_eq!(&REWARD_VAULT_SEED, b"reward_vault");
    assert_eq!(&USER_STATE_SEED, b"user_state");
}

#[test]
fn keys_are_compared_byte_by_byte() {
    assert!(key(7).same(&key(7)));
    let mut other = key(7);
    other.bytes[31] = 8;
    assert!(!key(7).same(&other));
    assert_eq!(Pubkey::default().bytes, ChainKey::default().to_bytes());
}

#[test]
fn initialize_is_checked_and_fills_the_pool() {
    let mut a = setup();
    let bump = derived(&[b"staking_pool_v2"]).1;
    assert_eq!(a.check(&program()), Ok(bump));
    assert_eq!(initialize(&mut a, bump), Ok(()));
    assert_eq!(
        a.staking_pool.data,
        StakingPool {
            staking_mint: key(1),
            reward_mint: key(2),
            staking_vault: staking_vault(),
            reward_vault: reward_vault(),
            authority: key(5),
            total_supply: 0,
            reward_index: 0,
            bump,
        }
    );
}

#[test]
fn initialize_overwrites_what_was_there() {
    let mut a = setup();
    a.staking_pool.data.total_supply = 5;
    a.staking_pool.data.reward_index = 6;
    assert_eq!(initialize(&mut a, 3), Ok(()));
    assert_eq!(a.staking_pool.data.total_supply, 0);
    assert_eq!(a.staking_pool.data.reward_index, 0);
    assert_eq!(a.staking_pool.data.bump, 3);
}

#[test]
fn initialize_needs_the_derived_addresses() {
    let mut a = setup();
    a.staking_pool.key = key(77);
    assert_eq!(a.check(&program()), Err(ConstraintError::Seeds(AccountName::StakingPool)));
    let mut a = setup();
    a.staking_vault = key(77);
    assert_eq!(a.check(&program()), Err(ConstraintError::Seeds(AccountName::StakingVault)));
    let mut a = setup();
    a.reward_vault = key(77);
    assert_eq!(a.check(&program()), Err(ConstraintError::Seeds(AccountName::RewardVault)));
    assert_eq!(
        setup().check(&key(201)),
        Err(ConstraintError::Seeds(AccountName::StakingPool))
    );
}

#[test]
fn signer_seeds_give_the_pool_address() {
    let (address, bump) = derived(&[b"staking_pool_v2"]);
    let seeds = pool_signer_seeds(bump);
    assert_eq!(seeds, vec![b"staking_pool_v2".to_vec(), vec![bump]]);
    let refs: Vec<&[u8]> = seeds.iter().map(|seed| seed.as_slice()).collect();
    let signed =
        ChainKey::create_program_address(&refs, &ChainKey::new_from_array(program().bytes));
    assert_eq!(signed.unwrap().to_bytes(), address.bytes);
}

#[test]
fn stake_accounts_are_checked() {
    assert_eq!(stake().check(&program()), Ok(()));
    let mut a = stake();
    a.user_state.key = key(77);
    a.staking_vault = key(77);
    assert_eq!(a.check(&program()), Err(ConstraintError::Seeds(AccountName::UserState)));
    let mut a = stake();
    a.staking_vault = reward_vault();
    assert_eq!(a.check(&program()), Err(ConstraintError::Seeds(AccountName::StakingVault)));
    let mut a = stake();
    a.user_token_account = tokens(12, 8, 1);
    assert_eq!(a.check(&program()), Err(ConstraintError::Raw(AccountName::UserTokenAccount)));
    let mut a = stake();
    a.user_token_account = tokens(12, 9, 2);
    assert_eq!(a.check(&program()), Err(ConstraintError::Raw(AccountName::UserTokenAccount)));
    let mut a = stake();
    a.user_state.data.owner = key(8);
    assert_eq!(a.check(&program()), Ok(()));
}

#[test]
fn unstake_accounts_are_checked() {
    assert_eq!(unstake().check(&program()), Ok(()));
    let mut a = unstake();
    a.staking_vault = key(77);
    assert_eq!(a.check(&program()), Err(ConstraintError::Seeds(AccountName::StakingVault)));
    let mut a = unstake();
    a.reward_vault = key(77);
    assert_eq!(a.check(&program()), Err(ConstraintError::Seeds(AccountName::RewardVault)));
    let mut a = unstake();
    a.user_state.key = key(77);
    assert_eq!(a.check(&program()), Err(ConstraintError::Seeds(AccountName::UserState)));
    let mut a = unstake();
    a.user_state.data.owner = key(8);
    assert_eq!(a.check(&program()), Err(ConstraintError::Raw(AccountName::UserState)));
    let mut a = unstake();
    a.user_token_account = tokens(12, 9, 2);
    assert_eq!(a.check(&program()), Err(ConstraintError::Raw(AccountName::UserTokenAccount)));
    let mut a = unstake();
    a.user_reward_account = tokens(13, 9, 1);
    assert_eq!(a.check(&program()), Err(ConstraintError::Raw(AccountName::UserRewardAccount)));
}

#[test]
fn withdraw_accounts_are_checked() {
    assert_eq!(withdraw().check(&program()), Ok(()));
    let mut a = withdraw();
    a.user_state.data.owner = key(8);
    assert_eq!(a.check(&program()), Err(ConstraintError::Raw(AccountName::UserState)));
    let mut a = withdraw();
    a.user_token_account = tokens(12, 8, 1);
    assert_eq!(a.check(&program()), Err(ConstraintError::Raw(AccountName::UserTokenAccount)));
}

#[test]
fn claim_accounts_are_checked() {
    assert_eq!(claim().check(&program()), Ok(()));
    let mut a = claim();
    a.reward_vault = staking_vault();
    assert_eq!(a.check(&program()), Err(ConstraintError::Seeds(AccountName::RewardVault)));
    let mut a = claim();
    a.user_reward_account = tokens(13, 8, 2);
    assert_eq!(a.check(&program()), Err(ConstraintError::Raw(AccountName::UserRewardAccount)));
}

#[test]
fn only_the_authority_adds_rewards() {
    assert_eq!(add_rewards().check(&program()), Ok(()));
    let mut a = add_rewards();
    a.authority = key(6);
    assert_eq!(a.check(&program()), Err(ConstraintError::Raw(AccountName::StakingPool)));
    let mut a = add_rewards();
    a.from_account = tokens(14, 5, 1);
    assert_eq!(a.check(&program()), Err(ConstraintError::Raw(AccountName::FromAccount)));
}

#[test]
fn consolidation_is_for_the_owner() {
    let mut a = ConsolidateStakes { staking_pool: pool(), user_state: record(), user: key(9) };
    assert_eq!(a.check(&program()), Ok(()));
    a.user_state.data.owner = key(8);
    assert_eq!(a.check(&program()), Err(ConstraintError::Raw(AccountName::UserState)));
}

#[test]
fn record_is_taken_over_by_its_user() {
    let mut a = UpdateUserOwner { staking_pool: pool(), user_state: record(), user: key(9) };
    a.user_state.data.owner = key(8);
    assert_eq!(a.check(&program()), Ok(()));
    assert_eq!(update_user_owner(&mut a), Ok(()));
    assert_eq!(a.user_state.data.owner, key(9));
    a.user_state.key = key(77);
    assert_eq!(a.check(&program()), Err(ConstraintError::Seeds(AccountName::UserState)));
}

#[test]
fn errors_have_their_texts() {
    let texts = [
        (StakingError::CannotStakeZero, "Cannot stake zero amount"),
        (StakingError::CannotUnstakeZero, "Cannot unstake zero amount"),
        (StakingError::InsufficientBalance, "Insufficient balance"),
        (StakingError::InsufficientUnlockedStakes, "Insufficient unlocked stakes"),
        (StakingError::NoWithdrawableAmount, "No withdrawable amount"),
        (StakingError::ArithmeticOverflow, "Arithmetic overflow"),
        (StakingError::TooManyActiveStakes, "Too many active stakes, please consolidate first"),
        (StakingError::InvalidStartIndex, "Invalid start index"),
        (StakingError::NoUnlockedStakesInBatch, "No unlocked stakes in this batch"),
        (StakingError::InvalidTimeWindow, "Invalid time window"),
    ];
    for (error, text) in texts {
        assert_eq!(error.message(), text);
    }
}
