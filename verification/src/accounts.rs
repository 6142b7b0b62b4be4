//! The accounts that each instruction is given, and what has to hold between them.
use crate::error::{AccountName, ConstraintError};
use crate::pubkey::{find_program_address, program_address, Pubkey};
use crate::state::{Account, StakingPool, TokenAccount, UserState, UserView};
use vstd::prelude::*;

verus! {

/// The seed of the pool's address: `staking_pool_v2`.
pub const STAKING_POOL_SEED: [u8; 15] = [
    115, 116, 97, 107, 105, 110, 103, 95, 112, 111, 111, 108, 95, 118, 50,
];

/// The seed of a pool's vault for staked tokens: `staking_vault`.
pub const STAKING_VAULT_SEED: [u8; 13] = [
    115, 116, 97, 107, 105, 110, 103, 95, 118, 97, 117, 108, 116,
];

/// The seed of a pool's vault for reward tokens: `reward_vault`.
pub const REWARD_VAULT_SEED: [u8; 12] = [
    114, 101, 119, 97, 114, 100, 95, 118, 97, 117, 108, 116,
];

/// The seed of a user's record in a pool: `user_state`.
pub const USER_STATE_SEED: [u8; 10] = [
    117, 115, 101, 114, 95, 115, 116, 97, 116, 101,
];

/// The seeds of the pool's address.
pub open spec fn staking_pool_seeds() -> Seq<Seq<u8>> {
    seq![STAKING_POOL_SEED@]
}

/// The seeds of the vault for staked tokens.
pub open spec fn staking_vault_seeds(pool: Pubkey) -> Seq<Seq<u8>> {
    seq![STAKING_VAULT_SEED@, pool.bytes@]
}

/// The seeds of the vault for reward tokens.
pub open spec fn reward_vault_seeds(pool: Pubkey) -> Seq<Seq<u8>> {
    seq![REWARD_VAULT_SEED@, pool.bytes@]
}

/// The seeds of a user's record.
pub open spec fn user_state_seeds(pool: Pubkey, user: Pubkey) -> Seq<Seq<u8>> {
    seq![USER_STATE_SEED@, pool.bytes@, user.bytes@]
}

/// Whether `key` is the address that `seeds` derive, and with which bump.
pub open spec fn seeds_result(
    key: Pubkey,
    seeds: Seq<Seq<u8>>,
    program_id: Pubkey,
    name: AccountName,
) -> Result<u8, ConstraintError> {
    match program_address(seeds, program_id.bytes@) {
        None => Err(ConstraintError::NoAddress(name)),
        Some((address, bump)) => if address == key.bytes@ {
            Ok(bump)
        } else {
            Err(ConstraintError::Seeds(name))
        },
    }
}

/// Whether a condition between accounts holds.
pub open spec fn raw_result(holds: bool, name: AccountName) -> Result<u8, ConstraintError> {
    if holds {
        Ok(0)
    } else {
        Err(ConstraintError::Raw(name))
    }
}

/// The first of the checks that fails decides.
pub open spec fn all_of(checks: Seq<Result<u8, ConstraintError>>) -> Result<(), ConstraintError>
    decreases checks.len(),
{
    if checks.len() == 0 {
        Ok(())
    } else {
        match checks[0] {
            Err(error) => Err(error),
            Ok(_) => all_of(checks.drop_first()),
        }
    }
}

fn compare_with_derived(
    key: &Pubkey,
    seeds: &[&[u8]],
    program_id: &Pubkey,
    name: AccountName,
) -> (result: Result<u8, ConstraintError>)
    ensures
        result == seeds_result(
            *key,
            seeds@.map_values(|seed: &[u8]| seed@),
            *program_id,
            name,
        ),
{
    match find_program_address(seeds, program_id) {
        None => Err(ConstraintError::NoAddress(name)),
        Some((address, bump)) => if address.same(key) {
            Ok(bump)
        } else {
            proof {
                if address.bytes@ == key.bytes@ {
                    assert(address.bytes =~= key.bytes);
                }
            }
            Err(ConstraintError::Seeds(name))
        },
    }
}

fn check_staking_pool(key: &Pubkey, program_id: &Pubkey) -> (result: Result<u8, ConstraintError>)
    ensures
        result == seeds_result(*key, staking_pool_seeds(), *program_id, AccountName::StakingPool),
{
    let tag: [u8; 15] = STAKING_POOL_SEED;
    let seeds: [&[u8]; 1] = [tag.as_slice()];
    assert(seeds@.map_values(|seed: &[u8]| seed@) =~= staking_pool_seeds());
    compare_with_derived(key, seeds.as_slice(), program_id, AccountName::StakingPool)
}

fn check_staking_vault(key: &Pubkey, pool: &Pubkey, program_id: &Pubkey) -> (result: Result<
    u8,
    ConstraintError,
>)
    ensures
        result == seeds_result(
            *key,
            staking_vault_seeds(*pool),
            *program_id,
            AccountName::StakingVault,
        ),
{
    let tag: [u8; 13] = STAKING_VAULT_SEED;
    let seeds: [&[u8]; 2] = [tag.as_slice(), pool.bytes.as_slice()];
    assert(seeds@.map_values(|seed: &[u8]| seed@) =~= staking_vault_seeds(*pool));
    compare_with_derived(key, seeds.as_slice(), program_id, AccountName::StakingVault)
}

fn check_reward_vault(key: &Pubkey, pool: &Pubkey, program_id: &Pubkey) -> (result: Result<
    u8,
    ConstraintError,
>)
    ensures
        result == seeds_result(
            *key,
            reward_vault_seeds(*pool),
            *program_id,
            AccountName::RewardVault,
        ),
{
    let tag: [u8; 12] = REWARD_VAULT_SEED;
    let seeds: [&[u8]; 2] = [tag.as_slice(), pool.bytes.as_slice()];
    assert(seeds@.map_values(|seed: &[u8]| seed@) =~= reward_vault_seeds(*pool));
    compare_with_derived(key, seeds.as_slice(), program_id, AccountName::RewardVault)
}

fn check_user_state(
    key: &Pubkey,
    pool: &Pubkey,
    user: &Pubkey,
    program_id: &Pubkey,
) -> (result: Result<u8, ConstraintError>)
    ensures
        result == seeds_result(
            *key,
            user_state_seeds(*pool, *user),
            *program_id,
            AccountName::UserState,
        ),
{
    let tag: [u8; 10] = USER_STATE_SEED;
    let seeds: [&[u8]; 3] = [tag.as_slice(), pool.bytes.as_slice(), user.bytes.as_slice()];
    assert(seeds@.map_values(|seed: &[u8]| seed@) =~= user_state_seeds(*pool, *user));
    compare_with_derived(key, seeds.as_slice(), program_id, AccountName::UserState)
}

/// Whether a token account is in `owner`'s hands and holds tokens of `mint`.
pub open spec fn holds_for(account: TokenAccount, owner: Pubkey, mint: Pubkey) -> bool {
    account.owner == owner && account.mint == mint
}

fn check_token_account(
    account: &TokenAccount,
    owner: &Pubkey,
    mint: &Pubkey,
    name: AccountName,
) -> (result: Result<u8, ConstraintError>)
    ensures
        result == raw_result(holds_for(*account, *owner, *mint), name),
{
    if account.owner.same(owner) && account.mint.same(mint) {
        Ok(0)
    } else {
        Err(ConstraintError::Raw(name))
    }
}

fn check_same(a: &Pubkey, b: &Pubkey, name: AccountName) -> (result: Result<u8, ConstraintError>)
    ensures
        result == raw_result(*a == *b, name),
{
    if a.same(b) {
        Ok(0)
    } else {
        Err(ConstraintError::Raw(name))
    }
}

/// The seeds with which the program signs as the pool: its tag and the bump.
pub fn pool_signer_seeds(bump: u8) -> (seeds: Vec<Vec<u8>>)
    ensures
        seeds@.len() == 2,
        seeds@[0]@ == STAKING_POOL_SEED@,
        seeds@[1]@ == seq![bump],
{
    let tag: [u8; 15] = STAKING_POOL_SEED;
    let mut first: Vec<u8> = Vec::new();
    let mut i: usize = 0;
    while i < 15
        invariant
            i <= 15,
            tag == STAKING_POOL_SEED,
            first@ == tag@.take(i as int),
        decreases 15 - i,
    {
        first.push(tag[i]);
        assert(first@ =~= tag@.take(i + 1));
        i = i + 1;
    }
    assert(first@ =~= tag@);
    let mut second: Vec<u8> = Vec::new();
    second.push(bump);
    assert(second@ =~= seq![bump]);
    let mut seeds: Vec<Vec<u8>> = Vec::new();
    seeds.push(first);
    seeds.push(second);
    seeds
}

// ---------------------------------------------------------------------------
// One set of accounts per instruction
// ---------------------------------------------------------------------------

/// What setting up a pool needs.
pub struct Initialize {
    pub staking_pool: Account<StakingPool>,
    pub staking_mint: Pubkey,
    pub reward_mint: Pubkey,
    pub staking_vault: Pubkey,
    pub reward_vault: Pubkey,
    pub authority: Pubkey,
}

impl Initialize {
    /// What has to hold between the accounts; where it does, the bump of the pool's address.
    pub open spec fn constraints(self, program_id: Pubkey) -> Result<u8, ConstraintError> {
        let pool = self.staking_pool.key;
        let pool_result = seeds_result(
            pool,
            staking_pool_seeds(),
            program_id,
            AccountName::StakingPool,
        );
        match all_of(
            seq![
                pool_result,
                seeds_result(
                    self.staking_vault,
                    staking_vault_seeds(pool),
                    program_id,
                    AccountName::StakingVault,
                ),
                seeds_result(
                    self.reward_vault,
                    reward_vault_seeds(pool),
                    program_id,
                    AccountName::RewardVault,
                ),
            ],
        ) {
            Err(error) => Err(error),
            Ok(_) => pool_result,
        }
    }

    /// Tells whether the accounts belong together, and gives the bump of the pool's address.
    pub fn check(&self, program_id: &Pubkey) -> (result: Result<u8, ConstraintError>)
        ensures
            result == self.constraints(*program_id),
    {
        proof {
            reveal_with_fuel(all_of, 4);
        }
        let bump: u8 = check_staking_pool(&self.staking_pool.key, program_id)?;
        check_staking_vault(&self.staking_vault, &self.staking_pool.key, program_id)?;
        check_reward_vault(&self.reward_vault, &self.staking_pool.key, program_id)?;
        Ok(bump)
    }
}

/// What a deposit needs.
pub struct Stake {
    pub staking_pool: Account<StakingPool>,
    pub staking_vault: Pubkey,
    pub user_state: Account<UserState>,
    pub user_token_account: Account<TokenAccount>,
    pub user: Pubkey,
}

impl Stake {
    /// What has to hold between the accounts.
    pub open spec fn constraints(self, program_id: Pubkey) -> Result<(), ConstraintError> {
        let pool = self.staking_pool.key;
        all_of(
            seq![
                seeds_result(
                    self.user_state.key,
                    user_state_seeds(pool, self.user),
                    program_id,
                    AccountName::UserState,
                ),
                seeds_result(
                    self.staking_vault,
                    staking_vault_seeds(pool),
                    program_id,
                    AccountName::StakingVault,
                ),
                raw_result(
                    holds_for(
                        self.user_token_account.data,
                        self.user,
                        self.staking_pool.data.staking_mint,
                    ),
                    AccountName::UserTokenAccount,
                ),
            ],
        )
    }

    /// Tells whether the accounts belong together.
    pub fn check(&self, program_id: &Pubkey) -> (result: Result<(), ConstraintError>)
        ensures
            result == self.constraints(*program_id),
    {
        proof {
            reveal_with_fuel(all_of, 4);
        }
        check_user_state(&self.user_state.key, &self.staking_pool.key, &self.user, program_id)?;
        check_staking_vault(&self.staking_vault, &self.staking_pool.key, program_id)?;
        check_token_account(
            &self.user_token_account.data,
            &self.user,
            &self.staking_pool.data.staking_mint,
            AccountName::UserTokenAccount,
        )?;
        Ok(())
    }

    /// Only the pool's figures and the user's record differ, and they are `pool` and `user`.
    pub open spec fn becomes(self, next: Stake, pool: StakingPool, user: UserView) -> bool {
        &&& next.staking_pool.key == self.staking_pool.key
        &&& next.staking_pool.data == pool
        &&& next.user_state.key == self.user_state.key
        &&& next.user_state.data@ == user
        &&& next.staking_vault == self.staking_vault
        &&& next.user_token_account == self.user_token_account
        &&& next.user == self.user
    }
}

/// What taking stakes back needs.
pub struct Unstake {
    pub staking_pool: Account<StakingPool>,
    pub staking_vault: Pubkey,
    pub reward_vault: Pubkey,
    pub user_state: Account<UserState>,
    pub user_token_account: Account<TokenAccount>,
    pub user_reward_account: Account<TokenAccount>,
    pub user: Pubkey,
}

impl Unstake {
    /// What has to hold between the accounts.
    pub open spec fn constraints(self, program_id: Pubkey) -> Result<(), ConstraintError> {
        let pool = self.staking_pool.key;
        all_of(
            seq![
                seeds_result(
                    self.staking_vault,
                    staking_vault_seeds(pool),
                    program_id,
                    AccountName::StakingVault,
                ),
                seeds_result(
                    self.reward_vault,
                    reward_vault_seeds(pool),
                    program_id,
                    AccountName::RewardVault,
                ),
                seeds_result(
                    self.user_state.key,
                    user_state_seeds(pool, self.user),
                    program_id,
                    AccountName::UserState,
                ),
                raw_result(self.user_state.data.owner == self.user, AccountName::UserState),
                raw_result(
                    holds_for(
                        self.user_token_account.data,
                        self.user,
                        self.staking_pool.data.staking_mint,
                    ),
                    AccountName::UserTokenAccount,
                ),
                raw_result(
                    holds_for(
                        self.user_reward_account.data,
                        self.user,
                        self.staking_pool.data.reward_mint,
                    ),
                    AccountName::UserRewardAccount,
                ),
            ],
        )
    }

    /// Tells whether the accounts belong together.
    pub fn check(&self, program_id: &Pubkey) -> (result: Result<(), ConstraintError>)
        ensures
            result == self.constraints(*program_id),
    {
        proof {
            reveal_with_fuel(all_of, 7);
        }
        check_staking_vault(&self.staking_vault, &self.staking_pool.key, program_id)?;
        check_reward_vault(&self.reward_vault, &self.staking_pool.key, program_id)?;
        check_user_state(&self.user_state.key, &self.staking_pool.key, &self.user, program_id)?;
        check_same(&self.user_state.data.owner, &self.user, AccountName::UserState)?;
        check_token_account(
            &self.user_token_account.data,
            &self.user,
            &self.staking_pool.data.staking_mint,
            AccountName::UserTokenAccount,
        )?;
        check_token_account(
            &self.user_reward_account.data,
            &self.user,
            &self.staking_pool.data.reward_mint,
            AccountName::UserRewardAccount,
        )?;
        Ok(())
    }

    /// Only the pool's figures and the user's record differ, and they are `pool` and `user`.
    pub open spec fn becomes(self, next: Unstake, pool: StakingPool, user: UserView) -> bool {
        &&& next.staking_pool.key == self.staking_pool.key
        &&& next.staking_pool.data == pool
        &&& next.user_state.key == self.user_state.key
        &&& next.user_state.data@ == user
        &&& next.staking_vault == self.staking_vault
        &&& next.reward_vault == self.reward_vault
        &&& next.user_token_account == self.user_token_account
        &&& next.user_reward_account == self.user_reward_account
        &&& next.user == self.user
    }
}

/// What a withdrawal needs.
pub struct Withdraw {
    pub staking_pool: Account<StakingPool>,
    pub staking_vault: Pubkey,
    pub reward_vault: Pubkey,
    pub user_state: Account<UserState>,
    pub user_token_account: Account<TokenAccount>,
    pub user: Pubkey,
}

impl Withdraw {
    /// What has to hold between the accounts.
    pub open spec fn constraints(self, program_id: Pubkey) -> Result<(), ConstraintError> {
        let pool = self.staking_pool.key;
        all_of(
            seq![
                seeds_result(
                    self.staking_vault,
                    staking_vault_seeds(pool),
                    program_id,
                    AccountName::StakingVault,
                ),
                seeds_result(
                    self.reward_vault,
                    reward_vault_seeds(pool),
                    program_id,
                    AccountName::RewardVault,
                ),
                seeds_result(
                    self.user_state.key,
                    user_state_seeds(pool, self.user),
                    program_id,
                    AccountName::UserState,
                ),
                raw_result(self.user_state.data.owner == self.user, AccountName::UserState),
                raw_result(
                    holds_for(
                        self.user_token_account.data,
                        self.user,
                        self.staking_pool.data.staking_mint,
                    ),
                    AccountName::UserTokenAccount,
                ),
            ],
        )
    }

    /// Tells whether the accounts belong together.
    pub fn check(&self, program_id: &Pubkey) -> (result: Result<(), ConstraintError>)
        ensures
            result == self.constraints(*program_id),
    {
        proof {
            reveal_with_fuel(all_of, 6);
        }
        check_staking_vault(&self.staking_vault, &self.staking_pool.key, program_id)?;
        check_reward_vault(&self.reward_vault, &self.staking_pool.key, program_id)?;
        check_user_state(&self.user_state.key, &self.staking_pool.key, &self.user, program_id)?;
        check_same(&self.user_state.data.owner, &self.user, AccountName::UserState)?;
        check_token_account(
            &self.user_token_account.data,
            &self.user,
            &self.staking_pool.data.staking_mint,
            AccountName::UserTokenAccount,
        )?;
        Ok(())
    }

    /// Only the pool's figures and the user's record differ, and they are `pool` and `user`.
    pub open spec fn becomes(self, next: Withdraw, pool: StakingPool, user: UserView) -> bool {
        &&& next.staking_pool.key == self.staking_pool.key
        &&& next.staking_pool.data == pool
        &&& next.user_state.key == self.user_state.key
        &&& next.user_state.data@ == user
        &&& next.staking_vault == self.staking_vault
        &&& next.reward_vault == self.reward_vault
        &&& next.user_token_account == self.user_token_account
        &&& next.user == self.user
    }
}

/// What claiming rewards needs.
pub struct Claim {
    pub staking_pool: Account<StakingPool>,
    pub reward_vault: Pubkey,
    pub user_state: Account<UserState>,
    pub user_reward_account: Account<TokenAccount>,
    pub user: Pubkey,
}

impl Claim {
    /// What has to hold between the accounts.
    pub open spec fn constraints(self, program_id: Pubkey) -> Result<(), ConstraintError> {
        let pool = self.staking_pool.key;
        all_of(
            seq![
                seeds_result(
                    self.reward_vault,
                    reward_vault_seeds(pool),
                    program_id,
                    AccountName::RewardVault,
                ),
                seeds_result(
                    self.user_state.key,
                    user_state_seeds(pool, self.user),
                    program_id,
                    AccountName::UserState,
                ),
                raw_result(self.user_state.data.owner == self.user, AccountName::UserState),
                raw_result(
                    holds_for(
                        self.user_reward_account.data,
                        self.user,
                        self.staking_pool.data.reward_mint,
                    ),
                    AccountName::UserRewardAccount,
                ),
            ],
        )
    }

    /// Tells whether the accounts belong together.
    pub fn check(&self, program_id: &Pubkey) -> (result: Result<(), ConstraintError>)
        ensures
            result == self.constraints(*program_id),
    {
        proof {
            reveal_with_fuel(all_of, 5);
        }
        check_reward_vault(&self.reward_vault, &self.staking_pool.key, program_id)?;
        check_user_state(&self.user_state.key, &self.staking_pool.key, &self.user, program_id)?;
        check_same(&self.user_state.data.owner, &self.user, AccountName::UserState)?;
        check_token_account(
            &self.user_reward_account.data,
            &self.user,
            &self.staking_pool.data.reward_mint,
            AccountName::UserRewardAccount,
        )?;
        Ok(())
    }

    /// Only the pool's figures and the user's record differ, and they are `pool` and `user`.
    pub open spec fn becomes(self, next: Claim, pool: StakingPool, user: UserView) -> bool {
        &&& next.staking_pool.key == self.staking_pool.key
        &&& next.staking_pool.data == pool
        &&& next.user_state.key == self.user_state.key
        &&& next.user_state.data@ == user
        &&& next.reward_vault == self.reward_vault
        &&& next.user_reward_account == self.user_reward_account
        &&& next.user == self.user
    }
}

/// What adding rewards needs.
pub struct AddRewards {
    pub staking_pool: Account<StakingPool>,
    pub reward_vault: Pubkey,
    pub from_account: Account<TokenAccount>,
    pub authority: Pubkey,
}

impl AddRewards {
    /// What has to hold between the accounts.
    pub open spec fn constraints(self, program_id: Pubkey) -> Result<(), ConstraintError> {
        let pool = self.staking_pool.key;
        all_of(
            seq![
                raw_result(
                    self.staking_pool.data.authority == self.authority,
                    AccountName::StakingPool,
                ),
                seeds_result(
                    self.reward_vault,
                    reward_vault_seeds(pool),
                    program_id,
                    AccountName::RewardVault,
                ),
                raw_result(
                    holds_for(
                        self.from_account.data,
                        self.authority,
                        self.staking_pool.data.reward_mint,
                    ),
                    AccountName::FromAccount,
                ),
            ],
        )
    }

    /// Tells whether the accounts belong together.
    pub fn check(&self, program_id: &Pubkey) -> (result: Result<(), ConstraintError>)
        ensures
            result == self.constraints(*program_id),
    {
        proof {
            reveal_with_fuel(all_of, 4);
        }
        check_same(&self.staking_pool.data.authority, &self.authority, AccountName::StakingPool)?;
        check_reward_vault(&self.reward_vault, &self.staking_pool.key, program_id)?;
        check_token_account(
            &self.from_account.data,
            &self.authority,
            &self.staking_pool.data.reward_mint,
            AccountName::FromAccount,
        )?;
        Ok(())
    }

    /// Only the pool's figures differ, and they are `pool`.
    pub open spec fn becomes(self, next: AddRewards, pool: StakingPool) -> bool {
        &&& next.staking_pool.key == self.staking_pool.key
        &&& next.staking_pool.data == pool
        &&& next.reward_vault == self.reward_vault
        &&& next.from_account == self.from_account
        &&& next.authority == self.authority
    }
}

/// What consolidating a user's stakes needs.
pub struct ConsolidateStakes {
    pub staking_pool: Account<StakingPool>,
    pub user_state: Account<UserState>,
    pub user: Pubkey,
}

impl ConsolidateStakes {
    /// What has to hold between the accounts.
    pub open spec fn constraints(self, program_id: Pubkey) -> Result<(), ConstraintError> {
        let pool = self.staking_pool.key;
        all_of(
            seq![
                seeds_result(
                    self.user_state.key,
                    user_state_seeds(pool, self.user),
                    program_id,
                    AccountName::UserState,
                ),
                raw_result(self.user_state.data.owner == self.user, AccountName::UserState),
            ],
        )
    }

    /// Tells whether the accounts belong together.
    pub fn check(&self, program_id: &Pubkey) -> (result: Result<(), ConstraintError>)
        ensures
            result == self.constraints(*program_id),
    {
        proof {
            reveal_with_fuel(all_of, 3);
        }
        check_user_state(&self.user_state.key, &self.staking_pool.key, &self.user, program_id)?;
        check_same(&self.user_state.data.owner, &self.user, AccountName::UserState)?;
        Ok(())
    }

    /// Only the pool's figures and the user's record differ, and they are `pool` and `user`.
    pub open spec fn becomes(self, next: ConsolidateStakes, pool: StakingPool, user: UserView) -> bool {
        &&& next.staking_pool.key == self.staking_pool.key
        &&& next.staking_pool.data == pool
        &&& next.user_state.key == self.user_state.key
        &&& next.user_state.data@ == user
        &&& next.user == self.user
    }
}

/// What taking over a record needs.
pub struct UpdateUserOwner {
    pub staking_pool: Account<StakingPool>,
    pub user_state: Account<UserState>,
    pub user: Pubkey,
}

impl UpdateUserOwner {
    /// What has to hold between the accounts.
    pub open spec fn constraints(self, program_id: Pubkey) -> Result<(), ConstraintError> {
        let pool = self.staking_pool.key;
        all_of(
            seq![
                seeds_result(
                    self.user_state.key,
                    user_state_seeds(pool, self.user),
                    program_id,
                    AccountName::UserState,
                ),
            ],
        )
    }

    /// Tells whether the accounts belong together.
    pub fn check(&self, program_id: &Pubkey) -> (result: Result<(), ConstraintError>)
        ensures
            result == self.constraints(*program_id),
    {
        proof {
            reveal_with_fuel(all_of, 2);
        }
        check_user_state(&self.user_state.key, &self.staking_pool.key, &self.user, program_id)?;
        Ok(())
    }

    /// Only the pool's figures and the user's record differ, and they are `pool` and `user`.
    pub open spec fn becomes(self, next: UpdateUserOwner, pool: StakingPool, user: UserView) -> bool {
        &&& next.staking_pool.key == self.staking_pool.key
        &&& next.staking_pool.data == pool
        &&& next.user_state.key == self.user_state.key
        &&& next.user_state.data@ == user
        &&& next.user == self.user
    }
}

} // verus!
