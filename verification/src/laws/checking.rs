//! Which accounts pass the checks, and how the others are refused.
use crate::accounts::{
    all_of, reward_vault_seeds, staking_pool_seeds, staking_vault_seeds, user_state_seeds,
    AddRewards, Claim, ConsolidateStakes, Initialize, Stake, Unstake, UpdateUserOwner, Withdraw,
    REWARD_VAULT_SEED, STAKING_POOL_SEED, STAKING_VAULT_SEED, USER_STATE_SEED,
};
use crate::error::{AccountName, ConstraintError, StakingError};
use crate::pubkey::{program_address, Pubkey};
use vstd::prelude::*;

verus! {

/// Whether `key` is the address that the program derives from `seeds`.
pub open spec fn is_at(key: Pubkey, seeds: Seq<Seq<u8>>, program_id: Pubkey) -> bool {
    &&& program_address(seeds, program_id.bytes@) is Some
    &&& program_address(seeds, program_id.bytes@).unwrap().0 == key.bytes@
}

/// How an account is refused that is not where `seeds` lead.
pub open spec fn misplaced(
    seeds: Seq<Seq<u8>>,
    program_id: Pubkey,
    name: AccountName,
) -> ConstraintError {
    if program_address(seeds, program_id.bytes@) is Some {
        ConstraintError::Seeds(name)
    } else {
        ConstraintError::NoAddress(name)
    }
}

/// The seeds of the pool: the text `staking_pool_v2`.
pub open spec fn pool_place() -> Seq<Seq<u8>> {
    seq![
        seq![
            115u8, 116u8, 97u8, 107u8, 105u8, 110u8, 103u8, 95u8, 112u8, 111u8, 111u8, 108u8, 95u8,
            118u8, 50u8,
        ],
    ]
}

/// The seeds of a pool's staking vault: the text `staking_vault` and the pool's address.
pub open spec fn staking_vault_place(pool: Pubkey) -> Seq<Seq<u8>> {
    seq![
        seq![
            115u8, 116u8, 97u8, 107u8, 105u8, 110u8, 103u8, 95u8, 118u8, 97u8, 117u8, 108u8, 116u8,
        ],
        pool.bytes@,
    ]
}

/// The seeds of a pool's reward vault: the text `reward_vault` and the pool's address.
pub open spec fn reward_vault_place(pool: Pubkey) -> Seq<Seq<u8>> {
    seq![
        seq![
            114u8, 101u8, 119u8, 97u8, 114u8, 100u8, 95u8, 118u8, 97u8, 117u8, 108u8, 116u8,
        ],
        pool.bytes@,
    ]
}

/// The seeds of a user's record: the text `user_state` and the addresses of pool and user.
pub open spec fn user_state_place(pool: Pubkey, user: Pubkey) -> Seq<Seq<u8>> {
    seq![
        seq![117u8, 115u8, 101u8, 114u8, 95u8, 115u8, 116u8, 97u8, 116u8, 101u8],
        pool.bytes@,
        user.bytes@,
    ]
}

/// The checks go by these seeds.
proof fn lemma_places(pool: Pubkey, user: Pubkey)
    ensures
        staking_pool_seeds() == pool_place(),
        staking_vault_seeds(pool) == staking_vault_place(pool),
        reward_vault_seeds(pool) == reward_vault_place(pool),
        user_state_seeds(pool, user) == user_state_place(pool, user),
{
    assert(STAKING_POOL_SEED@ =~= pool_place()[0]);
    assert(STAKING_VAULT_SEED@ =~= staking_vault_place(pool)[0]);
    assert(REWARD_VAULT_SEED@ =~= reward_vault_place(pool)[0]);
    assert(USER_STATE_SEED@ =~= user_state_place(pool, user)[0]);
    assert(staking_pool_seeds() =~= pool_place());
    assert(staking_vault_seeds(pool) =~= staking_vault_place(pool));
    assert(reward_vault_seeds(pool) =~= reward_vault_place(pool));
    assert(user_state_seeds(pool, user) =~= user_state_place(pool, user));
}

/// Setting up a pool passes exactly where pool and vaults are at their addresses, and gives the
/// bump of the pool's address.
pub proof fn law_initialize_check(accounts: Initialize, program_id: Pubkey)
    ensures
        accounts.constraints(program_id) == if !is_at(
            accounts.staking_pool.key,
            pool_place(),
            program_id,
        ) {
            Err(misplaced(pool_place(), program_id, AccountName::StakingPool))
        } else if !is_at(
            accounts.staking_vault,
            staking_vault_place(accounts.staking_pool.key),
            program_id,
        ) {
            Err(
                misplaced(
                    staking_vault_place(accounts.staking_pool.key),
                    program_id,
                    AccountName::StakingVault,
                ),
            )
        } else if !is_at(
            accounts.reward_vault,
            reward_vault_place(accounts.staking_pool.key),
            program_id,
        ) {
            Err(
                misplaced(
                    reward_vault_place(accounts.staking_pool.key),
                    program_id,
                    AccountName::RewardVault,
                ),
            )
        } else {
            Ok(program_address(pool_place(), program_id.bytes@).unwrap().1)
        },
{
    lemma_places(accounts.staking_pool.key, accounts.authority);
    reveal_with_fuel(all_of, 4);
}

/// A deposit passes exactly where the record is the user's, the vault is the pool's, and the token
/// account is the user's and holds the staked token.
///
/// The first condition that fails decides how other accounts are refused.
pub proof fn law_deposit_check(accounts: Stake, program_id: Pubkey)
    ensures
        accounts.constraints(program_id) == if !is_at(
            accounts.user_state.key,
            user_state_place(accounts.staking_pool.key, accounts.user),
            program_id,
        ) {
            Err(
                misplaced(
                    user_state_place(accounts.staking_pool.key, accounts.user),
                    program_id,
                    AccountName::UserState,
                ),
            )
        } else if !is_at(
            accounts.staking_vault,
            staking_vault_place(accounts.staking_pool.key),
            program_id,
        ) {
            Err(
                misplaced(
                    staking_vault_place(accounts.staking_pool.key),
                    program_id,
                    AccountName::StakingVault,
                ),
            )
        } else if !(accounts.user_token_account.data.owner == accounts.user
            && accounts.user_token_account.data.mint == accounts.staking_pool.data.staking_mint) {
            Err(ConstraintError::Raw(AccountName::UserTokenAccount))
        } else {
            Ok(())
        },
{
    lemma_places(accounts.staking_pool.key, accounts.user);
    reveal_with_fuel(all_of, 4);
}

/// Taking back passes exactly where both vaults are the pool's, the record is the user's and names
/// them as its owner, and both token accounts are the user's and hold the right tokens.
///
/// The first condition that fails decides how other accounts are refused.
pub proof fn law_unstake_check(accounts: Unstake, program_id: Pubkey)
    ensures
        accounts.constraints(program_id) == if !is_at(
            accounts.staking_vault,
            staking_vault_place(accounts.staking_pool.key),
            program_id,
        ) {
            Err(
                misplaced(
                    staking_vault_place(accounts.staking_pool.key),
                    program_id,
                    AccountName::StakingVault,
                ),
            )
        } else if !is_at(
            accounts.reward_vault,
            reward_vault_place(accounts.staking_pool.key),
            program_id,
        ) {
            Err(
                misplaced(
                    reward_vault_place(accounts.staking_pool.key),
                    program_id,
                    AccountName::RewardVault,
                ),
            )
        } else if !is_at(
            accounts.user_state.key,
            user_state_place(accounts.staking_pool.key, accounts.user),
            program_id,
        ) {
            Err(
                misplaced(
                    user_state_place(accounts.staking_pool.key, accounts.user),
                    program_id,
                    AccountName::UserState,
                ),
            )
        } else if accounts.user_state.data.owner != accounts.user {
            Err(ConstraintError::Raw(AccountName::UserState))
        } else if !(accounts.user_token_account.data.owner == accounts.user
            && accounts.user_token_account.data.mint == accounts.staking_pool.data.staking_mint) {
            Err(ConstraintError::Raw(AccountName::UserTokenAccount))
        } else if !(accounts.user_reward_account.data.owner == accounts.user
            && accounts.user_reward_account.data.mint == accounts.staking_pool.data.reward_mint) {
            Err(ConstraintError::Raw(AccountName::UserRewardAccount))
        } else {
            Ok(())
        },
{
    lemma_places(accounts.staking_pool.key, accounts.user);
    reveal_with_fuel(all_of, 7);
}

/// A withdrawal passes exactly where both vaults are the pool's, the record is the user's and names
/// them as its owner, and the token account is the user's and holds the staked token.
///
/// The first condition that fails decides how other accounts are refused.
pub proof fn law_withdrawal_check(accounts: Withdraw, program_id: Pubkey)
    ensures
        accounts.constraints(program_id) == if !is_at(
            accounts.staking_vault,
            staking_vault_place(accounts.staking_pool.key),
            program_id,
        ) {
            Err(
                misplaced(
                    staking_vault_place(accounts.staking_pool.key),
                    program_id,
                    AccountName::StakingVault,
                ),
            )
        } else if !is_at(
            accounts.reward_vault,
            reward_vault_place(accounts.staking_pool.key),
            program_id,
        ) {
            Err(
                misplaced(
                    reward_vault_place(accounts.staking_pool.key),
                    program_id,
                    AccountName::RewardVault,
                ),
            )
        } else if !is_at(
            accounts.user_state.key,
            user_state_place(accounts.staking_pool.key, accounts.user),
            program_id,
        ) {
            Err(
                misplaced(
                    user_state_place(accounts.staking_pool.key, accounts.user),
                    program_id,
                    AccountName::UserState,
                ),
            )
        } else if accounts.user_state.data.owner != accounts.user {
            Err(ConstraintError::Raw(AccountName::UserState))
        } else if !(accounts.user_token_account.data.owner == accounts.user
            && accounts.user_token_account.data.mint == accounts.staking_pool.data.staking_mint) {
            Err(ConstraintError::Raw(AccountName::UserTokenAccount))
        } else {
            Ok(())
        },
{
    lemma_places(accounts.staking_pool.key, accounts.user);
    reveal_with_fuel(all_of, 6);
}

/// A claim passes exactly where the vault is the pool's, the record is the user's and names them as
/// its owner, and the token account is the user's and holds the reward token.
///
/// The first condition that fails decides how other accounts are refused.
pub proof fn law_claim_check(accounts: Claim, program_id: Pubkey)
    ensures
        accounts.constraints(program_id) == if !is_at(
            accounts.reward_vault,
            reward_vault_place(accounts.staking_pool.key),
            program_id,
        ) {
            Err(
                misplaced(
                    reward_vault_place(accounts.staking_pool.key),
                    program_id,
                    AccountName::RewardVault,
                ),
            )
        } else if !is_at(
            accounts.user_state.key,
            user_state_place(accounts.staking_pool.key, accounts.user),
            program_id,
        ) {
            Err(
                misplaced(
                    user_state_place(accounts.staking_pool.key, accounts.user),
                    program_id,
                    AccountName::UserState,
                ),
            )
        } else if accounts.user_state.data.owner != accounts.user {
            Err(ConstraintError::Raw(AccountName::UserState))
        } else if !(accounts.user_reward_account.data.owner == accounts.user
            && accounts.user_reward_account.data.mint == accounts.staking_pool.data.reward_mint) {
            Err(ConstraintError::Raw(AccountName::UserRewardAccount))
        } else {
            Ok(())
        },
{
    lemma_places(accounts.staking_pool.key, accounts.user);
    reveal_with_fuel(all_of, 5);
}

/// Adding rewards passes exactly for the pool's authority, with the pool's vault and an account of
/// the authority that holds the reward token.
///
/// The first condition that fails decides how other accounts are refused.
pub proof fn law_add_rewards_check(accounts: AddRewards, program_id: Pubkey)
    ensures
        accounts.constraints(program_id) == if accounts.staking_pool.data.authority
            != accounts.authority {
            Err(ConstraintError::Raw(AccountName::StakingPool))
        } else if !is_at(
            accounts.reward_vault,
            reward_vault_place(accounts.staking_pool.key),
            program_id,
        ) {
            Err(
                misplaced(
                    reward_vault_place(accounts.staking_pool.key),
                    program_id,
                    AccountName::RewardVault,
                ),
            )
        } else if !(accounts.from_account.data.owner == accounts.authority
            && accounts.from_account.data.mint == accounts.staking_pool.data.reward_mint) {
            Err(ConstraintError::Raw(AccountName::FromAccount))
        } else {
            Ok(())
        },
{
    lemma_places(accounts.staking_pool.key, accounts.authority);
    reveal_with_fuel(all_of, 4);
}

/// Consolidating passes exactly where the record is the user's and names them as its owner.
///
/// The first condition that fails decides how other accounts are refused.
pub proof fn law_consolidate_check(accounts: ConsolidateStakes, program_id: Pubkey)
    ensures
        accounts.constraints(program_id) == if !is_at(
            accounts.user_state.key,
            user_state_place(accounts.staking_pool.key, accounts.user),
            program_id,
        ) {
            Err(
                misplaced(
                    user_state_place(accounts.staking_pool.key, accounts.user),
                    program_id,
                    AccountName::UserState,
                ),
            )
        } else if accounts.user_state.data.owner != accounts.user {
            Err(ConstraintError::Raw(AccountName::UserState))
        } else {
            Ok(())
        },
{
    lemma_places(accounts.staking_pool.key, accounts.user);
    reveal_with_fuel(all_of, 3);
}

/// Taking over a record passes exactly where the record is at the user's address.
///
/// The first condition that fails decides how other accounts are refused.
pub proof fn law_update_owner_check(accounts: UpdateUserOwner, program_id: Pubkey)
    ensures
        accounts.constraints(program_id) == if !is_at(
            accounts.user_state.key,
            user_state_place(accounts.staking_pool.key, accounts.user),
            program_id,
        ) {
            Err(
                misplaced(
                    user_state_place(accounts.staking_pool.key, accounts.user),
                    program_id,
                    AccountName::UserState,
                ),
            )
        } else {
            Ok(())
        },
{
    lemma_places(accounts.staking_pool.key, accounts.user);
    reveal_with_fuel(all_of, 2);
}

/// The text of an error tells the user which rule was broken.
pub proof fn law_texts_name_the_broken_rule(error: StakingError)
    ensures
        error.text() == "Cannot stake zero amount"@ <==> error is CannotStakeZero,
        error.text() == "Cannot unstake zero amount"@ <==> error is CannotUnstakeZero,
        error.text() == "Insufficient balance"@ <==> error is InsufficientBalance,
        error.text() == "Insufficient unlocked stakes"@ <==> error is InsufficientUnlockedStakes,
        error.text() == "No withdrawable amount"@ <==> error is NoWithdrawableAmount,
        error.text() == "Arithmetic overflow"@ <==> error is ArithmeticOverflow,
        error.text() == "Too many active stakes, please consolidate first"@ <==> error
            is TooManyActiveStakes,
        error.text() == "Invalid start index"@ <==> error is InvalidStartIndex,
        error.text() == "No unlocked stakes in this batch"@ <==> error is NoUnlockedStakesInBatch,
        error.text() == "Invalid time window"@ <==> error is InvalidTimeWindow,
{
    reveal_strlit("Cannot stake zero amount");
    reveal_strlit("Cannot unstake zero amount");
    reveal_strlit("Insufficient balance");
    reveal_strlit("Insufficient unlocked stakes");
    reveal_strlit("No withdrawable amount");
    reveal_strlit("Arithmetic overflow");
    reveal_strlit("Too many active stakes, please consolidate first");
    reveal_strlit("Invalid start index");
    reveal_strlit("No unlocked stakes in this batch");
    reveal_strlit("Invalid time window");
    assert(error.text().len() == match error {
        StakingError::CannotStakeZero => 24nat,
        StakingError::CannotUnstakeZero => 26,
        StakingError::InsufficientBalance => 20,
        StakingError::InsufficientUnlockedStakes => 28,
        StakingError::NoWithdrawableAmount => 22,
        StakingError::ArithmeticOverflow => 19,
        StakingError::TooManyActiveStakes => 48,
        StakingError::InvalidStartIndex => 19,
        StakingError::NoUnlockedStakesInBatch => 32,
        StakingError::InvalidTimeWindow => 19,
    });
    assert(error is ArithmeticOverflow ==> error.text()[0] == 'A');
    assert(error is InvalidStartIndex ==> error.text()[0] == 'I' && error.text()[8] == 's');
    assert(error is InvalidTimeWindow ==> error.text()[0] == 'I' && error.text()[8] == 't');
}

} // verus!
