//! What the checks between accounts guarantee.
use crate::accounts::{
    all_of, holds_for, reward_vault_seeds, staking_pool_seeds, staking_vault_seeds,
    user_state_seeds, AddRewards, Claim, Initialize, Stake, Unstake, Withdraw,
};
use crate::event::{Action, TokenTransfer};
use crate::instructions::pool::funding;
use crate::instructions::stake::{stake_fits, stake_step};
use crate::instructions::unstake::{unstake_fits, unstake_step};
use crate::instructions::user::{claim_fits, claim_step};
use crate::instructions::withdraw::{withdraw_fits, withdraw_step};
use crate::pubkey::{program_address, Pubkey};
use anchor_lang::prelude::ProgramError;
use vstd::prelude::*;

verus! {

/// Whether `key` is the address that `seeds` derive.
pub open spec fn is_derived(key: Pubkey, seeds: Seq<Seq<u8>>, program_id: Pubkey) -> bool {
    program_address(seeds, program_id.bytes@) matches Some((address, _)) && address == key.bytes@
}

/// Whether every transfer among the steps meets a condition.
pub open spec fn all_transfers(
    actions: Seq<Action>,
    meets: spec_fn(TokenTransfer) -> bool,
) -> bool {
    forall|k: int|
        0 <= k < actions.len() ==> (#[trigger] actions[k] matches Action::Transfer(transfer)
            ==> meets(transfer))
}

/// A pool whose accounts pass the check is at the address that its seeds derive, and the bump that
/// the check gives is the one that goes with that address.
pub proof fn law_pool_signs_with_its_own_bump(accounts: Initialize, program_id: Pubkey)
    ensures
        accounts.constraints(program_id) matches Ok(bump) ==> {
            &&& program_address(staking_pool_seeds(), program_id.bytes@) == Some(
                (accounts.staking_pool.key.bytes@, bump),
            )
            &&& is_derived(
                accounts.staking_vault,
                staking_vault_seeds(accounts.staking_pool.key),
                program_id,
            )
            &&& is_derived(
                accounts.reward_vault,
                reward_vault_seeds(accounts.staking_pool.key),
                program_id,
            )
        },
{
    reveal_with_fuel(all_of, 4);
}

/// A deposit whose accounts pass the check moves only staked tokens of the user, into the pool's
/// own vault, with the user's authority.
pub proof fn law_deposit_comes_from_the_user(
    accounts: Stake,
    amount: u64,
    clock: Result<i64, ProgramError>,
    program_id: Pubkey,
)
    requires
        stake_fits(accounts, amount, clock),
        accounts.constraints(program_id) is Ok,
    ensures
        is_derived(
            accounts.staking_vault,
            staking_vault_seeds(accounts.staking_pool.key),
            program_id,
        ),
        is_derived(
            accounts.user_state.key,
            user_state_seeds(accounts.staking_pool.key, accounts.user),
            program_id,
        ),
        holds_for(
            accounts.user_token_account.data,
            accounts.user,
            accounts.staking_pool.data.staking_mint,
        ),
        all_transfers(
            stake_step(accounts, amount, clock).actions,
            |transfer: TokenTransfer|
                {
                    &&& transfer.from == accounts.user_token_account.key
                    &&& transfer.to == accounts.staking_vault
                    &&& transfer.authority == accounts.user
                    &&& transfer.amount == amount
                    &&& transfer.pool_bump is None
                },
        ),
{
    reveal_with_fuel(all_of, 4);
}

/// The first deposit enters the user as the owner of the record; an owner on file stays.
pub proof fn law_first_deposit_enters_the_owner(
    accounts: Stake,
    amount: u64,
    clock: Result<i64, ProgramError>,
)
    requires
        stake_fits(accounts, amount, clock),
        amount > 0,
    ensures
        stake_step(accounts, amount, clock).user.owner == (
        if accounts.user_state.data.owner.is_default() {
            accounts.user
        } else {
            accounts.user_state.data.owner
        }),
{
}

/// An unstake whose accounts pass the check is one of the record's owner, and pays rewards only
/// out of the pool's own reward vault into an account of that owner.
pub proof fn law_unstake_pays_the_owner(
    accounts: Unstake,
    amount: u64,
    start_index: Option<u64>,
    max_iterations: Option<u64>,
    clock: Result<i64, ProgramError>,
    program_id: Pubkey,
)
    requires
        unstake_fits(accounts, amount, start_index, max_iterations, clock),
        accounts.constraints(program_id) is Ok,
    ensures
        accounts.user_state.data.owner == accounts.user,
        is_derived(
            accounts.user_state.key,
            user_state_seeds(accounts.staking_pool.key, accounts.user),
            program_id,
        ),
        is_derived(
            accounts.reward_vault,
            reward_vault_seeds(accounts.staking_pool.key),
            program_id,
        ),
        holds_for(
            accounts.user_reward_account.data,
            accounts.user,
            accounts.staking_pool.data.reward_mint,
        ),
        all_transfers(
            unstake_step(accounts, amount, start_index, max_iterations, clock).actions,
            |transfer: TokenTransfer|
                {
                    &&& transfer.from == accounts.reward_vault
                    &&& transfer.to == accounts.user_reward_account.key
                    &&& transfer.authority == accounts.staking_pool.key
                    &&& transfer.pool_bump == Some(accounts.staking_pool.data.bump)
                },
        ),
{
    reveal_with_fuel(all_of, 7);
}

/// A withdrawal whose accounts pass the check is one of the record's owner, and pays only out of
/// the pool's own vaults into an account of that owner.
pub proof fn law_withdraw_pays_the_owner(
    accounts: Withdraw,
    max_requests: Option<u64>,
    clock: Result<i64, ProgramError>,
    program_id: Pubkey,
)
    requires
        withdraw_fits(accounts, max_requests, clock),
        accounts.constraints(program_id) is Ok,
    ensures
        accounts.user_state.data.owner == accounts.user,
        is_derived(
            accounts.user_state.key,
            user_state_seeds(accounts.staking_pool.key, accounts.user),
            program_id,
        ),
        is_derived(
            accounts.staking_vault,
            staking_vault_seeds(accounts.staking_pool.key),
            program_id,
        ),
        is_derived(
            accounts.reward_vault,
            reward_vault_seeds(accounts.staking_pool.key),
            program_id,
        ),
        holds_for(
            accounts.user_token_account.data,
            accounts.user,
            accounts.staking_pool.data.staking_mint,
        ),
        all_transfers(
            withdraw_step(accounts, max_requests, clock).actions,
            |transfer: TokenTransfer|
                {
                    &&& transfer.from == accounts.staking_vault || transfer.from
                        == accounts.reward_vault
                    &&& transfer.to == accounts.user_token_account.key
                    &&& transfer.authority == accounts.staking_pool.key
                    &&& transfer.pool_bump == Some(accounts.staking_pool.data.bump)
                },
        ),
{
    reveal_with_fuel(all_of, 6);
}

/// A claim whose accounts pass the check is one of the record's owner, and pays only out of the
/// pool's own reward vault into an account of that owner.
pub proof fn law_claim_pays_the_owner(accounts: Claim, program_id: Pubkey)
    requires
        claim_fits(accounts),
        accounts.constraints(program_id) is Ok,
    ensures
        accounts.user_state.data.owner == accounts.user,
        is_derived(
            accounts.user_state.key,
            user_state_seeds(accounts.staking_pool.key, accounts.user),
            program_id,
        ),
        is_derived(
            accounts.reward_vault,
            reward_vault_seeds(accounts.staking_pool.key),
            program_id,
        ),
        holds_for(
            accounts.user_reward_account.data,
            accounts.user,
            accounts.staking_pool.data.reward_mint,
        ),
        all_transfers(
            claim_step(accounts).actions,
            |transfer: TokenTransfer|
                {
                    &&& transfer.from == accounts.reward_vault
                    &&& transfer.to == accounts.user_reward_account.key
                    &&& transfer.authority == accounts.staking_pool.key
                    &&& transfer.pool_bump == Some(accounts.staking_pool.data.bump)
                },
        ),
{
    reveal_with_fuel(all_of, 5);
}

/// Only the pool's authority adds rewards, out of an account of its own and into the pool's own
/// reward vault.
pub proof fn law_only_the_authority_adds_rewards(
    accounts: AddRewards,
    amount: u64,
    program_id: Pubkey,
)
    requires
        accounts.constraints(program_id) is Ok,
    ensures
        accounts.authority == accounts.staking_pool.data.authority,
        is_derived(
            accounts.reward_vault,
            reward_vault_seeds(accounts.staking_pool.key),
            program_id,
        ),
        holds_for(
            accounts.from_account.data,
            accounts.authority,
            accounts.staking_pool.data.reward_mint,
        ),
        all_transfers(
            seq![funding(accounts, amount)],
            |transfer: TokenTransfer|
                {
                    &&& transfer.from == accounts.from_account.key
                    &&& transfer.to == accounts.reward_vault
                    &&& transfer.authority == accounts.authority
                    &&& transfer.amount == amount
                },
        ),
{
    reveal_with_fuel(all_of, 4);
}

} // verus!
