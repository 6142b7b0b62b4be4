//! Why a request is turned down.
use anchor_lang::prelude::ProgramError;
use vstd::prelude::*;

verus! {

/// A rule of the staking program that a request breaks.
#[derive(Clone, Copy, Debug, PartialEq, Eq, Structural)]
pub enum StakingError {
    CannotStakeZero,
    CannotUnstakeZero,
    InsufficientBalance,
    InsufficientUnlockedStakes,
    NoWithdrawableAmount,
    ArithmeticOverflow,
    TooManyActiveStakes,
    InvalidStartIndex,
    NoUnlockedStakesInBatch,
    InvalidTimeWindow,
}

impl StakingError {
    /// The text shown to the user.
    pub open spec fn text(self) -> Seq<char> {
        match self {
            StakingError::CannotStakeZero => "Cannot stake zero amount"@,
            StakingError::CannotUnstakeZero => "Cannot unstake zero amount"@,
            StakingError::InsufficientBalance => "Insufficient balance"@,
            StakingError::InsufficientUnlockedStakes => "Insufficient unlocked stakes"@,
            StakingError::NoWithdrawableAmount => "No withdrawable amount"@,
            StakingError::ArithmeticOverflow => "Arithmetic overflow"@,
            StakingError::TooManyActiveStakes => "Too many active stakes, please consolidate first"@,
            StakingError::InvalidStartIndex => "Invalid start index"@,
            StakingError::NoUnlockedStakesInBatch => "No unlocked stakes in this batch"@,
            StakingError::InvalidTimeWindow => "Invalid time window"@,
        }
    }

    /// The text shown to the user.
    pub fn message(&self) -> (message: &'static str)
        ensures
            message@ == self.text(),
    {
        match self {
            StakingError::CannotStakeZero => "Cannot stake zero amount",
            StakingError::CannotUnstakeZero => "Cannot unstake zero amount",
            StakingError::InsufficientBalance => "Insufficient balance",
            StakingError::InsufficientUnlockedStakes => "Insufficient unlocked stakes",
            StakingError::NoWithdrawableAmount => "No withdrawable amount",
            StakingError::ArithmeticOverflow => "Arithmetic overflow",
            StakingError::TooManyActiveStakes => "Too many active stakes, please consolidate first",
            StakingError::InvalidStartIndex => "Invalid start index",
            StakingError::NoUnlockedStakesInBatch => "No unlocked stakes in this batch",
            StakingError::InvalidTimeWindow => "Invalid time window",
        }
    }
}

/// Why an instruction ends without being carried out.
#[derive(Debug, PartialEq)]
pub enum Rejection {
    /// The request breaks a rule of the program.
    Staking(StakingError),
    /// The runtime did not serve the clock; its error is passed on.
    Clock(ProgramError),
}

/// An account that an instruction is given.
#[derive(Clone, Copy, Debug, PartialEq, Eq, Structural)]
pub enum AccountName {
    StakingPool,
    StakingVault,
    RewardVault,
    UserState,
    UserTokenAccount,
    UserRewardAccount,
    FromAccount,
}

/// Why the accounts given to an instruction do not belong together.
#[derive(Clone, Copy, Debug, PartialEq, Eq, Structural)]
pub enum ConstraintError {
    /// The account is not at the address that its seeds derive.
    Seeds(AccountName),
    /// What the account holds does not agree with the other accounts.
    Raw(AccountName),
    /// No address can be derived from the account's seeds.
    NoAddress(AccountName),
}

} // verus!
