//! The instructions of the program.
//!
//! An instruction works on the accounts in memory and lists, in `actions`, the transfers and log
//! entries that the chain carries out for it. Where it ends in an error the chain keeps none of
//! what it wrote.
//!
//! A number that exceeds its type aborts the program. The `*_fits` conditions say for which
//! requests that does not happen, and the `check_*_fits` functions decide them.
use crate::error::{Rejection, StakingError};
use crate::event::Action;
use crate::state::{StakingPool, UserView};
use vstd::prelude::*;

pub mod pool;
pub mod stake;
pub mod unstake;
pub mod user;
pub mod withdraw;

verus! {

/// What an instruction leaves: the pool, the user's record, the steps for the chain, and the
/// answer.
#[verifier::ext_equal]
pub struct Step {
    pub pool: StakingPool,
    pub user: UserView,
    pub actions: Seq<Action>,
    pub result: Result<(), Rejection>,
}

/// An answer that names the broken rule.
pub open spec fn refusal(error: StakingError) -> Result<(), Rejection> {
    Err(Rejection::Staking(error))
}

/// The number that the caller gave, or the default.
pub open spec fn or_default(given: Option<u64>, default: u64) -> u64 {
    match given {
        Some(number) => number,
        None => default,
    }
}

/// The number that the caller gave, or the default.
pub(crate) fn given_or(given: Option<u64>, default: u64) -> (number: u64)
    ensures
        number == or_default(given, default),
{
    match given {
        Some(number) => number,
        None => default,
    }
}

} // verus!
