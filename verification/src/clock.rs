//! The cluster's clock.
use anchor_lang::prelude::ProgramError;
use vstd::prelude::*;

verus! {

/// The error with which the runtime refuses a request of the program; nothing in it is read.
#[verifier::external_type_specification]
#[verifier::external_body]
pub struct ExProgramError(anchor_lang::prelude::ProgramError);

/// Calls `Clock::get` of `anchor_lang::prelude` and picks `unix_timestamp`.
///
/// Trusted: only that the call returns. Which second it gives, and whether the runtime serves the
/// request at all, rests on the machine that runs the program, so nothing is claimed of either.
#[verifier::external_body]
pub(crate) fn unix_timestamp() -> Result<i64, ProgramError> {
    <anchor_lang::prelude::Clock as anchor_lang::prelude::SolanaSysvar>::get().map(
        |clock| clock.unix_timestamp,
    )
}

} // verus!
