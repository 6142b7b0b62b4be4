//! What holds across the instructions.
pub mod access;
pub mod balances;
pub mod checking;
pub mod claiming;
pub mod consolidating;
pub mod payouts;
pub mod rewards;
pub mod staking;
pub mod terms;
pub mod time;
pub mod unstaking;
pub mod withdrawing;
