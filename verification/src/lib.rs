//! The rules of a staking program with a running reward index.
//!
//! Users stake tokens into a pool and earn rewards in proportion to what they hold there and to
//! how far the pool's reward index moves meanwhile. A stake is locked for a while; what is taken
//! back after that waits through an unbonding period before it can be withdrawn.
//!
//! - `state`, `event` and `error` hold the data.
//! - `rewards`, `stakes`, `consolidation` and `unbonding` hold the rules.
//! - `accounts` says which accounts an instruction is given and what has to hold between them.
//! - `instructions` puts the rules together.
//! - `laws` proves what holds across instructions.
//! - `pubkey` and `clock` touch the runtime.
pub mod accounts;
pub mod clock;
pub mod consolidation;
pub mod error;
pub mod event;
pub mod instructions;
pub mod laws;
pub mod pubkey;
pub mod rewards;
pub mod stakes;
pub mod state;
pub mod unbonding;
