//! Deterministic casino game execution: the game rules, their state encodings
//! and the random stream that drives them, and the decisions the execution
//! layer takes around them (settling results, progressive jackpots, the chip
//! market, staking, transaction nonces), with their contracts proved by Verus.

pub mod amm;
pub mod casino;
pub mod fixed;
pub mod layer;
pub mod moves;
pub mod retry;
pub mod settlement;
pub mod staking;
pub mod state;
pub mod tournament;
