//! On-chain financial-state engine of a decentralized exchange: trade-fee
//! settlement, a time-weighted staking-reward ledger, and the one-shot
//! signature handshake that authenticates pair-registration callbacks.
//!
//! All amounts are unsigned integers; decimal quantities are integers scaled
//! by a fixed factor; every division truncates toward zero. The modules hold
//! exact contracts for each state transition so that payouts and the
//! handshake are reproducible bit for bit.

pub mod amm_pair;
pub mod factory;
pub mod math;
pub mod staking;
pub mod types;
