//! Escrow and payout engine for match entry fees.
//!
//! The crate keeps a pooled treasury balance, settles single-winner matches,
//! refunds entries and distributes a reward pool over winners and insiders.
//! Every operation either applies all of its balance changes or none.

pub mod address;
pub mod admin;
pub mod authorization;
pub mod distribution;
pub mod distribution_laws;
pub mod error;
pub mod laws;
pub mod settlement;
pub mod state;
pub mod transfer;
