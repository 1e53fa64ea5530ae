//! Accounts, instruction inputs and the records of what was moved.

use vstd::prelude::*;
use crate::address::Address;

verus! {

/// An account that can receive or pay lamports: its identity and its balance.
#[derive(Clone, Copy, Debug, PartialEq, Eq)]
pub struct Account {
    pub key: Address,
    pub lamports: u64,
}

/// The settings of the program. Only `authority` may change them.
#[derive(Clone, Copy, Debug, PartialEq, Eq)]
pub struct Config {
    pub authority: Address,
    pub casual_bet: u64,
    pub casual_fee_bps: u16,
    pub betting_fee_bps: u16,
    pub winners_mode_is_percentage: bool,
    pub winners_value: u16,
    pub reward_percentage_bps: u16,
    pub bump: u8,
}

impl Config {
    /// The bytes that a stored `Config` takes.
    pub const MAX_SIZE: usize = 32 + 8 + 2 + 2 + 1 + 2 + 2 + 1;
}

/// The pooled escrow: the bump seed of its derived address, which authorizes
/// outgoing transfers, and the balance it holds.
#[derive(Clone, Copy, Debug, PartialEq, Eq)]
pub struct Treasury {
    pub bump: u8,
    pub lamports: u64,
}

impl Treasury {
    /// The bytes that a stored `Treasury` takes.
    pub const MAX_SIZE: usize = 1;
}

/// A winner and the points that weigh its share of the reward pool.
#[derive(Clone, Copy, Debug, PartialEq, Eq)]
pub struct WinnerInput {
    pub wallet: Address,
    pub points: u64,
}

/// An insider and its share of what is left after the winners, in basis
/// points: 10,000 is all of it.
#[derive(Clone, Copy, Debug, PartialEq, Eq)]
pub struct InsiderInput {
    pub wallet: Address,
    pub share_bps: u16,
}

/// New values for some settings; a field left `None` keeps its value.
#[derive(Clone, Copy, Debug, PartialEq, Eq)]
pub struct UpdateConfigParams {
    pub casual_fee_bps: Option<u16>,
    pub betting_fee_bps: Option<u16>,
    pub winners_mode_is_percentage: Option<bool>,
    pub winners_value: Option<u16>,
    pub reward_percentage_bps: Option<u16>,
}

/// The kind of match that a settlement closes. It is recorded, never computed
/// with.
#[derive(Clone, Copy, Debug, PartialEq, Eq, Structural)]
pub enum MatchMode {
    Casual,
    Betting,
}

/// Record of an entry fee paid into the treasury.
#[derive(Clone, Copy, Debug, PartialEq, Eq)]
pub struct DepositEvent {
    pub payer: Address,
    pub amount: u64,
    pub ts: i64,
}

/// Record of a settled match.
#[derive(Clone, Debug, PartialEq, Eq)]
pub struct SettleEvent {
    pub match_id: String,
    pub total_amount: u64,
    pub total_fee: u64,
    pub mode: MatchMode,
    pub winner: Address,
    pub ts: i64,
}

/// Record of a distribution: what the winners received in total. What the
/// insiders received is not part of it.
#[derive(Clone, Copy, Debug, PartialEq, Eq)]
pub struct DistributedRewardsEvent {
    pub distributed_reward_pool: u64,
    pub ts: i64,
}

/// Record of an entry fee returned to a player.
#[derive(Clone, Debug, PartialEq, Eq)]
pub struct RefundEvent {
    pub match_id: String,
    pub player: Address,
    pub amount: u64,
    pub ts: i64,
}

} // verus!
