//! Deposits into the treasury, settlement of a match and refunds.

use vstd::prelude::*;
use crate::address::Address;
use crate::authorization::{authorize, is_authority};
use crate::error::CustomError;
use crate::state::{Account, Config, DepositEvent, MatchMode, RefundEvent, SettleEvent, Treasury};
use crate::transfer::{transfer, transfer_result};

verus! {

/// The accounts of a deposit: the treasury and the payer, who has authorized
/// the payment.
#[derive(Clone, Copy, Debug, PartialEq, Eq)]
pub struct PayEntry {
    pub treasury: Treasury,
    pub payer: Account,
}

/// The accounts of a settlement: `winner` is the handle that is to be paid,
/// `authority` the identity of the caller.
#[derive(Clone, Copy, Debug, PartialEq, Eq)]
pub struct SettleMatch {
    pub config: Config,
    pub treasury: Treasury,
    pub winner: Account,
    pub authority: Address,
}

/// The accounts of a refund: `player` is the handle that is to be paid,
/// `authority` the identity of the caller.
#[derive(Clone, Copy, Debug, PartialEq, Eq)]
pub struct RefundEntry {
    pub config: Config,
    pub treasury: Treasury,
    pub player: Account,
    pub authority: Address,
}

/// Whether a deposit of `amount` goes through, or why it is rejected: the
/// payer must hold the amount, and the treasury must be able to hold it.
pub open spec fn deposit(ctx: PayEntry, amount: u64) -> Result<(), CustomError> {
    match transfer_result(ctx.payer.lamports, ctx.treasury.lamports, amount) {
        Ok(_) => Ok(()),
        Err(e) => Err(e),
    }
}

/// What the winner of a match is paid, or why the settlement is rejected. The
/// checks come in this order: the caller, the treasury's funds for the whole
/// amount, the identity of the handle, the fee against the amount, the
/// winner's balance after the payment.
pub open spec fn settlement(
    ctx: SettleMatch,
    total_amount: u64,
    total_fee: u64,
    winner: Address,
) -> Result<u64, CustomError> {
    if !is_authority(ctx.config, ctx.authority) {
        Err(CustomError::Unauthorized)
    } else if ctx.treasury.lamports < total_amount {
        Err(CustomError::InsufficientFunds)
    } else if ctx.winner.key@ != winner@ {
        Err(CustomError::Unauthorized)
    } else if total_fee > total_amount {
        Err(CustomError::MathOverflow)
    } else if ctx.winner.lamports + (total_amount - total_fee) > u64::MAX {
        Err(CustomError::MathOverflow)
    } else {
        Ok((total_amount - total_fee) as u64)
    }
}

/// Whether a refund of `amount` to `player` goes through, or why it is
/// rejected. The checks come in this order: the caller, the identity of the
/// handle, the treasury's funds, the player's balance after the payment.
pub open spec fn refund(ctx: RefundEntry, player: Address, amount: u64) -> Result<(), CustomError> {
    if !is_authority(ctx.config, ctx.authority) {
        Err(CustomError::Unauthorized)
    } else if ctx.player.key@ != player@ {
        Err(CustomError::Unauthorized)
    } else if ctx.treasury.lamports < amount {
        Err(CustomError::InsufficientFunds)
    } else if ctx.player.lamports + amount > u64::MAX {
        Err(CustomError::MathOverflow)
    } else {
        Ok(())
    }
}

/// The accounts of a deposit after `amount` went from the payer to the
/// treasury.
pub open spec fn deposited(ctx: PayEntry, amount: u64) -> PayEntry {
    PayEntry {
        treasury: Treasury {
            bump: ctx.treasury.bump,
            lamports: (ctx.treasury.lamports + amount) as u64,
        },
        payer: Account { key: ctx.payer.key, lamports: (ctx.payer.lamports - amount) as u64 },
    }
}

/// The accounts of a settlement after `winner_amount` went from the treasury
/// to the winner.
pub open spec fn settled(ctx: SettleMatch, winner_amount: u64) -> SettleMatch {
    SettleMatch {
        config: ctx.config,
        treasury: Treasury {
            bump: ctx.treasury.bump,
            lamports: (ctx.treasury.lamports - winner_amount) as u64,
        },
        winner: Account {
            key: ctx.winner.key,
            lamports: (ctx.winner.lamports + winner_amount) as u64,
        },
        authority: ctx.authority,
    }
}

/// The accounts of a refund after `amount` went from the treasury to the
/// player.
pub open spec fn refunded(ctx: RefundEntry, amount: u64) -> RefundEntry {
    RefundEntry {
        config: ctx.config,
        treasury: Treasury {
            bump: ctx.treasury.bump,
            lamports: (ctx.treasury.lamports - amount) as u64,
        },
        player: Account {
            key: ctx.player.key,
            lamports: (ctx.player.lamports + amount) as u64,
        },
        authority: ctx.authority,
    }
}

/// Pays an entry fee of `amount` from the payer into the treasury. No fee is
/// taken. Where the payer holds less than `amount`, or the treasury cannot
/// hold more, nothing moves.
pub fn pay_entry(ctx: &mut PayEntry, amount: u64, now: i64) -> (r: Result<DepositEvent, CustomError>)
    ensures
        match deposit(*old(ctx), amount) {
            Err(e) => r is Err && r->Err_0 == e && *final(ctx) == *old(ctx),
            Ok(_) => {
                &&& r == Ok::<DepositEvent, CustomError>(
                    DepositEvent { payer: old(ctx).payer.key, amount, ts: now },
                )
                &&& *final(ctx) == deposited(*old(ctx), amount)
            },
        },
{
    let (payer_balance, treasury_balance) = match transfer(
        ctx.payer.lamports,
        ctx.treasury.lamports,
        amount,
    ) {
        Ok(balances) => balances,
        Err(e) => {
            return Err(e);
        },
    };
    ctx.payer.lamports = payer_balance;
    ctx.treasury.lamports = treasury_balance;
    Ok(DepositEvent { payer: ctx.payer.key, amount, ts: now })
}

/// Settles a finished match: pays `total_amount` less `total_fee` from the
/// treasury to the winner. The fee stays in the treasury. Only the configured
/// authority may call it, and the handle to pay must carry the identity
/// `winner`. A rejected call changes nothing.
pub fn settle_match(
    ctx: &mut SettleMatch,
    match_id: String,
    total_amount: u64,
    total_fee: u64,
    mode: MatchMode,
    winner: Address,
    now: i64,
) -> (r: Result<SettleEvent, CustomError>)
    ensures
        match settlement(*old(ctx), total_amount, total_fee, winner) {
            Err(e) => r is Err && r->Err_0 == e && *final(ctx) == *old(ctx),
            Ok(winner_amount) => {
                &&& r == Ok::<SettleEvent, CustomError>(
                    SettleEvent { match_id, total_amount, total_fee, mode, winner, ts: now },
                )
                &&& winner_amount + total_fee == total_amount
                &&& *final(ctx) == settled(*old(ctx), winner_amount)
                &&& final(ctx).treasury.lamports == old(ctx).treasury.lamports - winner_amount
            },
        },
{
    if let Err(e) = authorize(&ctx.config, &ctx.authority) {
        return Err(e);
    }
    if ctx.treasury.lamports < total_amount {
        return Err(CustomError::InsufficientFunds);
    }
    if !ctx.winner.key.same_as(&winner) {
        return Err(CustomError::Unauthorized);
    }
    let winner_amount = match total_amount.checked_sub(total_fee) {
        Some(amount) => amount,
        None => {
            return Err(CustomError::MathOverflow);
        },
    };
    let (treasury_balance, winner_balance) = match transfer(
        ctx.treasury.lamports,
        ctx.winner.lamports,
        winner_amount,
    ) {
        Ok(balances) => balances,
        Err(e) => {
            return Err(e);
        },
    };
    ctx.treasury.lamports = treasury_balance;
    ctx.winner.lamports = winner_balance;
    Ok(SettleEvent { match_id, total_amount, total_fee, mode, winner, ts: now })
}

/// Returns an entry fee of `amount` from the treasury to a player. Only the
/// configured authority may call it, and the handle to pay must carry the
/// identity `player`. A rejected call changes nothing.
pub fn refund_entry(
    ctx: &mut RefundEntry,
    match_id: String,
    player: Address,
    amount: u64,
    now: i64,
) -> (r: Result<RefundEvent, CustomError>)
    ensures
        match refund(*old(ctx), player, amount) {
            Err(e) => r is Err && r->Err_0 == e && *final(ctx) == *old(ctx),
            Ok(_) => {
                &&& r == Ok::<RefundEvent, CustomError>(
                    RefundEvent { match_id, player, amount, ts: now },
                )
                &&& *final(ctx) == refunded(*old(ctx), amount)
            },
        },
{
    if let Err(e) = authorize(&ctx.config, &ctx.authority) {
        return Err(e);
    }
    if !ctx.player.key.same_as(&player) {
        return Err(CustomError::Unauthorized);
    }
    if ctx.treasury.lamports < amount {
        return Err(CustomError::InsufficientFunds);
    }
    let (treasury_balance, player_balance) = match transfer(
        ctx.treasury.lamports,
        ctx.player.lamports,
        amount,
    ) {
        Ok(balances) => balances,
        Err(e) => {
            return Err(e);
        },
    };
    ctx.treasury.lamports = treasury_balance;
    ctx.player.lamports = player_balance;
    Ok(RefundEvent { match_id, player, amount, ts: now })
}

} // verus!
