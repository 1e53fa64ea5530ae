//! What holds of every deposit, settlement and refund.

use vstd::prelude::*;
use crate::authorization::is_authority;
use crate::address::Address;
use crate::error::CustomError;
use crate::settlement::{
    deposit, deposited, refund, refunded, settled, settlement, PayEntry, RefundEntry, SettleMatch,
};

verus! {

/// A deposit that goes through takes from the payer what it gives to the
/// treasury.
pub proof fn deposit_conserves(ctx: PayEntry, amount: u64)
    requires
        deposit(ctx, amount) is Ok,
    ensures
        deposited(ctx, amount).payer.lamports == ctx.payer.lamports - amount,
        deposited(ctx, amount).treasury.lamports == ctx.treasury.lamports + amount,
{
}

/// In every settlement that goes through, what the winner is paid and the fee
/// add up to the whole amount, and the treasury holds afterwards what it held
/// less what the winner was paid: the fee stays in it.
pub proof fn settlement_splits_amount(
    ctx: SettleMatch,
    total_amount: u64,
    total_fee: u64,
    winner: Address,
)
    requires
        settlement(ctx, total_amount, total_fee, winner) is Ok,
    ensures
        ({
            let winner_amount = settlement(ctx, total_amount, total_fee, winner)->Ok_0;
            &&& winner_amount + total_fee == total_amount
            &&& settled(ctx, winner_amount).treasury.lamports == ctx.treasury.lamports
                - winner_amount
            &&& settled(ctx, winner_amount).winner.lamports == ctx.winner.lamports
                + winner_amount
        }),
{
}

/// A settlement by the authority, covered by the treasury and addressed to the
/// right handle, whose fee is higher than the whole amount is rejected as
/// `MathOverflow`.
pub proof fn settlement_fee_over_amount(
    ctx: SettleMatch,
    total_amount: u64,
    total_fee: u64,
    winner: Address,
)
    requires
        is_authority(ctx.config, ctx.authority),
        ctx.treasury.lamports >= total_amount,
        ctx.winner.key@ == winner@,
        total_fee > total_amount,
    ensures
        settlement(ctx, total_amount, total_fee, winner) == Err::<u64, CustomError>(
            CustomError::MathOverflow,
        ),
{
}

/// A refund by the authority to the right handle of more than the treasury
/// holds is rejected as `InsufficientFunds`.
pub proof fn refund_over_balance(ctx: RefundEntry, player: Address, amount: u64)
    requires
        is_authority(ctx.config, ctx.authority),
        ctx.player.key@ == player@,
        amount > ctx.treasury.lamports,
    ensures
        refund(ctx, player, amount) == Err::<(), CustomError>(CustomError::InsufficientFunds),
{
}

/// A refund that goes through takes from the treasury what it gives to the
/// player.
pub proof fn refund_conserves(ctx: RefundEntry, player: Address, amount: u64)
    requires
        refund(ctx, player, amount) is Ok,
    ensures
        refunded(ctx, amount).treasury.lamports == ctx.treasury.lamports - amount,
        refunded(ctx, amount).player.lamports == ctx.player.lamports + amount,
{
}

} // verus!
