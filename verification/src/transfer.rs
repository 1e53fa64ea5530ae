//! The one primitive that moves lamports between two balances.

use vstd::prelude::*;
use crate::error::CustomError;

verus! {

/// What a transfer of `amount` makes of the paying and the receiving balance:
/// the two new balances, or the reason why nothing moves.
pub open spec fn transfer_result(from: u64, to: u64, amount: u64) -> Result<(u64, u64), CustomError> {
    if from < amount {
        Err(CustomError::InsufficientFunds)
    } else if to + amount > u64::MAX {
        Err(CustomError::MathOverflow)
    } else {
        Ok(((from - amount) as u64, (to + amount) as u64))
    }
}

/// Moves `amount` from one balance to another. The two new balances are
/// computed together and returned as a pair, so a caller writes both or none.
pub fn transfer(from: u64, to: u64, amount: u64) -> (moved: Result<(u64, u64), CustomError>)
    ensures
        moved == transfer_result(from, to, amount),
{
    let new_from = match from.checked_sub(amount) {
        Some(balance) => balance,
        None => {
            return Err(CustomError::InsufficientFunds);
        },
    };
    let new_to = match to.checked_add(amount) {
        Some(balance) => balance,
        None => {
            return Err(CustomError::MathOverflow);
        },
    };
    Ok((new_from, new_to))
}

/// A transfer that succeeds takes from the payer exactly what it gives to the
/// receiver: the sum of the two balances stays the same.
pub proof fn transfer_conserves(from: u64, to: u64, amount: u64)
    requires
        transfer_result(from, to, amount) is Ok,
    ensures
        transfer_result(from, to, amount)->Ok_0.0 + transfer_result(from, to, amount)->Ok_0.1
            == from + to,
        transfer_result(from, to, amount)->Ok_0.0 == from - amount,
        transfer_result(from, to, amount)->Ok_0.1 == to + amount,
{
}

} // verus!
