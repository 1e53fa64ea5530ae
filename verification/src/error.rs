//! The rejections that an operation can end in.

use vstd::prelude::*;

verus! {

/// Why an operation was rejected as a whole.
#[derive(Clone, Copy, Debug, PartialEq, Eq, Structural)]
pub enum CustomError {
    /// The caller is not the configured authority, or an account handle does
    /// not carry the identity that the instruction names for its position.
    Unauthorized,
    /// The paying balance is lower than the amount to move.
    InsufficientFunds,
    /// An arithmetic step left the range of its integer type.
    MathOverflow,
    /// The winners' points add up to zero.
    NoPoints,
    /// The insiders' shares add up to more than 10,000 basis points.
    InvalidInsiderShares,
    /// Fewer account handles were passed than there are winners and insiders.
    MissingRemainingAccounts,
}

impl CustomError {
    /// The text shown for each rejection.
    pub open spec fn spec_message(self) -> Seq<char> {
        match self {
            CustomError::Unauthorized => "Unauthorized"@,
            CustomError::InsufficientFunds => "Insufficient funds in treasury"@,
            CustomError::MathOverflow => "Math overflow"@,
            CustomError::NoPoints => "No points"@,
            CustomError::InvalidInsiderShares => "Insider shares exceed 100% (10000 bps)"@,
            CustomError::MissingRemainingAccounts =>
                "Not enough remaining accounts passed for winners/insiders"@,
        }
    }

    /// Returns the text shown for this rejection.
    pub fn message(&self) -> (text: &'static str)
        ensures
            text@ == self.spec_message(),
    {
        match self {
            CustomError::Unauthorized => "Unauthorized",
            CustomError::InsufficientFunds => "Insufficient funds in treasury",
            CustomError::MathOverflow => "Math overflow",
            CustomError::NoPoints => "No points",
            CustomError::InvalidInsiderShares => "Insider shares exceed 100% (10000 bps)",
            CustomError::MissingRemainingAccounts =>
                "Not enough remaining accounts passed for winners/insiders",
        }
    }
}

} // verus!
