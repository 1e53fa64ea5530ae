//! Who may call a privileged operation.

use vstd::prelude::*;
use crate::address::Address;
use crate::error::CustomError;
use crate::state::Config;

verus! {

/// Whether `caller` is the authority that the settings record.
pub open spec fn is_authority(config: Config, caller: Address) -> bool {
    config.authority@ == caller@
}

/// The answer to a caller: the authority passes, every other caller is rejected
/// as `Unauthorized`.
pub open spec fn authorization(config: Config, caller: Address) -> Result<(), CustomError> {
    if is_authority(config, caller) {
        Ok(())
    } else {
        Err(CustomError::Unauthorized)
    }
}

/// Lets only the configured authority pass.
pub fn authorize(config: &Config, caller: &Address) -> (r: Result<(), CustomError>)
    ensures
        r == authorization(*config, *caller),
{
    if config.authority.same_as(caller) {
        Ok(())
    } else {
        Err(CustomError::Unauthorized)
    }
}

} // verus!
