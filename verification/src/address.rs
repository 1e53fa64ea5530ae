//! Account identities and program-derived addresses.

use vstd::prelude::*;

verus! {

/// The identity of an account: 32 bytes.
#[derive(Clone, Copy, Debug, PartialEq, Eq, Hash)]
pub struct Address {
    pub bytes: [u8; 32],
}

impl View for Address {
    type V = Seq<u8>;

    open spec fn view(&self) -> Seq<u8> {
        self.bytes@
    }
}

impl Address {
    /// Wraps 32 bytes as an identity.
    pub fn new(bytes: [u8; 32]) -> (address: Address)
        ensures
            address@ == bytes@,
            address.bytes == bytes,
    {
        Address { bytes }
    }

    /// Tells whether two identities are the same, byte for byte.
    pub fn same_as(&self, other: &Address) -> (same: bool)
        ensures
            same == (self@ == other@),
    {
        let mut i: usize = 0;
        while i < 32
            invariant
                i <= 32,
                forall|k: int| 0 <= k < i ==> self.bytes@[k] == other.bytes@[k],
            decreases 32 - i,
        {
            if self.bytes[i] != other.bytes[i] {
                return false;
            }
            i += 1;
        }
        assert(self.bytes@ =~= other.bytes@);
        true
    }
}

/// The address and bump seed that `Pubkey::try_find_program_address` of
/// `anchor_lang` derives for one seed under a program, or `None` where it
/// finds no bump seed or the seed is longer than it accepts.
pub uninterp spec fn program_address(seed: Seq<u8>, program_id: Seq<u8>) -> Option<(Seq<u8>, u8)>;

/// Calls `Pubkey::try_find_program_address` with the single seed `seed`. The
/// derivation hashes the seed, a bump seed and the program's identity and needs
/// nothing but its arguments, so its result is named by `program_address`.
/// Nothing is proved of it: the contract is taken on trust.
#[verifier::external_body]
pub(crate) fn try_find_program_address(seed: &[u8], program_id: &Address) -> (found: Option<
    (Address, u8),
>)
    ensures
        match found {
            Some((address, bump)) => program_address(seed@, program_id@) == Some((address@, bump)),
            None => program_address(seed@, program_id@).is_none(),
        },
{
    anchor_lang::prelude::Pubkey::try_find_program_address(
        &[seed],
        &anchor_lang::prelude::Pubkey::new_from_array(program_id.bytes),
    ).map(|(key, bump)| (Address { bytes: key.to_bytes() }, bump))
}

} // verus!
