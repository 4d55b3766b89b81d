//! Account identities and the bridge from the external address space.

use vstd::prelude::*;
use vstd::std_specs::cmp::PartialEqSpecImpl;

verus! {

/// A 160-bit address naming one participant of the ledger. The bytes stand in
/// the order in which an EVM address is written, most significant first.
#[derive(Clone, Copy, Debug, Eq)]
pub struct AccountId {
    pub bytes: [u8; 20],
}

/// An address as the EVM side hands it over. Both address spaces coincide.
pub type ExternalAddress = AccountId;

impl PartialEq for AccountId {
    /// Compares the twenty bytes one by one.
    fn eq(&self, other: &AccountId) -> (same: bool) {
        let mut i: usize = 0;
        while i < 20
            invariant
                i <= 20,
                forall|j: int| 0 <= j < i ==> self.bytes[j] == other.bytes[j],
            decreases 20 - i,
        {
            if self.bytes[i] != other.bytes[i] {
                return false;
            }
            i += 1;
        }
        assert(self.bytes =~= other.bytes);
        true
    }
}

impl PartialEqSpecImpl for AccountId {
    open spec fn obeys_eq_spec() -> bool {
        true
    }

    open spec fn eq_spec(&self, other: &AccountId) -> bool {
        *self == *other
    }
}

impl AccountId {
    /// The address whose bytes are all zero.
    pub fn zero() -> (account: AccountId)
        ensures
            forall|i: int| 0 <= i < 20 ==> account.bytes[i] == 0,
    {
        AccountId { bytes: [0u8; 20] }
    }

    /// The address with the given bytes.
    pub fn from_bytes(bytes: [u8; 20]) -> (account: AccountId)
        ensures
            account.bytes == bytes,
    {
        AccountId { bytes }
    }

    /// The bytes of the address.
    pub fn to_bytes(&self) -> (bytes: [u8; 20])
        ensures
            bytes == self.bytes,
    {
        self.bytes
    }
}

/// The address bridge of this configuration: an external address is the
/// account of the same bytes.
pub struct AccountToH160;

impl AccountToH160 {
    /// The account that an external address stands for.
    pub open spec fn to_account(identity: ExternalAddress) -> AccountId {
        identity
    }

    /// Maps an external address to the account it names. Nothing is read or
    /// changed besides the argument.
    pub fn convert(from: ExternalAddress) -> (to: AccountId)
        ensures
            to == Self::to_account(from),
    {
        from
    }

    /// Two external addresses that name the same account are the same address.
    pub proof fn lemma_injective(a: ExternalAddress, b: ExternalAddress)
        requires
            Self::to_account(a) == Self::to_account(b),
        ensures
            a == b,
    {
    }
}

} // verus!
