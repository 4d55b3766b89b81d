//! The fixed choices of the runtime that hosts the factory.

use vstd::prelude::*;

verus! {

/// The shortest time between two timestamps, in milliseconds.
pub const MINIMUM_PERIOD: u64 = 6000 / 2;

/// The fee for each byte of a transaction.
pub const TRANSACTION_BYTE_FEE: u64 = 1;

/// The identifier of the chain towards the EVM.
pub const CHAIN_ID: u64 = 42;

/// The name under which the EVM module keeps its own account.
pub const EVM_MODULE_ID: [u8; 8] = [112, 121, 47, 101, 118, 109, 112, 97];

/// How many block hashes the runtime keeps.
pub const BLOCK_HASH_COUNT: u64 = 250;

/// How many locks one account of the native currency may carry.
pub const MAX_LOCKS: u32 = 50;

/// The least balance of the native currency that keeps an account alive.
pub const EXISTENTIAL_DEPOSIT: u64 = 500;

/// The call filter that lets no call through.
pub struct BlockEverything;

impl BlockEverything {
    /// Whether the call may pass: never.
    pub fn filter<C>(_call: &C) -> (allowed: bool)
        ensures
            !allowed,
    {
        false
    }
}

/// A 256-bit price in four 64-bit words, the least significant first.
#[derive(Clone, Copy, Debug, PartialEq, Eq)]
pub struct GasPrice {
    pub words: [u64; 4],
}

impl GasPrice {
    /// The number that the four words stand for.
    pub open spec fn value(self) -> nat {
        (self.words[0] + self.words[1] * 0x1_0000_0000_0000_0000 + self.words[2]
            * 0x1_0000_0000_0000_0000_0000_0000_0000_0000 + self.words[3]
            * 0x1_0000_0000_0000_0000_0000_0000_0000_0000_0000_0000_0000_0000) as nat
    }
}

/// `U256::from` of sp_core on a `u64`: the 256-bit number has the given value
/// in its lowest word and zero in the three above it.
#[verifier::external_body]
fn u256_from_u64(value: u64) -> (words: [u64; 4])
    ensures
        words@ == seq![value, 0u64, 0u64, 0u64],
{
    sp_core::U256::from(value).0
}

/// The fee calculator whose gas price never moves.
pub struct FixedGasPrice;

impl FixedGasPrice {
    /// The least price of one unit of gas: one.
    pub fn min_gas_price() -> (price: GasPrice)
        ensures
            price.value() == 1,
            price.words@ == seq![1u64, 0u64, 0u64, 0u64],
    {
        GasPrice { words: u256_from_u64(1) }
    }
}

} // verus!
