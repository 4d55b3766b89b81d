//! The reasons for which the ledger refuses a call.

use vstd::prelude::*;

verus! {

/// Why a call was refused. A refused call changes nothing and emits nothing.
#[derive(Clone, Copy, Debug, PartialEq, Eq, Structural)]
pub enum LedgerError {
    /// No token of that identifier has been created.
    UnknownToken,
    /// A token of that identifier exists already.
    AlreadyExists,
    /// An amount would leave the range of a balance.
    Overflow,
    /// The account holds less than the amount asked for.
    InsufficientBalance,
    /// The caller may not change the supply of the token.
    NotAuthorized,
}

} // verus!
