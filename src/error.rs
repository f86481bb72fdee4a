//! Failures of vault and ledger operations.
use vstd::prelude::*;

verus! {

/// Why an operation was refused. A refused operation changes nothing.
#[derive(Clone, Copy, Debug, PartialEq, Eq, Structural)]
pub enum Error {
    /// The asset amount given or computed is not positive.
    ZeroAssets,
    /// The share amount given or computed is not positive.
    ZeroShares,
    /// A debit exceeds the account's balance.
    InsufficientBalance,
    /// A delegated spend exceeds the granted allowance.
    InsufficientAllowance,
    /// The vault was already initialized.
    InvalidAddress,
    /// An amount would leave the representable range.
    Overflow,
}

impl Error {
    /// The numeric error code under which the failure is reported.
    pub fn code(&self) -> (r: u32)
        ensures
            r == match *self {
                Error::ZeroAssets => 1u32,
                Error::ZeroShares => 2,
                Error::InsufficientBalance => 3,
                Error::InsufficientAllowance => 4,
                Error::InvalidAddress => 5,
                Error::Overflow => 6,
            },
    {
        match self {
            Error::ZeroAssets => 1,
            Error::ZeroShares => 2,
            Error::InsufficientBalance => 3,
            Error::InsufficientAllowance => 4,
            Error::InvalidAddress => 5,
            Error::Overflow => 6,
        }
    }
}

} // verus!
