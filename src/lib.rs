//! Tokenized-vault accounting: a share ledger, the share/asset conversion
//! engine, and the deposit/mint/withdraw/redeem and transfer operations.
pub mod convert;
pub mod error;
pub mod ledger;
pub mod table;
pub mod vault;

pub use error::Error;
pub use ledger::Ledger;
pub use vault::VaultContract;
