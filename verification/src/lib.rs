//! A fractional-ownership token ledger.
//!
//! Tokens are grouped into classes. Each token can be owned by several
//! accounts at once, every owner holding an integer percentage of it; the
//! percentages of a token's owners always sum to exactly 100. The ledger
//! keeps two redundant views of ownership — the sorted owner list stored on
//! each token, and a percentage record per (account, token) pair — and the
//! lifecycle operations (create class, mint, transfer, burn, destroy class)
//! keep the two views consistent at all times.

pub mod genesis;
pub mod kv;
pub mod laws;
pub mod ops;
pub mod pallet;
pub mod tally;
pub mod types;

pub use genesis::GenesisConfig;
pub use genesis::GenesisTokenData;
pub use genesis::GenesisTokens;
pub use kv::kv_distinct;
pub use kv::kv_find;
pub use kv::kv_has;
pub use pallet::strictly_sorted;
pub use pallet::Pallet;
pub use types::AccountId;
pub use types::ClassId;
pub use types::ClassInfo;
pub use types::Error;
pub use types::TokenByOwnerData;
pub use types::TokenId;
pub use types::TokenInfo;
