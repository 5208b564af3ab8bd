//! The records the ledger stores and the errors its operations return.

use vstd::prelude::*;

verus! {

/// Identifies an account. Accounts are external identities; the ledger only
/// compares them.
pub type AccountId = u64;

/// Identifies a class of tokens. Allocated monotonically, never reused.
pub type ClassId = u64;

/// Identifies a token within its class. Allocated monotonically per class,
/// never reused within that class.
pub type TokenId = u64;

/// What is stored for a class.
#[derive(Debug, Clone, PartialEq, Eq)]
pub struct ClassInfo {
    /// Class metadata, an opaque byte sequence.
    pub metadata: Vec<u8>,
    /// Count of currently-live tokens in the class.
    pub total_issuance: u64,
    /// The account that owns the class.
    pub owner: AccountId,
    /// Opaque class-level payload.
    pub data: Vec<u8>,
}

/// What is stored for a token.
#[derive(Debug, Clone, PartialEq, Eq)]
pub struct TokenInfo {
    /// Token metadata, an opaque byte sequence.
    pub metadata: Vec<u8>,
    /// The distinct current owners, sorted in increasing order.
    pub owners: Vec<AccountId>,
    /// Opaque token-level payload.
    pub data: Vec<u8>,
}

/// What is stored for one (account, token) ownership record.
#[derive(Debug, Clone, Copy, PartialEq, Eq, Structural)]
pub struct TokenByOwnerData {
    /// The percentage of the token the account owns, between 1 and 100.
    /// A share of 0 is never stored: the record is removed instead.
    pub percent_owned: u8,
}

/// Why a ledger operation was refused. The failed operation leaves the
/// ledger exactly as it was.
#[derive(Debug, Clone, Copy, PartialEq, Eq, Structural)]
pub enum Error {
    /// The class identifier counter would overflow.
    NoAvailableClassId,
    /// The class's token identifier counter would overflow.
    NoAvailableTokenId,
    /// The referenced token does not exist.
    TokenNotFound,
    /// The referenced class does not exist.
    ClassNotFound,
    /// The caller lacks the required relationship to the class or token.
    NoPermission,
    /// An issuance counter would overflow or underflow.
    NumOverflow,
    /// The class still has live tokens.
    CannotDestroyClass,
    /// The sender holds less of the token than the transfer asks for.
    SenderInsufficientPercentage,
    /// The transfer asks for a percentage of zero.
    WrongArguments,
}

} // verus!
