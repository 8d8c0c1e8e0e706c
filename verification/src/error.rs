//! The ways in which a call on the ledger is turned down.

use vstd::prelude::*;

verus! {

/// Why a call was refused. A refused call leaves the ledger as it was.
#[derive(Clone, Copy, Debug, PartialEq, Eq, Structural)]
pub enum NftError {
    /// No token has the given id.
    NotFound,
    /// The caller is not the owner of the token.
    NotOwner,
    /// The caller is not the owner and holds no approval with the given id.
    NotApproved,
    /// The caller is not the owner and gave no approval id.
    ApprovalRequired,
    /// The receiver already owns the token.
    SelfTransfer,
    /// The attached deposit does not cover what the call stores.
    PaymentRequired,
    /// The attached deposit is not exactly one yoctoNEAR.
    PaymentExact,
    /// A transfer with notification came without its fee of one yoctoNEAR.
    FeeRequired,
    /// The token pays royalties to more accounts than the caller accepts.
    TooManyRecipients,
    /// A token may not pay royalties to more than six accounts.
    TooManyRoyalties,
    /// The royalty shares add up to more than the whole.
    RoyaltyExceeded,
    /// A token with the given id exists already.
    TokenExists,
    /// The token has handed out every approval id there is.
    ApprovalIdsExhausted,
    /// The owner index and the registry disagree.
    InconsistentState,
    /// A continuation did not find exactly one result of the call before it.
    ProtocolViolation,
}

} // verus!
