//! The error taxonomy shared by every vault operation.

use vstd::prelude::*;

verus! {

/// Why a vault operation was rejected.  Every failing operation leaves the
/// vault exactly as it was: no partial update is ever observable.
#[derive(Clone, Copy, Debug, PartialEq, Eq, Structural)]
pub enum ContractError {
    /// A configuration index was read before anything was stored at it.
    NotFound,
    /// `initialize` was called on a vault that is already active.
    AlreadyInitialized,
    /// A value was read that only `initialize` can establish.
    NotInitialized,
    /// An intermediate or final amount would leave the representable range.
    ArithmeticOverflow,
    /// A spend, withdrawal or share burn asked for more than is held.
    InsufficientBalance,
    /// The caller does not hold the role required for the operation.
    Unauthorized,
    /// A call to an external token or strategy collaborator failed.
    CollaboratorCallFailed,
    /// An argument was malformed: mismatched lengths or a non-positive
    /// or negative amount where one is not allowed.
    InvalidArgument,
}

} // verus!
