use vstd::prelude::*;

verus! {

/// The failure taxonomy of the marketplace core.
///
/// Single-item operations are all-or-nothing: any of these aborts the
/// operation before any mutation becomes visible.  Batched operations are
/// all-or-nothing at the batch level.
#[derive(Debug, Clone, Copy, PartialEq, Eq)]
pub enum ContractError {
    /// The referenced record does not exist.
    NotFound,
    /// The caller may not perform the operation on this record.
    Unauthorized,
    /// A numeric field is malformed or non-positive.
    InvalidInput,
    /// The offered unit price is below the seller's ask.
    InsufficientBidPrice,
    /// The buyer fee exceeds the caller-supplied fee cap.
    MaxFeeExceeded,
    /// The requested fill exceeds the order's remaining quantity.
    InsufficientSellOrderQuantity,
    /// A checked arithmetic operation would overflow its type.
    ArithmeticOverflow,
}

} // verus!
