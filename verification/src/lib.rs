//! An order-book style marketplace core for exchanging fungible credit
//! quantities against payment tokens under a fixed-fee schedule.
//!
//! The crate models the persistent contract state as an explicit
//! [`state::Marketplace`] value threaded through every operation; the host
//! that owns durable storage loads the state, calls one handler, and persists
//! the result under its own transaction boundary.  The handlers in
//! [`execute`] cover the sell-order lifecycle (creation, amendment,
//! cancellation, depletion through direct buys) and the administration of the
//! payment-denom registry and the fee schedule; [`query`] is the paginated,
//! filterable read layer; [`fees`] holds the fee rule; [`numeric`] is the
//! decimal-string codec used for arbitrary-precision quantities.

pub mod error;
pub mod execute;
pub mod fees;
pub mod laws;
pub mod msg;
pub mod numeric;
pub mod query;
pub mod state;
