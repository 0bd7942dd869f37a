//! Verified core of a transaction-forwarding gateway.
//!
//! The gateway accepts signed transactions, forwards them over a bounded,
//! reusable pool of connections to a submission endpoint, and separately
//! tracks confirmation of submitted transactions by polling ledger state
//! until a commitment threshold is reached or a polling budget expires.
//!
//! Network I/O itself lives outside this crate: the verified functions
//! take the outcomes that the transport reported (connection established,
//! wire payload accepted, commitment level observed) as plain values and
//! do all bookkeeping and decision making under proved contracts.

pub mod base58;

pub mod commitment;

pub mod confirmation;

pub mod errors;

pub mod gateway;

pub mod pool;

pub mod transaction;
