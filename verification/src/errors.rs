use vstd::prelude::*;

verus! {

/// Why forwarding a single transaction failed. Every member is non-fatal
/// to the rest of a batch, and none is retried internally: retry is the
/// caller's decision, because re-sending with a stale freshness token is
/// unsafe.
#[derive(Clone, Copy, Debug, PartialEq, Eq, Structural)]
pub enum ForwardError {
    /// Establishing a new connection to the submission endpoint failed.
    ConnectFailed,
    /// A connection was available but the wire payload was not accepted
    /// for sending; the connection involved is evicted from the pool.
    SendFailed,
    /// Every pool slot was busy and the pool is configured to fail fast.
    PoolExhausted,
}

/// Outcome of a request arriving through the RPC dispatch surface.
#[derive(Clone, Copy, Debug, PartialEq, Eq, Structural)]
pub enum RpcError {
    /// The inbound payload was not valid base-58; rejected before any
    /// network operation.
    DecodeFailed,
    /// The requested method is recognised but not implemented.
    Unsupported,
    /// Decoding succeeded but forwarding failed at the transport layer.
    Forward(ForwardError),
}

} // verus!
