use vstd::prelude::*;

verus! {

/// An opaque, already-signed transaction: the serialized wire payload,
/// the reference blockhash bounding how long it stays submittable, and
/// the identifier derived from its signature bytes. Immutable after
/// construction.
pub struct SignedTransaction {
    /// Identifier derived from the transaction's signature bytes; the
    /// ledger never reuses it across different transactions.
    pub signature: u64,
    /// Freshness token the transaction references.
    pub blockhash: u64,
    /// Serialized wire-format payload as sent over the transport.
    pub wire: Vec<u8>,
}

/// Correlation key between submission and confirmation, derived from a
/// transaction's signature at forwarding time, before any network send,
/// so that forwarding always yields a handle for a dispatched payload.
#[derive(Clone, Copy, Debug, PartialEq, Eq, Structural)]
pub struct SubmissionHandle {
    pub id: u64,
}

impl SignedTransaction {
    pub fn new(signature: u64, blockhash: u64, wire: Vec<u8>) -> (t: SignedTransaction)
        ensures
            t.signature == signature,
            t.blockhash == blockhash,
            t.wire@ == wire@,
    {
        SignedTransaction { signature, blockhash, wire }
    }

    /// The submission handle this transaction will be tracked under.
    pub open spec fn handle_spec(self) -> SubmissionHandle {
        SubmissionHandle { id: self.signature }
    }

    pub fn handle(&self) -> (h: SubmissionHandle)
        ensures
            h == self.handle_spec(),
    {
        SubmissionHandle { id: self.signature }
    }
}

} // verus!
