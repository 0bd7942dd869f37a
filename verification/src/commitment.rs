use vstd::prelude::*;

verus! {

/// Durability tier at which a submitted transaction is considered settled
/// by the ledger. The tiers are strictly ordered:
/// `Processed < Confirmed < Finalized`.
#[derive(Clone, Copy, Debug, PartialEq, Eq, Structural)]
pub enum CommitmentLevel {
    Processed,
    Confirmed,
    Finalized,
}

impl CommitmentLevel {
    /// Position of this level in the durability order.
    pub open spec fn rank_spec(self) -> int {
        match self {
            CommitmentLevel::Processed => 0,
            CommitmentLevel::Confirmed => 1,
            CommitmentLevel::Finalized => 2,
        }
    }

    /// `self` is at least as durable as `other`.
    pub open spec fn at_least(self, other: CommitmentLevel) -> bool {
        self.rank_spec() >= other.rank_spec()
    }

    pub fn rank(&self) -> (r: u8)
        ensures
            r as int == self.rank_spec(),
    {
        match self {
            CommitmentLevel::Processed => 0,
            CommitmentLevel::Confirmed => 1,
            CommitmentLevel::Finalized => 2,
        }
    }

    /// Whether an observation at level `self` satisfies a request for
    /// durability `required` (the requested level or higher resolves it).
    pub fn meets(&self, required: &CommitmentLevel) -> (r: bool)
        ensures
            r == self.at_least(*required),
    {
        self.rank() >= required.rank()
    }
}

} // verus!
