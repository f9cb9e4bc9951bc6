use vstd::prelude::*;

verus! {

/// Why the storage engine or the parser refused a block.
#[derive(Clone, Copy, Debug, PartialEq, Eq, Structural)]
pub enum InvalidBlockReason {
    /// A block with the same height is already stored.
    AlreadyExists,
    /// The height does not exceed the highest accepted height.
    NotAscending,
    /// Applying the block's transfers would move some balance outside
    /// the representable signed 64-bit range.
    BalanceOverflow,
    /// The raw record lacks its height or its timestamp.
    MissingMetadata,
}

/// The error taxonomy of the pipeline.
///
/// `SlotNotAvailable` and `SlotSkippedOrMissing` are absorbed inside the
/// live source by its retry discipline and never surface; every other
/// kind propagates one level and stops that stage. `Shutdown` reports
/// cooperative cancellation and is not treated as a fault.
#[derive(Clone, Debug, PartialEq)]
pub enum Error {
    /// A request or reply channel to the storage engine broke: the first
    /// field names the operation, the second describes the failure.
    ChannelFailure(String, String),
    /// A terminal upstream failure, with the transport's description.
    RpcError(String),
    /// The block at this slot is not yet available; retried after a delay.
    SlotNotAvailable(u64),
    /// The slot was skipped or its block is missing; the cursor advances.
    SlotSkippedOrMissing(u64),
    /// A block was rejected; the height and the reason.
    InvalidBlock(u64, InvalidBlockReason),
    /// Cooperative cancellation was signaled.
    Shutdown,
}

impl Error {
    /// Whether this failure kind reports cooperative cancellation and is
    /// logged quietly rather than as an error.
    pub fn is_shutdown(&self) -> (r: bool)
        ensures
            r == (*self matches Error::Shutdown),
    {
        match self {
            Error::Shutdown => true,
            _ => false,
        }
    }
}

} // verus!
