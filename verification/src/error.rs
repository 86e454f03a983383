use vstd::prelude::*;

verus! {

/// Why a schedule, a setup, an aggregation run or a decoding was rejected.
#[derive(Debug, Clone, Copy, PartialEq, Eq, Structural)]
pub enum AggregationError {
    /// An arity below 2: such a layer would not reduce the number of proofs.
    ArityTooSmall,
    /// There is no leaf to aggregate.
    NoLeaves,
    /// The number of leaf proofs differs from the leaf count that the setup was built for.
    LeafCountMismatch,
    /// The proofs or layers at hand do not fit the arities: reducing them layer by layer
    /// could not end at exactly one proof.
    AggregationArityMismatch,
    /// The verification gadgets of a layer could not be attached to the circuit below it, or
    /// the layer was built with another number of them than its arity.
    IncompatibleRecursionConfig,
    /// The public inputs cannot be cut into statements of the given width.
    MisalignedPublicInputs,
    /// The proof system produced no proof for one chunk.
    ProvingFailed { layer: usize, chunk: usize },
    /// The proof handed back for one chunk does not publish the chunk's statements.
    PublicInputMismatch { layer: usize, chunk: usize },
}

} // verus!
