use vstd::prelude::*;

verus! {

/// The recoverable failures a kernel can return. Every error is reported to
/// the caller; no kernel aborts the process.
#[derive(Clone, Copy, Debug, PartialEq, Eq, Structural)]
pub enum Error {
    /// Operand and per-row-parameter lengths are neither equal nor
    /// broadcastable (one of them of length 1).
    LengthMismatch,
    /// A gather index resolved outside the row and the caller asked for
    /// strict behaviour.
    OutOfBounds,
    /// A shared signed index sequence holds no non-null value at all.
    AllIndicesNull,
    /// The operation has no branch for the column's physical category.
    UnsupportedDtype,
    /// The value cannot be serialized; opaque functions report this from
    /// their default serialization hooks.
    Serialization,
}

} // verus!
