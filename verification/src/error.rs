use vstd::prelude::*;

verus! {

/// The decoder's whole error taxonomy.
///
/// Every failure is unrecoverable at the point it occurs and propagates
/// unchanged to the caller of the top-level decode; there is no partial
/// result and no resumption after a failed sub-read.
#[derive(Clone, Copy, Debug, PartialEq, Eq, Structural)]
pub enum DecodeError {
    /// A read, seek or advance would have left the fixed-capacity buffer,
    /// or a declared payload length exceeded what the buffer holds.
    OutOfBounds,
    /// A name's compression-pointer chase exceeded the fixed jump bound,
    /// which guards against pointer cycles in adversarial input.
    CompressionLoopDetected,
}

} // verus!
