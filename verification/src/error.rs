//! Typed decode/encode errors. Every failure of the codec is reported as a
//! recoverable value of this type, never as a panic.

use vstd::prelude::*;

verus! {

/// The ways an encode or decode operation can fail.
#[derive(Clone, Copy, Debug, PartialEq, Eq, Structural)]
pub enum WireError {
    /// An encode call would need a composite pointer (a length that does not
    /// fit in 15 bits), which this codec does not support.
    UnsupportedComposite,
    /// A decode read would need more bytes than the buffer holds.
    TruncatedInput,
    /// A pointer resolved to a segment index that the message does not have.
    SegmentOutOfRange,
    /// A presence-table continuation chain implies more pages than the buffer
    /// can hold.
    MalformedPresenceTable,
}

} // verus!
