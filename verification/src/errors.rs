//! Error kinds that decoding and encoding can report.

use vstd::prelude::*;

verus! {

/// A reason why a wire buffer could not be decoded.
#[derive(Clone, Copy, Debug, PartialEq, Eq, Structural)]
pub enum DecodeError {
    /// A read would have gone past the end of the buffer.
    Truncated,
    /// A compression pointer targets an offset that is not strictly
    /// before the run of labels it was reached from: following it could
    /// revisit bytes already read, so the chain is rejected.
    BadPointer,
    /// A bit field holds a value outside its defined variants.
    BadFieldValue,
}

/// A reason why a structured value could not be serialized.
#[derive(Clone, Copy, Debug, PartialEq, Eq, Structural)]
pub enum EncodeError {
    /// A domain name holds a segment that is empty or longer than 63 bytes.
    InvalidName,
    /// A resource record's declared rdata length disagrees with its rdata.
    LengthMismatch,
    /// The serialized message would not fit in the 512-byte buffer.
    TooLong,
}

} // verus!
