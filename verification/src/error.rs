//! Errors of the codec: a kind that callers can match on, the operation that
//! met it, and a short diagnostic text.

use vstd::prelude::*;

verus! {

/// The ways in which a codec operation can fail.
#[derive(Clone, Copy, Debug, PartialEq, Eq, Structural)]
pub enum ErrorKind {
    /// `offset + size` does not fit the index type.
    Overflow,
    /// The window reaches past the end of the carrier buffer.
    OutOfBounds,
    /// The payload needs more carrier bytes than the carrier can offer.
    CapacityExceeded,
    /// A value is asked from a window wider than 32 bytes, which is more than
    /// a 64-bit value can hold.
    SizeLimitExceeded,
}

/// The direction in which the carrier was being used when an error arose.
#[derive(Clone, Copy, Debug, PartialEq, Eq, Structural)]
pub enum Operation {
    /// Writing a value into the carrier.
    Imprint,
    /// Reading a value out of the carrier.
    Extract,
}

/// An error of the codec.
#[derive(Clone, Copy, Debug, PartialEq, Eq, Structural)]
pub struct StegoError {
    pub kind: ErrorKind,
    pub operation: Operation,
}

impl StegoError {
    /// The diagnostic text of this error, as a sequence of characters.
    pub open spec fn message_text(self) -> Seq<char> {
        match self.kind {
            ErrorKind::Overflow => "Integer overflow when calculating end index."@,
            ErrorKind::OutOfBounds => match self.operation {
                Operation::Imprint => "Steganography region out of bounds."@,
                Operation::Extract => "Extraction area out of bounds."@,
            },
            ErrorKind::CapacityExceeded => "Not enough space in the carrier to hide the payload."@,
            ErrorKind::SizeLimitExceeded =>
                "Extraction size limit exceeded (max 32 bytes for a u64 value)."@,
        }
    }

    /// An error of kind `kind` met while imprinting.
    pub fn imprint(kind: ErrorKind) -> (e: StegoError)
        ensures
            e == (StegoError { kind, operation: Operation::Imprint }),
    {
        StegoError { kind, operation: Operation::Imprint }
    }

    /// An error of kind `kind` met while extracting.
    pub fn extract(kind: ErrorKind) -> (e: StegoError)
        ensures
            e == (StegoError { kind, operation: Operation::Extract }),
    {
        StegoError { kind, operation: Operation::Extract }
    }

    /// A short diagnostic text for this error. It carries no formatting.
    pub fn message(&self) -> (text: &'static str)
        ensures
            text@ == self.message_text(),
    {
        match self.kind {
            ErrorKind::Overflow => "Integer overflow when calculating end index.",
            ErrorKind::OutOfBounds => match self.operation {
                Operation::Imprint => "Steganography region out of bounds.",
                Operation::Extract => "Extraction area out of bounds.",
            },
            ErrorKind::CapacityExceeded => "Not enough space in the carrier to hide the payload.",
            ErrorKind::SizeLimitExceeded =>
                "Extraction size limit exceeded (max 32 bytes for a u64 value).",
        }
    }
}

} // verus!
