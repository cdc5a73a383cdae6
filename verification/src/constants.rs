//! Layout constants of the carrier format.

use vstd::prelude::*;

verus! {

/// Size in bytes of a standard BMP file header, for callers that work on a
/// raw BMP file and must leave its header untouched.
pub const BMP_HEADER_SIZE: usize = 54;

/// Carrier bytes that hold the 64-bit payload length (two bits per byte).
pub const LENGTH_HIDING_BYTES: usize = 32;

/// Carrier bytes that hold one payload byte (two bits per byte).
pub const BYTES_PER_CHAR: usize = 4;

/// Mask of the two low-order bits of a carrier byte, which carry the data.
pub const LSB_MASK: u8 = 0x03;

/// Mask of the six high-order bits of a carrier byte, which are preserved.
pub const DATA_MASK: u8 = 0xFC;

} // verus!
