//! Two-bit least-significant-bit steganography over flat byte buffers.
//!
//! - [`steganography`] holds the codec: `modify` imprints a value on a window
//!   of carrier bytes, `recover` reads it back.
//! - [`framer`] hides a whole payload behind its length and reads it back.
//! - [`model`] is the mathematical model that the contracts speak of, and
//!   [`laws`] the properties proved of it.
//! - [`error`], [`constants`] and [`cli`] hold the errors, the layout
//!   constants and the arguments of the two commands.

pub mod cli;
pub mod constants;
pub mod error;
pub mod framer;
pub mod laws;
pub mod model;
pub mod steganography;
