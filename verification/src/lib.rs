//! Hides a byte payload in the low-order bits of the colour channels of an
//! RGB pixel grid, and recovers it again.

use compression::prelude::{BZip2Error, CompressionError};
use vstd::prelude::*;

pub mod bit;
pub mod cli;
pub mod exec;
pub mod grid;
pub mod parse;
pub mod guarantees;
pub mod steg;
pub mod stream;

verus! {

/// The error of the `compression` crate's encoders, carried as an opaque
/// value.
#[verifier::external_type_specification]
#[verifier::external_body]
pub struct ExCompressionError(CompressionError);

/// The error of the `compression` crate's BZip2 decoder, carried as an
/// opaque value.
#[verifier::external_type_specification]
#[verifier::external_body]
pub struct ExBZip2Error(BZip2Error);

/// The ways in which hiding or recovering a payload can fail.
#[derive(Debug, PartialEq, Eq)]
pub enum StegError {
    /// The scan ended without meeting the end-of-message marker.
    EncodingNotFound,
    /// The recovered bits do not regroup into whole bytes.
    Decoding(String),
    /// The payload could not be compressed.
    Compression(CompressionError),
    /// The payload could not be decompressed.
    Decompression(BZip2Error),
    /// The bit strategy drew a selector that names no single bit.
    Selector,
}

} // verus!
