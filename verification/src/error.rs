//! Errors reported while decoding SBUS frames.

use vstd::prelude::*;

verus! {

/// Reasons for which a frame is rejected.
#[derive(Debug, PartialEq, Eq, Structural)]
pub enum SbusError {
    /// The byte source could not be read.
    ReadError,
    /// The first byte of the frame was not the header byte; carries that byte.
    InvalidHeader(u8),
    /// The frame did not end as a frame must; carries the offending byte.
    InvalidFooter(u8),
}

} // verus!
