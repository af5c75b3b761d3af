//! Error values shared by the readers.

use vstd::prelude::*;

verus! {

/// An opaque failure reported by a byte source. The code is carried verbatim
/// so that a caller can recognise which failure was propagated.
#[derive(Clone, Copy, Debug, PartialEq, Eq, Structural)]
pub struct SourceError {
    pub code: u64,
}

/// A failure reported by a mapped read.
#[derive(Clone, Copy, Debug, PartialEq, Eq, Structural)]
pub enum ReadError {
    /// The inner source failed; its error is carried unchanged.
    Source(SourceError),
    /// The transform callback reported more destination bytes than the
    /// destination can hold: a contract violation by the callback, never
    /// produced when the callback meets its specification.
    DestOverflow,
    /// The transform callback reported more consumed bytes than it was given:
    /// a contract violation by the callback, never produced when the callback
    /// meets its specification.
    SourceOverrun,
}

} // verus!
