//! What can go wrong.

use vstd::prelude::*;

verus! {

/// Why an array could not be rechunked.
#[derive(Clone, Copy, Debug, PartialEq, Eq, Structural)]
pub enum RechunkError {
    /// The descriptor text is not a well-formed document, or `shape` or
    /// `chunks` is missing or is not a list of unsigned integers; or a
    /// descriptor cannot be rendered as text.
    Format,
    /// The leading extent, the row width or the requested number of rows per
    /// chunk is missing or zero, so that no partition is defined.
    Geometry,
}

} // verus!
