//! Error type of the rendering and driver subsystem.

use vstd::prelude::*;

verus! {

/// Rendering-level failures. Transport failures of the physical link are
/// the caller's concern; nothing in this library performs bus I/O.
#[derive(Debug, PartialEq, Eq)]
pub enum Error {
    /// More distinct samples were drawn in one frame than the panel's
    /// 4-level color model can carry. Holds the offending count and the
    /// offending sample values (ascending) for diagnostics.
    TooManyColors { count: usize, values: Vec<u8> },
    /// The canvas dimensions do not fit the requested packed layout.
    InvalidGeometry { width: u32, height: u32 },
}

} // verus!
