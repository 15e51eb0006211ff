//! The library's error taxonomy.
//!
//! Geometry errors are recoverable result values; failures to locate the
//! graphics protocol or a failed firmware call are fatal to the caller,
//! which cannot draw without a frame buffer.

use vstd::prelude::*;

verus! {

/// A status word returned by a firmware call. Zero means success; any
/// other value is a firmware-defined error code.
#[derive(Clone, Copy, PartialEq, Eq, Structural, Debug)]
pub struct EfiStatus {
    pub code: u64,
}

impl EfiStatus {
    /// Whether this status reports success.
    pub open spec fn spec_is_success(self) -> bool {
        self.code == 0
    }

    /// The success status.
    pub fn success() -> (s: EfiStatus)
        ensures
            s.spec_is_success(),
    {
        EfiStatus { code: 0 }
    }

    /// Whether this status reports success.
    pub fn is_success(&self) -> (r: bool)
        ensures
            r == self.spec_is_success(),
    {
        self.code == 0
    }
}

/// Everything that can go wrong in this library.
#[derive(Clone, Copy, PartialEq, Eq, Structural, Debug)]
pub enum Error {
    /// The graphics output protocol could not be located.
    ProtocolNotFound,
    /// A firmware call returned the carried non-success status.
    FirmwareCallFailed(EfiStatus),
    /// A drawing operation's coordinates fall outside the canvas.
    OutOfRange,
}

} // verus!
