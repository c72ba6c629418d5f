//! Error values of the library.
use vstd::prelude::*;

verus! {

/// A fatal error of one invocation.
///
/// I/O failures are handled by the callers that perform I/O; the library
/// itself can only reject an invalid configuration.
#[derive(Clone, Copy, Debug, PartialEq, Eq, Structural)]
pub enum CjkfmtError {
    /// The configured maximum width cannot accommodate any line break:
    /// the field carries the rejected width.
    InvalidConfiguration { max_width: u32 },
}

} // verus!
