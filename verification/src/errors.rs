//! Error kinds surfaced by the core.

use vstd::prelude::*;

verus! {

/// What can go wrong inside the core itself.  Failures of the surrounding
/// tooling (configuration reading, version-control access, artifact output)
/// are reported by the callers that do that work.
#[derive(Debug, Clone, Copy, PartialEq, Eq, Structural)]
pub enum GuideError {
    /// A path is not normalised: it has a parent reference, a current
    /// directory reference or an empty component, or no component at all.
    InvalidPath,
    /// The revision history is empty, so there is no page to publish.
    NoSavedPage,
    /// A delta that the version-control oracle promises never to produce,
    /// such as a rename that changes a node's kind.
    InvariantViolation,
    /// Text was expected but the bytes are not valid UTF-8.
    EncodingError,
}

} // verus!
