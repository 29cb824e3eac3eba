//! Errors of login-item decoding.
use vstd::prelude::*;

verus! {

/// Why a login-item artifact could not be read.
#[derive(Debug, Clone, Copy, PartialEq, Eq, Structural)]
pub enum LoginItemError {
    /// A directory or file could not be enumerated or inspected.
    Path,
    /// A property list could not be parsed.
    Plist,
    /// A bookmark blob passed its header check but is structurally broken.
    Bookmark,
}

impl LoginItemError {
    /// A short human-readable description.
    pub fn description(&self) -> (r: &'static str)
        ensures
            *self == LoginItemError::Path ==> r@ == "Failed to get provided path"@,
            *self == LoginItemError::Plist ==> r@ == "No bookmark data"@,
            *self == LoginItemError::Bookmark ==> r@ == "Could not parse bookmark data"@,
    {
        match self {
            LoginItemError::Path => "Failed to get provided path",
            LoginItemError::Plist => "No bookmark data",
            LoginItemError::Bookmark => "Could not parse bookmark data",
        }
    }
}

} // verus!
