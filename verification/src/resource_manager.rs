//! The asset-loading boundary.
//!
//! Decoding image files into pixel data is file I/O done by the unverified
//! layer around this crate, which turns the decoded pixels into GPU
//! textures.  The manager is the token those loading operations go through,
//! so that resource creation stays serialized on one owner.

use vstd::prelude::*;

verus! {

/// Serialization token for asset loading.
#[derive(Debug, Clone, Copy, PartialEq, Eq, Structural)]
#[non_exhaustive]
pub struct ResourceManager;

impl ResourceManager {
    /// A fresh manager.
    pub fn new() -> (r: ResourceManager)
        ensures
            r == ResourceManager,
    {
        ResourceManager
    }
}

} // verus!
