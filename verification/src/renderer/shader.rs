//! Shader records of the resource store.
//!
//! A shader is a compiled vertex+fragment program together with the layouts
//! of the binding groups it expects.  The program blobs and the layout
//! objects themselves live on the GPU side; the store keeps the one fact the
//! bookkeeping depends on, namely how many binding-group layouts the shader
//! was created with, so that materials wired to the shader can be checked
//! against it.

use vstd::prelude::*;

verus! {

/// One shader of the resource store.  Immutable after creation.
#[derive(Debug, Clone, Copy, PartialEq, Eq, Structural)]
pub struct Shader {
    /// Number of binding-group layouts the shader was created with, not
    /// counting the per-frame uniform group at slot 0 that every shader
    /// shares.
    pub bind_group_layout_count: usize,
}

/// Stable opaque handle to a shader slot of the resource store.
#[derive(Debug, Clone, Copy, PartialEq, Eq, Structural)]
pub struct ShaderRef(pub usize);

impl ShaderRef {
    /// Slot index this handle stands for.
    pub open spec fn id(self) -> int {
        self.0 as int
    }
}

} // verus!
