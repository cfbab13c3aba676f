//! Material records of the resource store.
//!
//! A material is a graphics pipeline (one shader plus fixed-function state)
//! and a fixed set of resource binding groups.  The pipeline and binding
//! objects live on the GPU side; the store keeps the shader handle, the
//! number of binding groups and the fixed-function culling choice, which is
//! what the recording logic and the store invariant read.

use vstd::prelude::*;

use crate::renderer::shader::ShaderRef;

verus! {

/// Which triangle faces a material culls.
#[derive(Debug, Clone, Copy, PartialEq, Eq, Structural)]
pub enum Face {
    Front,
    Back,
}

/// One material of the resource store.  Immutable after creation.
#[derive(Debug, Clone, Copy, PartialEq, Eq, Structural)]
pub struct Material {
    /// The shader this material is wired to; always a handle of the same
    /// store, so it stays valid for the store's lifetime.
    pub shader: ShaderRef,
    /// Number of resource binding groups, bound at slots starting from 1
    /// (slot 0 is the shared per-frame uniform).  Never exceeds the
    /// shader's binding-group layout count.
    pub bind_group_count: usize,
    /// Culling mode of the pipeline; `None` draws both faces.
    pub cull_mode: Option<Face>,
}

/// Stable opaque handle to a material slot of the resource store; the unit
/// of draw-call batching.
#[derive(Debug, Clone, Copy, PartialEq, Eq, Structural)]
pub struct MaterialRef(pub usize);

impl MaterialRef {
    /// Slot index this handle stands for.
    pub open spec fn id(self) -> int {
        self.0 as int
    }
}

} // verus!
