//! Mesh records of the resource store, and the component that attaches a
//! mesh to a drawable entity.
//!
//! A mesh is drawable geometry: one index list plus one or more vertex
//! buffers, wired to exactly one material.  The vertex/index buffer objects
//! live on the GPU side under the same slot index; the store keeps the
//! material handle, the index list and the vertex-buffer count, which is
//! what draws are recorded from.

use vstd::prelude::*;

use crate::renderer::material::MaterialRef;

verus! {

/// One mesh of the resource store.  Immutable after creation.
#[derive(Debug, Clone, PartialEq, Eq)]
pub struct Mesh {
    /// The material this mesh is drawn with; always a handle of the same
    /// store, so it stays valid for the store's lifetime.
    pub material: MaterialRef,
    /// The index list the mesh was created with.  A draw of this mesh
    /// covers the full range `0..indices.len()`.
    pub indices: Vec<u32>,
    /// How many parallel vertex buffers the mesh was created with.
    pub vertex_buffer_count: usize,
}

/// Stable opaque handle to a mesh slot of the resource store.
#[derive(Debug, Clone, Copy, PartialEq, Eq, Structural)]
pub struct MeshRef(pub usize);

impl MeshRef {
    /// Slot index this handle stands for.
    pub open spec fn id(self) -> int {
        self.0 as int
    }
}

/// Attaches a mesh to a drawable entity.  The entity must also carry a
/// `TransformComponent` to be drawn.
#[derive(Debug, Clone, Copy, PartialEq, Eq, Structural)]
pub struct MeshComponent(pub MeshRef);

} // verus!
