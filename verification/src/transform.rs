//! Local transform of a scene entity: position, rotation and non-uniform
//! scale, stored as raw IEEE 754 single-precision bit patterns.
//!
//! The engine never does arithmetic on these scalars; it only moves them
//! around (composition order, parent chains, uniform uploads are decided
//! here, the matrix algebra happens in the unverified GPU layer).  Keeping
//! the bits as `u32` makes every contract about them exact.

use vstd::prelude::*;

verus! {

/// Bit pattern of `0.0_f32`.
pub const F32_ZERO_BITS: u32 = 0x0000_0000;

/// Bit pattern of `1.0_f32`.
pub const F32_ONE_BITS: u32 = 0x3F80_0000;

/// A 3-vector of single-precision bit patterns.
#[derive(Debug, Clone, Copy, PartialEq, Eq, Structural)]
pub struct Vec3Bits {
    pub x: u32,
    pub y: u32,
    pub z: u32,
}

impl Vec3Bits {
    /// The zero vector `(0, 0, 0)`.
    pub fn zeros() -> (v: Vec3Bits)
        ensures
            v == (Vec3Bits { x: F32_ZERO_BITS, y: F32_ZERO_BITS, z: F32_ZERO_BITS }),
    {
        Vec3Bits { x: F32_ZERO_BITS, y: F32_ZERO_BITS, z: F32_ZERO_BITS }
    }

    /// The unit-scale vector `(1, 1, 1)`.
    pub fn ones() -> (v: Vec3Bits)
        ensures
            v == (Vec3Bits { x: F32_ONE_BITS, y: F32_ONE_BITS, z: F32_ONE_BITS }),
    {
        Vec3Bits { x: F32_ONE_BITS, y: F32_ONE_BITS, z: F32_ONE_BITS }
    }
}

/// A quaternion of single-precision bit patterns, `x*i + y*j + z*k + w`.
#[derive(Debug, Clone, Copy, PartialEq, Eq, Structural)]
pub struct QuatBits {
    pub x: u32,
    pub y: u32,
    pub z: u32,
    pub w: u32,
}

impl QuatBits {
    /// The identity rotation `(0, 0, 0, 1)`.
    pub fn identity() -> (q: QuatBits)
        ensures
            q == (QuatBits {
                x: F32_ZERO_BITS,
                y: F32_ZERO_BITS,
                z: F32_ZERO_BITS,
                w: F32_ONE_BITS,
            }),
    {
        QuatBits { x: F32_ZERO_BITS, y: F32_ZERO_BITS, z: F32_ZERO_BITS, w: F32_ONE_BITS }
    }
}

/// Local transform of an entity.  Convertible to a homogeneous matrix under
/// the composition order translate * rotate * scale; the conversion itself is
/// floating-point work and lives in the GPU layer.
#[derive(Debug, Clone, Copy, PartialEq, Eq, Structural)]
pub struct TransformComponent {
    pub scale: Vec3Bits,
    pub position: Vec3Bits,
    pub rotation: QuatBits,
}

impl TransformComponent {
    /// The identity transform: zero position, identity rotation, unit scale.
    pub open spec fn identity_spec() -> TransformComponent {
        TransformComponent {
            scale: Vec3Bits { x: F32_ONE_BITS, y: F32_ONE_BITS, z: F32_ONE_BITS },
            position: Vec3Bits { x: F32_ZERO_BITS, y: F32_ZERO_BITS, z: F32_ZERO_BITS },
            rotation: QuatBits {
                x: F32_ZERO_BITS,
                y: F32_ZERO_BITS,
                z: F32_ZERO_BITS,
                w: F32_ONE_BITS,
            },
        }
    }
}

impl Default for TransformComponent {
    /// The default transform is the identity transform.
    fn default() -> (t: TransformComponent)
        ensures
            t == TransformComponent::identity_spec(),
    {
        TransformComponent {
            scale: Vec3Bits::ones(),
            position: Vec3Bits::zeros(),
            rotation: QuatBits::identity(),
        }
    }
}

} // verus!
