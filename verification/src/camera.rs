//! Camera data attached to scene entities.
//!
//! A camera provides two matrices, computed independently: the view matrix
//! is the inverse of the camera entity's world transform, and the projection
//! matrix is intrinsic to the camera variant.  The matrix algebra itself is
//! floating-point work done by the GPU layer; this module carries the exact
//! parameters it is done from, as IEEE 754 bit patterns.

use vstd::prelude::*;

use crate::transform::{QuatBits, Vec3Bits, F32_ONE_BITS, F32_ZERO_BITS};

verus! {

/// Bit pattern of `90.0_f32`, the default vertical field of view in degrees.
pub const F32_FOVY_DEFAULT_BITS: u32 = 0x42B4_0000;

/// Bit pattern of `0.01_f32`, the default near plane.
pub const F32_ZNEAR_DEFAULT_BITS: u32 = 0x3C23_D70A;

/// Bit pattern of `200.0_f32`, the default far plane.
pub const F32_ZFAR_DEFAULT_BITS: u32 = 0x4348_0000;

/// A clear color, four IEEE 754 double-precision bit patterns (RGBA).
#[derive(Debug, Clone, Copy, PartialEq, Eq, Structural)]
pub struct Color {
    pub r: u64,
    pub g: u64,
    pub b: u64,
    pub a: u64,
}

/// Parameters of a right-handed perspective projection.
#[derive(Debug, Clone, Copy, PartialEq, Eq, Structural)]
pub struct PerspectiveProjection {
    /// Width over height of the output surface (`f32` bits).  Must be kept
    /// up to date by the application when the surface resizes.
    pub aspect: u32,
    /// Vertical field of view in degrees (`f32` bits).
    pub fovy: u32,
    /// Near plane distance (`f32` bits).
    pub znear: u32,
    /// Far plane distance (`f32` bits).
    pub zfar: u32,
}

/// A perspective camera: an optional intrinsic offset (position and
/// rotation) plus projection parameters.
#[derive(Debug, Clone, Copy, PartialEq, Eq, Structural)]
pub struct PerspectiveCameraMatrix {
    pub position: Vec3Bits,
    pub rotation: QuatBits,
    pub projection: PerspectiveProjection,
}

impl PerspectiveCameraMatrix {
    /// The default perspective camera returned by `new`: at the origin,
    /// unrotated, square aspect, 90 degree field of view, planes at
    /// 0.01 and 200.
    pub open spec fn default_spec() -> PerspectiveCameraMatrix {
        PerspectiveCameraMatrix {
            position: Vec3Bits { x: F32_ZERO_BITS, y: F32_ZERO_BITS, z: F32_ZERO_BITS },
            rotation: QuatBits {
                x: F32_ZERO_BITS,
                y: F32_ZERO_BITS,
                z: F32_ZERO_BITS,
                w: F32_ONE_BITS,
            },
            projection: PerspectiveProjection {
                aspect: F32_ONE_BITS,
                fovy: F32_FOVY_DEFAULT_BITS,
                znear: F32_ZNEAR_DEFAULT_BITS,
                zfar: F32_ZFAR_DEFAULT_BITS,
            },
        }
    }

    /// A perspective camera with the default parameters.
    pub fn new() -> (m: PerspectiveCameraMatrix)
        ensures
            m == PerspectiveCameraMatrix::default_spec(),
    {
        PerspectiveCameraMatrix {
            position: Vec3Bits::zeros(),
            rotation: QuatBits::identity(),
            projection: PerspectiveProjection {
                aspect: F32_ONE_BITS,
                fovy: F32_FOVY_DEFAULT_BITS,
                znear: F32_ZNEAR_DEFAULT_BITS,
                zfar: F32_ZFAR_DEFAULT_BITS,
            },
        }
    }
}

/// The camera-matrix provider: a tagged variant over the supported
/// projection models, currently perspective projection only.
#[derive(Debug, Clone, Copy, PartialEq, Eq, Structural)]
pub enum CameraMatrix {
    Perspective(PerspectiveCameraMatrix),
}

/// Camera data attached to an entity.  Exactly one enabled camera is
/// expected per frame; with several enabled, the recording logic picks the
/// one with the lowest entity id.
#[derive(Debug, Clone, Copy, PartialEq, Eq, Structural)]
pub struct CameraComponent {
    /// The matrix provider of this camera.
    pub matrix: CameraMatrix,
    /// Whether the render loop may select this camera.
    pub is_enabled: bool,
    /// Color the frame is cleared to before drawing; `None` keeps the
    /// previous contents of the color attachment.
    pub clear_color: Option<Color>,
}

/// A standalone perspective camera, for callers that drive one camera
/// outside the scene.
#[derive(Debug, Clone, Copy, PartialEq, Eq, Structural)]
pub struct PerspectiveCameraSystem(pub PerspectiveCameraMatrix);

} // verus!
