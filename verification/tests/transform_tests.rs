//! The bit-pattern constants of the default transform and camera agree
//! with the IEEE 754 values they stand for.

use portal_engine::camera::PerspectiveCameraMatrix;
use portal_engine::transform::TransformComponent;

#[test]
fn default_transform_is_identity() {
    let t = TransformComponent::default();
    assert_eq!(t.position.x, 0.0f32.to_bits());
    assert_eq!(t.position.y, 0.0f32.to_bits());
    assert_eq!(t.position.z, 0.0f32.to_bits());
    assert_eq!(t.scale.x, 1.0f32.to_bits());
    assert_eq!(t.scale.y, 1.0f32.to_bits());
    assert_eq!(t.scale.z, 1.0f32.to_bits());
    assert_eq!(t.rotation.x, 0.0f32.to_bits());
    assert_eq!(t.rotation.y, 0.0f32.to_bits());
    assert_eq!(t.rotation.z, 0.0f32.to_bits());
    assert_eq!(t.rotation.w, 1.0f32.to_bits());
}

#[test]
fn perspective_camera_default_parameters() {
    let m = PerspectiveCameraMatrix::new();
    assert_eq!(m.projection.aspect, 1.0f32.to_bits());
    assert_eq!(m.projection.fovy, 90.0f32.to_bits());
    assert_eq!(m.projection.znear, 0.01f32.to_bits());
    assert_eq!(m.projection.zfar, 200.0f32.to_bits());
    assert_eq!(m.position.x, 0.0f32.to_bits());
    assert_eq!(m.rotation.w, 1.0f32.to_bits());
}
