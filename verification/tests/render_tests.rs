//! Resource-store and frame-recording behavior: handle stability, camera
//! selection, and draw batching.

use portal_engine::camera::{CameraComponent, CameraMatrix, Color, PerspectiveCameraMatrix};
use portal_engine::renderer::material::MaterialRef;
use portal_engine::renderer::mesh::{MeshComponent, MeshRef};
use portal_engine::renderer::shader::ShaderRef;
use portal_engine::renderer::{RenderCommand, Renderer};
use portal_engine::scene::{Entity, TransformError, World};
use portal_engine::transform::TransformComponent;

fn camera(enabled: bool, clear: Option<Color>) -> CameraComponent {
    CameraComponent {
        matrix: CameraMatrix::Perspective(PerspectiveCameraMatrix::new()),
        is_enabled: enabled,
        clear_color: clear,
    }
}

fn spawn_camera(world: &mut World, enabled: bool, clear: Option<Color>) -> Entity {
    let e = world.spawn();
    world.insert_transform(e, TransformComponent::default()).unwrap();
    world.insert_camera(e, camera(enabled, clear)).unwrap();
    e
}

fn spawn_drawable(world: &mut World, mesh: MeshRef) -> Entity {
    let e = world.spawn();
    world.insert_transform(e, TransformComponent::default()).unwrap();
    world.insert_mesh_component(e, MeshComponent(mesh)).unwrap();
    e
}

#[test]
fn handles_stay_stable_as_the_store_grows() {
    let mut renderer = Renderer::new(100, 100);
    let shader = renderer.create_shader(1);
    let material = renderer.create_material(shader, 1, None);

    let mut handles: Vec<MeshRef> = Vec::new();
    for i in 0..5u32 {
        handles.push(renderer.create_mesh(material, vec![i, i + 1, i + 2], 3));
    }
    for (i, h) in handles.iter().enumerate() {
        let i = i as u32;
        let mesh = renderer.get_mesh(*h).unwrap();
        assert_eq!(mesh.indices, vec![i, i + 1, i + 2]);
        assert_eq!(mesh.material, material);
        assert_eq!(mesh.vertex_buffer_count, 3);
    }

    let shader2 = renderer.create_shader(2);
    assert_ne!(shader, shader2);
    assert_eq!(renderer.get_shader(shader).unwrap().bind_group_layout_count, 1);
    assert_eq!(renderer.get_shader(shader2).unwrap().bind_group_layout_count, 2);
    assert_eq!(renderer.get_material(material).unwrap().shader, shader);

    // the old handles still resolve to the same meshes
    assert_eq!(renderer.get_mesh(handles[0]).unwrap().indices, vec![0, 1, 2]);
}

#[test]
fn lookup_of_a_foreign_handle_fails() {
    let renderer = Renderer::new(1, 1);
    assert!(renderer.get_shader(ShaderRef(0)).is_none());
    assert!(renderer.get_material(MaterialRef(7)).is_none());
    assert!(renderer.get_mesh(MeshRef(7)).is_none());
}

#[test]
fn resize_updates_only_the_surface_size() {
    let mut renderer = Renderer::new(100, 100);
    let shader = renderer.create_shader(1);
    renderer.resize(640, 480);
    assert_eq!(renderer.width, 640);
    assert_eq!(renderer.height, 480);
    assert!(renderer.get_shader(shader).is_some());
}

#[test]
fn render_selects_the_enabled_camera_regardless_of_order() {
    let clear = Color { r: 1, g: 2, b: 3, a: 4 };
    let renderer = Renderer::new(100, 100);

    // disabled camera spawned first
    let mut world = World::new();
    spawn_camera(&mut world, false, None);
    spawn_camera(&mut world, true, Some(clear));
    let frame = renderer.render(&world).unwrap().unwrap();
    assert_eq!(frame.clear_color, Some(clear));

    // disabled camera spawned last
    let mut world2 = World::new();
    spawn_camera(&mut world2, true, Some(clear));
    spawn_camera(&mut world2, false, None);
    let frame2 = renderer.render(&world2).unwrap().unwrap();
    assert_eq!(frame2.clear_color, Some(clear));
}

#[test]
fn render_without_camera_draws_nothing_without_error() {
    let mut renderer = Renderer::new(100, 100);
    let shader = renderer.create_shader(1);
    let material = renderer.create_material(shader, 1, None);
    let mesh = renderer.create_mesh(material, vec![0, 1, 2], 1);

    let mut world = World::new();
    spawn_drawable(&mut world, mesh);
    spawn_camera(&mut world, false, None);

    assert_eq!(renderer.render(&world).unwrap(), None);
}

#[test]
fn every_drawable_gets_exactly_one_draw_batched_by_material() {
    let mut renderer = Renderer::new(100, 100);
    let shader = renderer.create_shader(1);
    let mat_a = renderer.create_material(shader, 1, None);
    let mat_b = renderer.create_material(shader, 1, None);
    let mesh0 = renderer.create_mesh(mat_a, vec![0, 1, 2], 1);
    let mesh1 = renderer.create_mesh(mat_a, vec![3, 4, 5, 6], 1);
    let mesh2 = renderer.create_mesh(mat_b, vec![7, 8, 9], 1);

    let mut world = World::new();
    spawn_camera(&mut world, true, None);
    let e0 = spawn_drawable(&mut world, mesh0);
    let e1 = spawn_drawable(&mut world, mesh1);
    let e2 = spawn_drawable(&mut world, mesh2);
    // an entity with a mesh but no transform is not drawable
    let bare = world.spawn();
    world.insert_mesh_component(bare, MeshComponent(mesh0)).unwrap();

    let t0 = world.global_transform(e0).unwrap();
    let t1 = world.global_transform(e1).unwrap();
    let t2 = world.global_transform(e2).unwrap();

    let frame = renderer.render(&world).unwrap().unwrap();
    let expected = vec![
        RenderCommand::BindMaterial(mat_a),
        RenderCommand::DrawMesh { mesh: mesh0, index_count: 3, model_chain: t0 },
        RenderCommand::DrawMesh { mesh: mesh1, index_count: 4, model_chain: t1 },
        RenderCommand::BindMaterial(mat_b),
        RenderCommand::DrawMesh { mesh: mesh2, index_count: 3, model_chain: t2 },
    ];
    assert_eq!(frame.draws, expected);

    // one draw per drawable entity, each mesh drawn once
    let draw_count = frame
        .draws
        .iter()
        .filter(|c| matches!(c, RenderCommand::DrawMesh { .. }))
        .count();
    assert_eq!(draw_count, 3);
}

#[test]
fn render_fails_loudly_on_a_cyclic_parent_chain() {
    let mut renderer = Renderer::new(100, 100);
    let shader = renderer.create_shader(1);
    let material = renderer.create_material(shader, 1, None);
    let mesh = renderer.create_mesh(material, vec![0, 1, 2], 1);

    let mut world = World::new();
    spawn_camera(&mut world, true, None);
    let a = spawn_drawable(&mut world, mesh);
    let b = spawn_drawable(&mut world, mesh);
    world.insert_relation_components(a).unwrap();
    world.insert_relation_components(b).unwrap();
    world.add_child(a, b).unwrap();
    world.add_child(b, a).unwrap();

    assert_eq!(renderer.render(&world), Err(TransformError::CycleDetected));
}

#[test]
fn draw_chains_follow_the_scene_graph() {
    let mut renderer = Renderer::new(100, 100);
    let shader = renderer.create_shader(1);
    let material = renderer.create_material(shader, 1, None);
    let mesh = renderer.create_mesh(material, vec![0, 1, 2], 1);

    let mut world = World::new();
    spawn_camera(&mut world, true, None);
    let root = world.spawn();
    world.insert_relation_components(root).unwrap();
    let mut root_t = TransformComponent::default();
    root_t.position.x = 5.0f32.to_bits();
    world.insert_transform(root, root_t).unwrap();
    let child = spawn_drawable(&mut world, mesh);
    world.insert_relation_components(child).unwrap();
    world.add_child(root, child).unwrap();

    let frame = renderer.render(&world).unwrap().unwrap();
    let chain = match &frame.draws[..] {
        [RenderCommand::BindMaterial(_), RenderCommand::DrawMesh { model_chain, .. }] => {
            model_chain
        },
        other => panic!("unexpected draw stream: {:?}", other),
    };
    assert_eq!(chain.len(), 2);
    assert_eq!(chain[0], root_t);
    assert_eq!(chain[1], TransformComponent::default());
}

#[test]
fn material_records_shader_and_cull_mode() {
    let mut renderer = Renderer::new(8, 8);
    let shader = renderer.create_shader(1);
    let front = renderer.create_material(shader, 1, Some(portal_engine::renderer::material::Face::Front));
    let both = renderer.create_material(shader, 0, None);
    let m_front = renderer.get_material(front).unwrap();
    assert_eq!(m_front.cull_mode, Some(portal_engine::renderer::material::Face::Front));
    assert_eq!(m_front.shader, shader);
    assert_eq!(m_front.bind_group_count, 1);
    assert_eq!(renderer.get_material(both).unwrap().cull_mode, None);
}
