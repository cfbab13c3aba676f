//! Scene-graph behavior: the parent/child invariant, idempotence of the
//! relation operations, error reporting, and transform-chain resolution.

use portal_engine::scene::{ComponentError, Entity, TransformError, World};
use portal_engine::transform::{TransformComponent, Vec3Bits};

fn v3(x: f32, y: f32, z: f32) -> Vec3Bits {
    Vec3Bits { x: x.to_bits(), y: y.to_bits(), z: z.to_bits() }
}

fn transform_at(x: f32, y: f32, z: f32) -> TransformComponent {
    let mut t = TransformComponent::default();
    t.position = v3(x, y, z);
    t
}

fn spawn_related(world: &mut World) -> Entity {
    let e = world.spawn();
    world.insert_relation_components(e).unwrap();
    e
}

#[test]
fn parent_child_invariant_holds_after_reparenting() {
    let mut world = World::new();
    let a = spawn_related(&mut world);
    let b = spawn_related(&mut world);
    let c = spawn_related(&mut world);

    world.add_child(a, c).unwrap();
    assert_eq!(world.get_parent(c).unwrap(), Some(a));
    assert!(world.get_children(a).unwrap().contains(&c));

    // reassigning atomically removes c from a's list first
    world.add_child(b, c).unwrap();
    assert_eq!(world.get_parent(c).unwrap(), Some(b));
    assert!(world.get_children(b).unwrap().contains(&c));
    assert!(!world.get_children(a).unwrap().contains(&c));

    world.remove_parent(c).unwrap();
    assert_eq!(world.get_parent(c).unwrap(), None);
    assert!(!world.get_children(a).unwrap().contains(&c));
    assert!(!world.get_children(b).unwrap().contains(&c));
}

#[test]
fn add_child_is_idempotent() {
    let mut once = World::new();
    let p1 = spawn_related(&mut once);
    let x1 = spawn_related(&mut once);
    let c1 = spawn_related(&mut once);
    once.add_child(p1, x1).unwrap();
    once.add_child(p1, c1).unwrap();

    let mut twice = World::new();
    let p2 = spawn_related(&mut twice);
    let x2 = spawn_related(&mut twice);
    let c2 = spawn_related(&mut twice);
    twice.add_child(p2, x2).unwrap();
    twice.add_child(p2, c2).unwrap();
    twice.add_child(p2, c2).unwrap();

    assert_eq!(once.get_children(p1).unwrap(), twice.get_children(p2).unwrap());
    assert_eq!(once.get_parent(c1).unwrap(), twice.get_parent(c2).unwrap());
}

#[test]
fn remove_parent_on_orphan_is_noop() {
    let mut world = World::new();
    let p = spawn_related(&mut world);
    let c = spawn_related(&mut world);
    world.add_child(p, c).unwrap();

    world.remove_parent(c).unwrap();
    let children_after_first: Vec<Entity> = world.get_children(p).unwrap().clone();
    let parent_after_first = world.get_parent(c).unwrap();

    world.remove_parent(c).unwrap();
    assert_eq!(world.get_children(p).unwrap(), &children_after_first);
    assert_eq!(world.get_parent(c).unwrap(), parent_after_first);
    assert_eq!(parent_after_first, None);
}

#[test]
fn relation_errors_are_reported_in_order() {
    let mut world = World::new();
    let with_relation = spawn_related(&mut world);
    let bare = world.spawn();

    // the parent's children list is looked up first
    assert_eq!(world.add_child(bare, with_relation), Err(ComponentError::MissingComponent));
    assert_eq!(world.add_child(with_relation, bare), Err(ComponentError::MissingComponent));
    assert_eq!(world.add_child(Entity(99), with_relation), Err(ComponentError::NoSuchEntity));
    assert_eq!(world.add_child(with_relation, Entity(99)), Err(ComponentError::NoSuchEntity));
    assert_eq!(world.remove_parent(bare), Err(ComponentError::MissingComponent));
    assert_eq!(world.remove_parent(Entity(99)), Err(ComponentError::NoSuchEntity));
    assert_eq!(world.insert_transform(Entity(99), TransformComponent::default()),
        Err(ComponentError::NoSuchEntity));
}

#[test]
fn global_transform_orders_chain_root_first() {
    let mut world = World::new();
    let root = spawn_related(&mut world);
    let mid = spawn_related(&mut world);
    let leaf = spawn_related(&mut world);
    let tr = transform_at(1.0, 0.0, 0.0);
    let tm = transform_at(2.0, 0.0, 0.0);
    let tl = transform_at(4.0, 0.0, 0.0);
    world.insert_transform(root, tr).unwrap();
    world.insert_transform(mid, tm).unwrap();
    world.insert_transform(leaf, tl).unwrap();
    world.add_child(root, mid).unwrap();
    world.add_child(mid, leaf).unwrap();

    let chain = world.global_transform(leaf).unwrap();
    assert_eq!(chain, vec![tr, tm, tl]);

    // an entity with no parent resolves to its own transform alone
    assert_eq!(world.global_transform(root).unwrap(), vec![tr]);
}

#[test]
fn global_transform_skips_ancestors_without_transform() {
    let mut world = World::new();
    let root = spawn_related(&mut world);
    let leaf = spawn_related(&mut world);
    let tl = transform_at(3.0, 1.0, 0.0);
    world.insert_transform(leaf, tl).unwrap();
    world.add_child(root, leaf).unwrap();

    assert_eq!(world.global_transform(leaf).unwrap(), vec![tl]);
}

#[test]
fn transform_composition_of_translations() {
    // root at world position (5, 0, 0), child at local (1, 0, 0):
    // the composed world position is (6, 0, 0)
    let mut world = World::new();
    let root = spawn_related(&mut world);
    let child = spawn_related(&mut world);
    world.insert_transform(root, transform_at(5.0, 0.0, 0.0)).unwrap();
    world.insert_transform(child, transform_at(1.0, 0.0, 0.0)).unwrap();
    world.add_child(root, child).unwrap();

    let chain = world.global_transform(child).unwrap();
    // all rotations are identity and all scales are 1, so composing the
    // homogeneous matrices root-to-leaf sums the translations
    let mut pos = [0.0f32; 3];
    for t in &chain {
        assert_eq!(t.rotation.w, 1.0f32.to_bits());
        assert_eq!(t.scale.x, 1.0f32.to_bits());
        pos[0] += f32::from_bits(t.position.x);
        pos[1] += f32::from_bits(t.position.y);
        pos[2] += f32::from_bits(t.position.z);
    }
    assert_eq!(pos, [6.0, 0.0, 0.0]);
}

#[test]
fn global_transform_detects_cycles() {
    let mut world = World::new();
    let a = spawn_related(&mut world);
    let b = spawn_related(&mut world);
    world.insert_transform(a, TransformComponent::default()).unwrap();
    world.insert_transform(b, TransformComponent::default()).unwrap();
    world.add_child(a, b).unwrap();
    world.add_child(b, a).unwrap();

    assert_eq!(world.global_transform(a), Err(TransformError::CycleDetected));
    assert_eq!(world.global_transform(b), Err(TransformError::CycleDetected));
    assert_eq!(world.global_transform(Entity(99)), Err(TransformError::NoSuchEntity));
}

#[test]
fn reattaching_relation_components_keeps_existing_links() {
    let mut world = World::new();
    let p = spawn_related(&mut world);
    let c = spawn_related(&mut world);
    world.add_child(p, c).unwrap();

    // attaching again is a no-op on entities that already carry them
    world.insert_relation_components(p).unwrap();
    world.insert_relation_components(c).unwrap();
    assert_eq!(world.get_parent(c).unwrap(), Some(p));
    assert!(world.get_children(p).unwrap().contains(&c));
    assert_eq!(world.entity_count(), 2);
}
