//! The scene: entities, their components, and the parent/child relationship
//! bookkeeping layered onto them.
//!
//! Entities are integer ids into parallel component arrays.  The central
//! invariant, kept by every operation here, is that the parent/child links
//! form a consistent back-referenced graph: a child is in a parent's
//! children list exactly when its parent reference points back at that
//! parent, and it is in no other list.

use vstd::prelude::*;

use crate::camera::CameraComponent;
use crate::renderer::mesh::MeshComponent;
use crate::transform::TransformComponent;

verus! {

/// Identifier of a scene entity: an index into the world's component
/// arrays, handed out by `spawn` and never reused.
#[derive(Debug, Clone, Copy, PartialEq, Eq, Structural)]
pub struct Entity(pub usize);

/// Back-reference from a child entity to its parent, if any.
#[derive(Debug, Clone, Copy, PartialEq, Eq, Structural)]
pub struct ParentComponent(pub Option<Entity>);

/// The ordered list of an entity's children.  Order is not meaningful:
/// detaching a child swap-removes it.
#[derive(Debug, Clone)]
pub struct ChildrenComponent(pub Vec<Entity>);

/// Failure of a component access: the entity id is not of this world, or
/// the entity lacks the requested component.
#[derive(Debug, Clone, Copy, PartialEq, Eq, Structural)]
pub enum ComponentError {
    NoSuchEntity,
    MissingComponent,
}

/// Failure of transform resolution: the entity id is not of this world, or
/// its parent chain never reaches a root.
#[derive(Debug, Clone, Copy, PartialEq, Eq, Structural)]
pub enum TransformError {
    NoSuchEntity,
    CycleDetected,
}

/// The entity-component store: parallel arrays of optional components,
/// indexed by entity id.
pub struct World {
    pub transforms: Vec<Option<TransformComponent>>,
    pub parents: Vec<Option<ParentComponent>>,
    pub children: Vec<Option<ChildrenComponent>>,
    pub cameras: Vec<Option<CameraComponent>>,
    pub mesh_components: Vec<Option<MeshComponent>>,
}

impl World {
    /// How many entities have been spawned.
    pub open spec fn num_entities(self) -> nat {
        self.transforms@.len()
    }

    /// All component arrays cover the same entities.
    pub open spec fn lens_ok(self) -> bool {
        &&& self.num_entities() <= usize::MAX
        &&& self.parents@.len() == self.num_entities()
        &&& self.children@.len() == self.num_entities()
        &&& self.cameras@.len() == self.num_entities()
        &&& self.mesh_components@.len() == self.num_entities()
    }

    /// `e` is an entity of this world.
    pub open spec fn valid(self, e: int) -> bool {
        0 <= e < self.num_entities()
    }

    /// `e` carries a `ParentComponent`.
    pub open spec fn has_parent_slot(self, e: int) -> bool {
        self.parents@[e] is Some
    }

    /// The parent reference of `e` (which must carry a `ParentComponent`).
    pub open spec fn parent_link(self, e: int) -> Option<Entity> {
        (self.parents@[e]->0).0
    }

    /// `e` carries a `ChildrenComponent`.
    pub open spec fn has_children_slot(self, e: int) -> bool {
        self.children@[e] is Some
    }

    /// The children list of `e` (which must carry a `ChildrenComponent`).
    pub open spec fn child_seq(self, e: int) -> Seq<Entity> {
        (self.children@[e]->0).0@
    }

    /// The children lists, one abstract sequence per entity, `None` where
    /// the entity has no `ChildrenComponent`.
    pub open spec fn children_model(self) -> Seq<Option<Seq<Entity>>> {
        Seq::new(
            self.children@.len(),
            |i: int|
                if self.children@[i] is Some {
                    Some((self.children@[i]->0).0@)
                } else {
                    None
                },
        )
    }

    /// Every parent reference points at an entity of this world that
    /// carries a children list containing the referrer.
    pub open spec fn parent_links_ok(self) -> bool {
        forall|c: int|
            #![trigger self.parent_link(c)]
            self.valid(c) && self.has_parent_slot(c) && self.parent_link(c) is Some ==> {
                let p = (self.parent_link(c)->0).0 as int;
                &&& self.valid(p)
                &&& self.has_children_slot(p)
                &&& self.child_seq(p).contains(Entity(c as usize))
            }
    }

    /// Every entry of a children list is an entity of this world whose
    /// parent reference points back at the list's owner.
    pub open spec fn child_entries_ok(self) -> bool {
        forall|p: int, i: int|
            #![trigger self.child_seq(p)[i]]
            self.valid(p) && self.has_children_slot(p) && 0 <= i < self.child_seq(p).len()
                ==> {
                let c = self.child_seq(p)[i].0 as int;
                &&& self.valid(c)
                &&& self.has_parent_slot(c)
                &&& self.parent_link(c) == Some(Entity(p as usize))
            }
    }

    /// No children list mentions the same entity twice.
    pub open spec fn children_distinct(self) -> bool {
        forall|p: int, i: int, j: int|
            #![trigger self.child_seq(p)[i], self.child_seq(p)[j]]
            self.valid(p) && self.has_children_slot(p) && 0 <= i < j < self.child_seq(p).len()
                ==> self.child_seq(p)[i] != self.child_seq(p)[j]
    }

    /// Well-formedness of the world: consistent array lengths and a
    /// consistent parent/child graph.  Established by `new` and preserved
    /// by every operation of this module.
    pub open spec fn wf(self) -> bool {
        &&& self.lens_ok()
        &&& self.parent_links_ok()
        &&& self.child_entries_ok()
        &&& self.children_distinct()
    }

    /// The two worlds hold the same entities and components.
    pub open spec fn same_state(self, other: World) -> bool {
        &&& self.transforms@ == other.transforms@
        &&& self.parents@ == other.parents@
        &&& self.children_model() == other.children_model()
        &&& self.cameras@ == other.cameras@
        &&& self.mesh_components@ == other.mesh_components@
    }

    /// The children lists after detaching `c` from its current parent:
    /// `c` is swap-removed from that parent's list; with no current parent
    /// nothing changes.  (`c` must carry a `ParentComponent`.)
    pub open spec fn children_after_detach(self, c: Entity) -> Seq<Option<Seq<Entity>>> {
        if self.parent_link(c.0 as int) is Some {
            let q = (self.parent_link(c.0 as int)->0).0 as int;
            let list = self.child_seq(q);
            let i = list.index_of_first(c)->0;
            self.children_model().update(q, Some(swap_removed(list, i)))
        } else {
            self.children_model()
        }
    }

    /// The children lists after a successful `add_child(p, c)`: `c`
    /// detached from its old parent, then appended to `p`'s list.
    pub open spec fn children_after_add(self, p: Entity, c: Entity) -> Seq<Option<Seq<Entity>>> {
        let detached = self.children_after_detach(c);
        detached.update(p.0 as int, Some((detached[p.0 as int]->0).push(c)))
    }

    /// Flattened parent pointer of `e`: its parent entity, if `e` carries
    /// a `ParentComponent` that points somewhere.
    pub open spec fn parent_ptr(self, e: usize) -> Option<Entity> {
        if self.has_parent_slot(e as int) {
            self.parent_link(e as int)
        } else {
            None
        }
    }

    /// The ancestor ids of `e`, root first and ending with `e`, obtained
    /// by following parent pointers through at most `fuel` entities.
    /// `None` when the fuel runs out; with fuel `num_entities() + 1` that
    /// can only happen when the chain above `e` runs in a cycle, since an
    /// acyclic chain visits each entity at most once.
    pub open spec fn chain_ids(self, e: usize, fuel: nat) -> Option<Seq<usize>>
        decreases fuel,
    {
        if fuel == 0 {
            None
        } else {
            match self.parent_ptr(e) {
                None => Some(seq![e]),
                Some(pe) => match self.chain_ids(pe.0, (fuel - 1) as nat) {
                    None => None,
                    Some(s) => Some(s.push(e)),
                },
            }
        }
    }

    /// The parent chain of `e` reaches a root: no cycle above `e`.
    pub open spec fn resolvable(self, e: usize) -> bool {
        self.chain_ids(e, self.num_entities() + 1) is Some
    }

    /// The ancestor ids of `e`, root first (when `e` is resolvable).
    pub open spec fn ancestor_ids(self, e: usize) -> Seq<usize> {
        self.chain_ids(e, self.num_entities() + 1)->0
    }

    /// The local transforms of the entities in `ids`, in order, skipping
    /// entities that carry no `TransformComponent`.
    pub open spec fn transforms_along(self, ids: Seq<usize>) -> Seq<TransformComponent>
        decreases ids.len(),
    {
        if ids.len() == 0 {
            Seq::empty()
        } else {
            let init = self.transforms_along(ids.drop_last());
            match self.transforms@[ids.last() as int] {
                Some(t) => init.push(t),
                None => init,
            }
        }
    }

    /// The world transform of `e` as a composition chain: the local
    /// transforms of its ancestors, root first.  Composing them in order
    /// (`world = parent_world * local`) yields the world matrix.
    pub open spec fn transform_chain(self, e: usize) -> Seq<TransformComponent> {
        self.transforms_along(self.ancestor_ids(e))
    }

    /// State relation of a successful `add_child(p, c)`: the child's
    /// back-reference is set to `p`, the children lists change as
    /// `children_after_add` says, everything else is kept.
    pub open spec fn add_child_post(pre: World, post: World, p: Entity, c: Entity) -> bool {
        &&& post.parents@ == pre.parents@.update(
            c.0 as int,
            Some(ParentComponent(Some(p))),
        )
        &&& post.children_model() == pre.children_after_add(p, c)
        &&& post.transforms@ == pre.transforms@
        &&& post.cameras@ == pre.cameras@
        &&& post.mesh_components@ == pre.mesh_components@
    }

    /// State relation of a successful `remove_parent(c)`: the child's
    /// back-reference is cleared, the children lists change as
    /// `children_after_detach` says, everything else is kept.
    pub open spec fn remove_parent_post(pre: World, post: World, c: Entity) -> bool {
        &&& post.parents@ == pre.parents@.update(c.0 as int, Some(ParentComponent(None)))
        &&& post.children_model() == pre.children_after_detach(c)
        &&& post.transforms@ == pre.transforms@
        &&& post.cameras@ == pre.cameras@
        &&& post.mesh_components@ == pre.mesh_components@
    }

    /// An empty world.
    pub fn new() -> (w: World)
        ensures
            w.wf(),
            w.num_entities() == 0,
    {
        World {
            transforms: Vec::new(),
            parents: Vec::new(),
            children: Vec::new(),
            cameras: Vec::new(),
            mesh_components: Vec::new(),
        }
    }

    /// Create a new entity with no components and return its id.  (The
    /// entity count is bounded by the address space.)
    pub fn spawn(&mut self) -> (e: Entity)
        requires
            old(self).wf(),
            old(self).num_entities() < usize::MAX,
        ensures
            final(self).wf(),
            e.0 == old(self).num_entities(),
            final(self).num_entities() == old(self).num_entities() + 1,
            final(self).transforms@ == old(self).transforms@.push(None::<TransformComponent>),
            final(self).parents@ == old(self).parents@.push(None::<ParentComponent>),
            final(self).children_model() == old(self).children_model().push(
                None::<Seq<Entity>>,
            ),
            final(self).cameras@ == old(self).cameras@.push(None::<CameraComponent>),
            final(self).mesh_components@ == old(self).mesh_components@.push(
                None::<MeshComponent>,
            ),
    {
        let id = self.transforms.len();
        self.transforms.push(None);
        self.parents.push(None);
        self.children.push(None);
        self.cameras.push(None);
        self.mesh_components.push(None);
        proof {
            lemma_spawn_wf(*old(self), *self);
        }
        Entity(id)
    }

    /// Attach (or replace) the local transform of `e`.
    pub fn insert_transform(&mut self, e: Entity, t: TransformComponent) -> (r: Result<
        (),
        ComponentError,
    >)
        requires
            old(self).wf(),
        ensures
            final(self).wf(),
            r is Ok <==> old(self).valid(e.0 as int),
            r is Ok ==> final(self).transforms@ == old(self).transforms@.update(
                e.0 as int,
                Some(t),
            ),
            r is Err ==> r == Err::<(), ComponentError>(ComponentError::NoSuchEntity) && *final(self) == *old(self),
            final(self).parents@ == old(self).parents@,
            final(self).children_model() == old(self).children_model(),
            final(self).cameras@ == old(self).cameras@,
            final(self).mesh_components@ == old(self).mesh_components@,
            final(self).num_entities() == old(self).num_entities(),
    {
        if e.0 < self.transforms.len() {
            self.transforms[e.0] = Some(t);
            proof {
                lemma_graph_unchanged_wf(*old(self), *self);
            }
            Ok(())
        } else {
            Err(ComponentError::NoSuchEntity)
        }
    }

    /// Attach (or replace) the camera of `e`.
    pub fn insert_camera(&mut self, e: Entity, c: CameraComponent) -> (r: Result<
        (),
        ComponentError,
    >)
        requires
            old(self).wf(),
        ensures
            final(self).wf(),
            r is Ok <==> old(self).valid(e.0 as int),
            r is Ok ==> final(self).cameras@ == old(self).cameras@.update(e.0 as int, Some(c)),
            r is Err ==> r == Err::<(), ComponentError>(ComponentError::NoSuchEntity) && *final(self) == *old(self),
            final(self).transforms@ == old(self).transforms@,
            final(self).parents@ == old(self).parents@,
            final(self).children_model() == old(self).children_model(),
            final(self).mesh_components@ == old(self).mesh_components@,
            final(self).num_entities() == old(self).num_entities(),
    {
        if e.0 < self.cameras.len() {
            proof {
                assert(old(self).lens_ok());
            }
            self.cameras[e.0] = Some(c);
            proof {
                lemma_graph_unchanged_wf(*old(self), *self);
            }
            Ok(())
        } else {
            Err(ComponentError::NoSuchEntity)
        }
    }

    /// Attach (or replace) the mesh component of `e`.
    pub fn insert_mesh_component(&mut self, e: Entity, m: MeshComponent) -> (r: Result<
        (),
        ComponentError,
    >)
        requires
            old(self).wf(),
        ensures
            final(self).wf(),
            r is Ok <==> old(self).valid(e.0 as int),
            r is Ok ==> final(self).mesh_components@ == old(self).mesh_components@.update(
                e.0 as int,
                Some(m),
            ),
            r is Err ==> r == Err::<(), ComponentError>(ComponentError::NoSuchEntity) && *final(self) == *old(self),
            final(self).transforms@ == old(self).transforms@,
            final(self).parents@ == old(self).parents@,
            final(self).children_model() == old(self).children_model(),
            final(self).cameras@ == old(self).cameras@,
            final(self).num_entities() == old(self).num_entities(),
    {
        if e.0 < self.mesh_components.len() {
            proof {
                assert(old(self).lens_ok());
            }
            self.mesh_components[e.0] = Some(m);
            proof {
                lemma_graph_unchanged_wf(*old(self), *self);
            }
            Ok(())
        } else {
            Err(ComponentError::NoSuchEntity)
        }
    }

    /// Attach the relation components to `e`, so that it can take part in
    /// `add_child`/`remove_parent`: a cleared parent reference and an empty
    /// children list.  Components already present are kept as they are.
    pub fn insert_relation_components(&mut self, e: Entity) -> (r: Result<(), ComponentError>)
        requires
            old(self).wf(),
        ensures
            final(self).wf(),
            r is Ok <==> old(self).valid(e.0 as int),
            r is Err ==> r == Err::<(), ComponentError>(ComponentError::NoSuchEntity) && *final(self) == *old(self),
            r is Ok ==> {
                &&& final(self).has_parent_slot(e.0 as int)
                &&& final(self).has_children_slot(e.0 as int)
                &&& final(self).parents@ == (if old(self).has_parent_slot(e.0 as int) {
                    old(self).parents@
                } else {
                    old(self).parents@.update(e.0 as int, Some(ParentComponent(None)))
                })
                &&& final(self).children_model() == (if old(self).has_children_slot(
                    e.0 as int,
                ) {
                    old(self).children_model()
                } else {
                    old(self).children_model().update(e.0 as int, Some(Seq::<Entity>::empty()))
                })
            },
            final(self).transforms@ == old(self).transforms@,
            final(self).cameras@ == old(self).cameras@,
            final(self).mesh_components@ == old(self).mesh_components@,
            final(self).num_entities() == old(self).num_entities(),
    {
        if e.0 >= self.transforms.len() {
            return Err(ComponentError::NoSuchEntity);
        }
        proof {
            assert(old(self).lens_ok());
        }
        if self.parents[e.0].is_none() {
            self.parents[e.0] = Some(ParentComponent(None));
        }
        if self.children[e.0].is_none() {
            self.children[e.0] = Some(ChildrenComponent(Vec::new()));
        }
        proof {
            let pre = *old(self);
            let post = *self;
            assert forall|c: int|
                post.valid(c) && post.has_parent_slot(c) && #[trigger] post.parent_link(c)
                    is Some implies {
                let p = (post.parent_link(c)->0).0 as int;
                &&& post.valid(p)
                &&& post.has_children_slot(p)
                &&& post.child_seq(p).contains(Entity(c as usize))
            } by {
                let p = (post.parent_link(c)->0).0 as int;
                assert(pre.parent_link(c) == post.parent_link(c));
                assert(pre.valid(p) && pre.has_children_slot(p));
                assert(post.child_seq(p) == pre.child_seq(p));
                assert(pre.child_seq(p).contains(Entity(c as usize)));
            }
            assert forall|p: int, i: int|
                post.valid(p) && post.has_children_slot(p) && 0 <= i < post.child_seq(p).len()
                    implies {
                let c = #[trigger] post.child_seq(p)[i].0 as int;
                &&& post.valid(c)
                &&& post.has_parent_slot(c)
                &&& post.parent_link(c) == Some(Entity(p as usize))
            } by {
                assert(pre.has_children_slot(p) && post.child_seq(p) == pre.child_seq(p));
                assert(pre.child_seq(p)[i] == post.child_seq(p)[i]);
                let c = post.child_seq(p)[i].0 as int;
                assert(pre.parent_link(c) == post.parent_link(c));
            }
            assert forall|p: int, i: int, j: int|
                post.valid(p) && post.has_children_slot(p) && 0 <= i < j < post.child_seq(p).len()
                    implies #[trigger] post.child_seq(p)[i] != #[trigger] post.child_seq(p)[j] by {
                assert(pre.has_children_slot(p) && post.child_seq(p) == pre.child_seq(p));
                assert(pre.child_seq(p)[i] != pre.child_seq(p)[j]);
            }
        }
        Ok(())
    }

    /// Make `child_entity` a child of `parent_entity`.
    ///
    /// If the child already has a parent it is first removed from that
    /// parent's children list (a swap-remove, so no order is kept), then
    /// appended to the new parent's list and its back-reference is set.
    /// Calling this twice in a row with the same pair leaves the same state
    /// as calling it once.  Both entities must carry the relation
    /// components; otherwise nothing changes and the error says which
    /// access failed first (the parent's children list is looked up before
    /// the child's parent reference).
    pub fn add_child(&mut self, parent_entity: Entity, child_entity: Entity) -> (r: Result<
        (),
        ComponentError,
    >)
        requires
            old(self).wf(),
        ensures
            final(self).wf(),
            r == ({
                let pre = *old(self);
                if !pre.valid(parent_entity.0 as int) {
                    Err::<(), ComponentError>(ComponentError::NoSuchEntity)
                } else if !pre.has_children_slot(parent_entity.0 as int) {
                    Err::<(), ComponentError>(ComponentError::MissingComponent)
                } else if !pre.valid(child_entity.0 as int) {
                    Err::<(), ComponentError>(ComponentError::NoSuchEntity)
                } else if !pre.has_parent_slot(child_entity.0 as int) {
                    Err::<(), ComponentError>(ComponentError::MissingComponent)
                } else {
                    Ok::<(), ComponentError>(())
                }
            }),
            r is Err ==> *final(self) == *old(self),
            r is Ok ==> World::add_child_post(*old(self), *final(self), parent_entity, child_entity),
    {
        let n = self.transforms.len();
        let pv = parent_entity.0;
        let cv = child_entity.0;
        proof {
            assert(old(self).lens_ok());
        }
        if pv >= n {
            return Err(ComponentError::NoSuchEntity);
        }
        if self.children[pv].is_none() {
            return Err(ComponentError::MissingComponent);
        }
        if cv >= n {
            return Err(ComponentError::NoSuchEntity);
        }
        let old_link: Option<Entity> = match &self.parents[cv] {
            None => {
                return Err(ComponentError::MissingComponent);
            },
            Some(pc) => pc.0,
        };
        let ghost pre = *old(self);
        if let Some(old_parent) = old_link {
            let q = old_parent.0;
            proof {
                // the parent reference is backed by a children list entry
                assert(pre.parent_link(cv as int) is Some);
                assert(pre.child_seq(q as int).contains(Entity((cv as int) as usize)));
                assert(Entity((cv as int) as usize) == child_entity);
            }
            let idx: usize;
            match &self.children[q] {
                Some(cc) => {
                    idx = find_child_index(&cc.0, child_entity);
                },
                None => {
                    idx = 0;
                },
            }
            proof {
                let list = pre.child_seq(q as int);
                list.index_of_first_ensures(child_entity);
                let i = list.index_of_first(child_entity)->0;
                assert(list[i] == child_entity);
                if i < idx {
                    assert(list[i] != child_entity);
                }
                if idx < i {
                    assert(list[idx as int] != child_entity);
                }
                assert(idx as int == i);
            }
            match &mut self.children[q] {
                Some(cc) => {
                    cc.0.swap_remove(idx);
                },
                None => {},
            }
            proof {
                lemma_children_model_inner_update(
                    pre,
                    *self,
                    q as int,
                    swap_removed(pre.child_seq(q as int), idx as int),
                );
                assert(self.children_model() =~= pre.children_after_detach(child_entity));
            }
        } else {
            proof {
                assert(self.children_model() =~= pre.children_after_detach(child_entity));
            }
        }
        let ghost mid = *self;
        proof {
            assert(mid.children_model() == pre.children_after_detach(child_entity));
            lemma_detach_props(pre, child_entity, mid.children_model());
            assert(mid.children@[pv as int] is Some);
        }
        match &mut self.children[pv] {
            Some(cc) => {
                cc.0.push(child_entity);
            },
            None => {},
        }
        self.parents[cv] = Some(ParentComponent(Some(parent_entity)));
        proof {
            let detached = pre.children_after_detach(child_entity);
            lemma_children_model_inner_update(
                mid,
                *self,
                pv as int,
                (detached[pv as int]->0).push(child_entity),
            );
            assert(self.children_model() =~= pre.children_after_add(parent_entity, child_entity));
            lemma_add_child_wf(pre, *self, parent_entity, child_entity);
        }
        Ok(())
    }

    /// Detach `child_entity` from its parent, if it has one: remove it from
    /// that parent's children list and clear its back-reference.  A no-op
    /// on an entity that already has no parent.  The entity must carry a
    /// `ParentComponent`.
    pub fn remove_parent(&mut self, child_entity: Entity) -> (r: Result<(), ComponentError>)
        requires
            old(self).wf(),
        ensures
            final(self).wf(),
            r == ({
                let pre = *old(self);
                if !pre.valid(child_entity.0 as int) {
                    Err::<(), ComponentError>(ComponentError::NoSuchEntity)
                } else if !pre.has_parent_slot(child_entity.0 as int) {
                    Err::<(), ComponentError>(ComponentError::MissingComponent)
                } else {
                    Ok::<(), ComponentError>(())
                }
            }),
            r is Err ==> *final(self) == *old(self),
            r is Ok ==> World::remove_parent_post(*old(self), *final(self), child_entity),
    {
        let n = self.transforms.len();
        let cv = child_entity.0;
        proof {
            assert(old(self).lens_ok());
        }
        if cv >= n {
            return Err(ComponentError::NoSuchEntity);
        }
        let old_link: Option<Entity> = match &self.parents[cv] {
            None => {
                return Err(ComponentError::MissingComponent);
            },
            Some(pc) => pc.0,
        };
        let ghost pre = *old(self);
        if let Some(old_parent) = old_link {
            let q = old_parent.0;
            proof {
                assert(pre.parent_link(cv as int) is Some);
                assert(pre.child_seq(q as int).contains(Entity((cv as int) as usize)));
                assert(Entity((cv as int) as usize) == child_entity);
            }
            let idx: usize;
            match &self.children[q] {
                Some(cc) => {
                    idx = find_child_index(&cc.0, child_entity);
                },
                None => {
                    idx = 0;
                },
            }
            proof {
                let list = pre.child_seq(q as int);
                list.index_of_first_ensures(child_entity);
                let i = list.index_of_first(child_entity)->0;
                assert(list[i] == child_entity);
                if i < idx {
                    assert(list[i] != child_entity);
                }
                if idx < i {
                    assert(list[idx as int] != child_entity);
                }
                assert(idx as int == i);
            }
            match &mut self.children[q] {
                Some(cc) => {
                    cc.0.swap_remove(idx);
                },
                None => {},
            }
            proof {
                lemma_children_model_inner_update(
                    pre,
                    *self,
                    q as int,
                    swap_removed(pre.child_seq(q as int), idx as int),
                );
                assert(self.children_model() =~= pre.children_after_detach(child_entity));
            }
        } else {
            proof {
                assert(self.children_model() =~= pre.children_after_detach(child_entity));
            }
        }
        self.parents[cv] = Some(ParentComponent(None));
        proof {
            assert(self.children_model() == pre.children_after_detach(child_entity));
            lemma_remove_parent_wf(pre, *self, child_entity);
        }
        Ok(())
    }

    /// Resolve the world transform of `entity` as a composition chain: the
    /// local transforms of its ancestors, root first.  Composing them in
    /// order (`world = parent_world * local`) yields the world matrix; the
    /// matrix algebra itself is the GPU layer's.  Recomputed from scratch
    /// on every call.  Ancestors without a `TransformComponent` contribute
    /// nothing (identity).  Fails loudly when the parent chain above
    /// `entity` runs in a cycle instead of reaching a root.
    pub fn global_transform(&self, entity: Entity) -> (r: Result<
        Vec<TransformComponent>,
        TransformError,
    >)
        requires
            self.wf(),
        ensures
            !self.valid(entity.0 as int) ==> r == Err::<Vec<TransformComponent>, TransformError>(
                TransformError::NoSuchEntity,
            ),
            self.valid(entity.0 as int) && !self.resolvable(entity.0) ==> r == Err::<
                Vec<TransformComponent>,
                TransformError,
            >(TransformError::CycleDetected),
            self.valid(entity.0 as int) && self.resolvable(entity.0) ==> (r matches Ok(chain)
                && chain@ == self.transform_chain(entity.0)),
    {
        let n = self.transforms.len();
        if entity.0 >= n {
            return Err(TransformError::NoSuchEntity);
        }
        proof {
            assert(self.lens_ok());
        }
        let ghost fuel0: nat = self.num_entities() + 1;
        let mut ids: Vec<usize> = Vec::new();
        let mut cur: usize = entity.0;
        proof {
            let rem = self.chain_ids(cur, fuel0);
            if rem is Some {
                assert(rem->0 + ids@ =~= rem->0);
            }
        }
        loop
            invariant_except_break
                ids@.len() <= n,
                ({
                    let rem = self.chain_ids(cur, (fuel0 - ids@.len()) as nat);
                    &&& (rem is None ==> self.chain_ids(entity.0, fuel0) is None)
                    &&& (rem matches Some(s) ==> self.chain_ids(entity.0, fuel0) == Some(
                        s + ids@,
                    ))
                }),
            invariant
                self.wf(),
                n == self.num_entities(),
                entity.0 < n,
                cur < n,
                forall|k: int| 0 <= k < ids@.len() ==> (#[trigger] ids@[k]) < n,
                fuel0 == self.num_entities() + 1,
            ensures
                self.chain_ids(entity.0, fuel0) == Some(ids@),
                ids@.len() <= n + 1,
                forall|k: int| 0 <= k < ids@.len() ==> (#[trigger] ids@[k]) < n,
            decreases n - ids@.len(),
        {
            let ghost k = ids@.len();
            let ghost rem_fuel = (fuel0 - k) as nat;
            proof {
                assert(rem_fuel >= 1);
            }
            let link: Option<Entity> = match &self.parents[cur] {
                Some(pc) => pc.0,
                None => None,
            };
            proof {
                assert(link == self.parent_ptr(cur));
            }
            match link {
                None => {
                    let ghost old_ids = ids@;
                    ids.insert(0, cur);
                    proof {
                        assert(self.chain_ids(cur, rem_fuel) == Some(seq![cur]));
                        assert(ids@ =~= seq![cur] + old_ids);
                    }
                    break;
                },
                Some(parent) => {
                    let ghost old_ids = ids@;
                    ids.insert(0, cur);
                    proof {
                        assert(ids@ =~= seq![cur] + old_ids);
                    }
                    if ids.len() > n {
                        proof {
                            // fuel is exhausted one step up: the chain
                            // visited every entity and still found a parent
                            assert(rem_fuel == 1);
                            assert(self.chain_ids(cur, rem_fuel) is None);
                        }
                        return Err(TransformError::CycleDetected);
                    }
                    proof {
                        let rem2 = self.chain_ids(parent.0, (rem_fuel - 1) as nat);
                        if rem2 is Some {
                            let s2 = rem2->0;
                            assert(self.chain_ids(cur, rem_fuel) == Some(s2.push(cur)));
                            assert(s2.push(cur) + old_ids =~= s2 + ids@);
                        }
                    }
                    cur = parent.0;
                },
            }
        }
        let mut chain: Vec<TransformComponent> = Vec::new();
        let mut j: usize = 0;
        proof {
            assert(ids@.take(0) =~= Seq::<usize>::empty());
        }
        while j < ids.len()
            invariant
                self.wf(),
                n == self.num_entities(),
                j <= ids@.len(),
                forall|k: int| 0 <= k < ids@.len() ==> (#[trigger] ids@[k]) < n,
                chain@ == self.transforms_along(ids@.take(j as int)),
            decreases ids@.len() - j,
        {
            let id = ids[j];
            match &self.transforms[id] {
                Some(t) => {
                    chain.push(*t);
                },
                None => {},
            }
            j += 1;
            proof {
                assert(ids@.take(j as int).drop_last() =~= ids@.take(j - 1));
                assert(ids@.take(j as int).last() == ids@[j - 1]);
            }
        }
        proof {
            assert(ids@.take(ids@.len() as int) =~= ids@);
            assert(self.ancestor_ids(entity.0) == ids@);
        }
        Ok(chain)
    }

    /// How many entities have been spawned.
    pub fn entity_count(&self) -> (n: usize)
        ensures
            n == self.num_entities(),
    {
        self.transforms.len()
    }

    /// The local transform of `e`, if it carries one.
    pub fn get_transform(&self, e: Entity) -> (r: Result<&TransformComponent, ComponentError>)
        requires
            self.wf(),
        ensures
            !self.valid(e.0 as int) ==> r == Err::<&TransformComponent, ComponentError>(
                ComponentError::NoSuchEntity,
            ),
            self.valid(e.0 as int) && self.transforms@[e.0 as int] is None ==> r == Err::<
                &TransformComponent,
                ComponentError,
            >(ComponentError::MissingComponent),
            self.valid(e.0 as int) && self.transforms@[e.0 as int] is Some ==> (r matches Ok(t)
                && *t == self.transforms@[e.0 as int]->0),
    {
        if e.0 >= self.transforms.len() {
            return Err(ComponentError::NoSuchEntity);
        }
        match &self.transforms[e.0] {
            Some(t) => Ok(t),
            None => Err(ComponentError::MissingComponent),
        }
    }

    /// The parent reference of `e`, if it carries one: `Ok(None)` is a
    /// root, `Ok(Some(p))` a child of `p`.
    pub fn get_parent(&self, e: Entity) -> (r: Result<Option<Entity>, ComponentError>)
        requires
            self.wf(),
        ensures
            !self.valid(e.0 as int) ==> r == Err::<Option<Entity>, ComponentError>(
                ComponentError::NoSuchEntity,
            ),
            self.valid(e.0 as int) && !self.has_parent_slot(e.0 as int) ==> r == Err::<
                Option<Entity>,
                ComponentError,
            >(ComponentError::MissingComponent),
            self.valid(e.0 as int) && self.has_parent_slot(e.0 as int) ==> r == Ok::<
                Option<Entity>,
                ComponentError,
            >(self.parent_link(e.0 as int)),
    {
        proof {
            assert(self.lens_ok());
        }
        if e.0 >= self.transforms.len() {
            return Err(ComponentError::NoSuchEntity);
        }
        match &self.parents[e.0] {
            Some(pc) => Ok(pc.0),
            None => Err(ComponentError::MissingComponent),
        }
    }

    /// The children list of `e`, if it carries one.
    pub fn get_children(&self, e: Entity) -> (r: Result<&Vec<Entity>, ComponentError>)
        requires
            self.wf(),
        ensures
            !self.valid(e.0 as int) ==> r == Err::<&Vec<Entity>, ComponentError>(
                ComponentError::NoSuchEntity,
            ),
            self.valid(e.0 as int) && !self.has_children_slot(e.0 as int) ==> r == Err::<
                &Vec<Entity>,
                ComponentError,
            >(ComponentError::MissingComponent),
            self.valid(e.0 as int) && self.has_children_slot(e.0 as int) ==> (r matches Ok(v)
                && v@ == self.child_seq(e.0 as int)),
    {
        proof {
            assert(self.lens_ok());
        }
        if e.0 >= self.transforms.len() {
            return Err(ComponentError::NoSuchEntity);
        }
        match &self.children[e.0] {
            Some(cc) => Ok(&cc.0),
            None => Err(ComponentError::MissingComponent),
        }
    }

    /// The camera of `e`, if it carries one.
    pub fn get_camera(&self, e: Entity) -> (r: Result<&CameraComponent, ComponentError>)
        requires
            self.wf(),
        ensures
            !self.valid(e.0 as int) ==> r == Err::<&CameraComponent, ComponentError>(
                ComponentError::NoSuchEntity,
            ),
            self.valid(e.0 as int) && self.cameras@[e.0 as int] is None ==> r == Err::<
                &CameraComponent,
                ComponentError,
            >(ComponentError::MissingComponent),
            self.valid(e.0 as int) && self.cameras@[e.0 as int] is Some ==> (r matches Ok(c)
                && *c == self.cameras@[e.0 as int]->0),
    {
        proof {
            assert(self.lens_ok());
        }
        if e.0 >= self.transforms.len() {
            return Err(ComponentError::NoSuchEntity);
        }
        match &self.cameras[e.0] {
            Some(c) => Ok(c),
            None => Err(ComponentError::MissingComponent),
        }
    }

    /// The mesh component of `e`, if it carries one.
    pub fn get_mesh_component(&self, e: Entity) -> (r: Result<MeshComponent, ComponentError>)
        requires
            self.wf(),
        ensures
            !self.valid(e.0 as int) ==> r == Err::<MeshComponent, ComponentError>(
                ComponentError::NoSuchEntity,
            ),
            self.valid(e.0 as int) && self.mesh_components@[e.0 as int] is None ==> r == Err::<
                MeshComponent,
                ComponentError,
            >(ComponentError::MissingComponent),
            self.valid(e.0 as int) && self.mesh_components@[e.0 as int] is Some ==> r == Ok::<
                MeshComponent,
                ComponentError,
            >(self.mesh_components@[e.0 as int]->0),
    {
        proof {
            assert(self.lens_ok());
        }
        if e.0 >= self.transforms.len() {
            return Err(ComponentError::NoSuchEntity);
        }
        match &self.mesh_components[e.0] {
            Some(mc) => Ok(*mc),
            None => Err(ComponentError::MissingComponent),
        }
    }
}

/// The view of a children list after `swap_remove(i)`: the last element
/// moves into slot `i` and the list shrinks by one.
pub open spec fn swap_removed(s: Seq<Entity>, i: int) -> Seq<Entity> {
    s.update(i, s.last()).drop_last()
}

/// What `swap_removed` does to a duplicate-free list: it keeps every
/// element but the removed one, and stays duplicate-free.
pub proof fn lemma_swap_removed(s: Seq<Entity>, i: int)
    requires
        0 <= i < s.len(),
        forall|x: int, y: int| 0 <= x < y < s.len() ==> s[x] != s[y],
    ensures
        swap_removed(s, i).len() == s.len() - 1,
        forall|e: Entity| #[trigger]
            swap_removed(s, i).contains(e) <==> (s.contains(e) && e != s[i]),
        forall|x: int, y: int|
            0 <= x < y < swap_removed(s, i).len() ==> swap_removed(s, i)[x] != swap_removed(
                s,
                i,
            )[y],
{
    let r = swap_removed(s, i);
    let last = s.len() - 1;
    assert(r.len() == s.len() - 1);
    assert(forall|j: int| 0 <= j < r.len() ==> r[j] == (if j == i {
        s[last]
    } else {
        s[j]
    }));
    assert forall|e: Entity| #[trigger] r.contains(e) implies (s.contains(e) && e != s[i]) by {
        let j = choose|j: int| 0 <= j < r.len() && r[j] == e;
        if j == i {
            assert(s[last] == e);
            assert(i < last);
        } else {
            assert(s[j] == e);
            if j < i {
                assert(s[j] != s[i]);
            } else {
                assert(s[i] != s[j]);
            }
        }
    }
    assert forall|e: Entity| s.contains(e) && e != s[i] implies #[trigger] r.contains(e) by {
        let j = choose|j: int| 0 <= j < s.len() && s[j] == e;
        if j == last {
            // e is the last element; it now sits at slot i, which survived
            // because i would otherwise be the removed slot itself
            assert(i != last);
            assert(r[i] == e);
        } else {
            assert(j != i);
            assert(r[j] == e);
        }
    }
    assert forall|x: int, y: int| 0 <= x < y < r.len() implies r[x] != r[y] by {
        if x == i {
            assert(r[x] == s[last] && r[y] == s[y]);
            assert(y < last);
        } else if y == i {
            assert(r[x] == s[x] && r[y] == s[last]);
            assert(x < last);
        } else {
            assert(r[x] == s[x] && r[y] == s[y]);
        }
    }
}

/// Position of the first occurrence of `c` in `list`, which must contain it.
fn find_child_index(list: &Vec<Entity>, c: Entity) -> (i: usize)
    requires
        list@.contains(c),
    ensures
        i < list@.len(),
        list@[i as int] == c,
        forall|j: int| 0 <= j < i ==> list@[j] != c,
{
    let mut i: usize = 0;
    while i < list.len()
        invariant
            i <= list@.len(),
            list@.contains(c),
            forall|j: int| 0 <= j < i ==> list@[j] != c,
        decreases list@.len() - i,
    {
        if list[i] == c {
            return i;
        }
        i += 1;
    }
    proof {
        let k = choose|k: int| 0 <= k < list@.len() && list@[k] == c;
        assert(list@[k] != c);
    }
    0
}

/// The inner-list mutations below change one slot of the `children` array;
/// this relates the resulting lists to the old ones.
proof fn lemma_children_model_inner_update(pre: World, post: World, q: int, s: Seq<Entity>)
    requires
        post.children@.len() == pre.children@.len(),
        0 <= q < pre.children@.len(),
        post.children@[q] is Some,
        (post.children@[q]->0).0@ == s,
        forall|j: int|
            0 <= j < pre.children@.len() && j != q ==> post.children@[j] == pre.children@[j],
    ensures
        post.children_model() =~= pre.children_model().update(q, Some(s)),
{
}

/// After detaching `c`, no children list mentions `c`, every other entry is
/// kept, and the lists stay duplicate-free.
proof fn lemma_detach_props(pre: World, c: Entity, detached: Seq<Option<Seq<Entity>>>)
    requires
        pre.wf(),
        pre.valid(c.0 as int),
        pre.has_parent_slot(c.0 as int),
        detached == pre.children_after_detach(c),
    ensures
        detached.len() == pre.num_entities(),
        forall|p: int|
            0 <= p < pre.num_entities() ==> ((#[trigger] detached[p]) is Some
                <==> pre.has_children_slot(p)),
        forall|p: int, e: Entity|
            0 <= p < pre.num_entities() && detached[p] is Some ==> (#[trigger] (detached[p]
                ->0).contains(e) <==> (pre.child_seq(p).contains(e) && e != c)),
        forall|p: int, x: int, y: int|
            #![trigger (detached[p]->0)[x], (detached[p]->0)[y]]
            0 <= p < pre.num_entities() && detached[p] is Some && 0 <= x < y < (detached[p]
                ->0).len() ==> (detached[p]->0)[x] != (detached[p]->0)[y],
{
    let n = pre.num_entities() as int;
    let cv = c.0 as int;
    let model = pre.children_model();
    assert(model.len() == n);
    // c is in no children list other than its current parent's
    assert forall|p: int, e: Entity|
        0 <= p < n && pre.has_children_slot(p) && #[trigger] pre.child_seq(p).contains(e) && e
            == c implies pre.parent_link(cv) == Some(Entity(p as usize)) by {
        let k = choose|k: int| 0 <= k < pre.child_seq(p).len() && pre.child_seq(p)[k] == e;
        assert(pre.child_seq(p)[k] == c);
        assert((c.0 as int) as usize == c.0);
    }
    if pre.parent_link(cv) is Some {
        let qe = pre.parent_link(cv)->0;
        let q = qe.0 as int;
        // the current parent's list exists and contains c
        assert(pre.valid(q) && pre.has_children_slot(q) && pre.child_seq(q).contains(
            Entity(cv as usize),
        ));
        assert(Entity(cv as usize) == c);
        let list = pre.child_seq(q);
        assert forall|x: int, y: int| 0 <= x < y < list.len() implies list[x] != list[y] by {
            assert(pre.child_seq(q)[x] != pre.child_seq(q)[y]);
        }
        list.index_of_first_ensures(c);
        let i = list.index_of_first(c)->0;
        assert(list[i] == c);
        lemma_swap_removed(list, i);
        let removed = swap_removed(list, i);
        assert(detached =~= model.update(q, Some(removed)));
        assert forall|p: int, e: Entity|
            0 <= p < n && detached[p] is Some implies (#[trigger] (detached[p]->0).contains(e)
            <==> (pre.child_seq(p).contains(e) && e != c)) by {
            if p == q {
                assert(detached[p]->0 == removed);
                assert(removed.contains(e) <==> (list.contains(e) && e != list[i]));
            } else {
                assert(detached[p] == model[p]);
                assert(detached[p]->0 == pre.child_seq(p));
                if pre.child_seq(p).contains(e) && e == c {
                    assert(pre.parent_link(cv) == Some(Entity(p as usize)));
                    assert(qe.0 == p);
                }
            }
        }
        assert forall|p: int, x: int, y: int|
            0 <= p < n && detached[p] is Some && 0 <= x < y < (detached[p]->0).len() implies (
        detached[p]->0)[x] != (detached[p]->0)[y] by {
            if p == q {
                assert(detached[p]->0 == removed);
            } else {
                assert(detached[p]->0 == pre.child_seq(p));
                assert(pre.child_seq(p)[x] != pre.child_seq(p)[y]);
            }
        }
    } else {
        assert(detached =~= model);
        assert forall|p: int, e: Entity|
            0 <= p < n && detached[p] is Some implies (#[trigger] (detached[p]->0).contains(e)
            <==> (pre.child_seq(p).contains(e) && e != c)) by {
            assert(detached[p]->0 == pre.child_seq(p));
            if pre.child_seq(p).contains(e) && e == c {
                assert(pre.parent_link(cv) == Some(Entity(p as usize)));
            }
        }
        assert forall|p: int, x: int, y: int|
            0 <= p < n && detached[p] is Some && 0 <= x < y < (detached[p]->0).len() implies (
        detached[p]->0)[x] != (detached[p]->0)[y] by {
            assert(detached[p]->0 == pre.child_seq(p));
            assert(pre.child_seq(p)[x] != pre.child_seq(p)[y]);
        }
    }
}

/// Well-formedness carries over a successful `add_child(p, c)`.
proof fn lemma_add_child_wf(pre: World, post: World, p: Entity, c: Entity)
    requires
        pre.wf(),
        pre.valid(p.0 as int),
        pre.valid(c.0 as int),
        pre.has_children_slot(p.0 as int),
        pre.has_parent_slot(c.0 as int),
        post.lens_ok(),
        post.num_entities() == pre.num_entities(),
        post.parents@ == pre.parents@.update(c.0 as int, Some(ParentComponent(Some(p)))),
        post.children_model() == pre.children_after_add(p, c),
    ensures
        post.wf(),
{
    let n = pre.num_entities() as int;
    let pv = p.0 as int;
    let cv = c.0 as int;
    let detached = pre.children_after_detach(c);
    lemma_detach_props(pre, c, detached);
    let base = detached[pv]->0;
    let model = post.children_model();
    assert(model == detached.update(pv, Some(base.push(c))));
    // bridge between the model and the per-entity views of post
    assert(model.len() == n);
    assert forall|e: int| 0 <= e < n implies (post.has_children_slot(e) <==> (#[trigger] model[e])
        is Some) && (model[e] is Some ==> post.child_seq(e) == model[e]->0) by {}
    assert(!base.contains(c));
    assert(detached[pv] is Some);
    assert(model[pv] == Some(base.push(c)));
    assert(post.has_children_slot(pv) && post.child_seq(pv) == base.push(c));
    assert forall|j: int| 0 <= j < n && j != pv implies #[trigger] model[j] == detached[j] by {}
    assert forall|j: int|
        0 <= j < n && j != pv && detached[j] is Some implies post.has_children_slot(j)
            && #[trigger] post.child_seq(j) == detached[j]->0 by {
        assert(model[j] == detached[j]);
    }
    assert forall|j: int|
        0 <= j < n && j != pv && !(detached[j] is Some) implies !post.has_children_slot(j) by {
        assert(model[j] == detached[j]);
    }
    assert forall|c2: int|
        post.valid(c2) && post.has_parent_slot(c2) && #[trigger] post.parent_link(c2)
            is Some implies {
        let p2 = (post.parent_link(c2)->0).0 as int;
        &&& post.valid(p2)
        &&& post.has_children_slot(p2)
        &&& post.child_seq(p2).contains(Entity(c2 as usize))
    } by {
        let p2 = (post.parent_link(c2)->0).0 as int;
        if c2 == cv {
            assert(post.parent_link(c2) == Some(p));
            assert(p2 == pv);
            assert(model[pv] == Some(base.push(c)));
            assert(post.child_seq(pv) == model[pv]->0);
            assert(post.child_seq(pv) == base.push(c));
            assert(base.push(c)[base.len() as int] == c);
            assert((cv as int) as usize == c.0);
            assert(post.child_seq(pv)[base.len() as int] == Entity(c2 as usize));
            assert(post.child_seq(pv).contains(Entity(c2 as usize)));
        } else {
            assert(post.parent_link(c2) == pre.parent_link(c2));
            assert(pre.valid(p2) && pre.has_children_slot(p2));
            assert(pre.child_seq(p2).contains(Entity(c2 as usize)));
            assert(Entity(c2 as usize) != c);
            assert((detached[p2]->0).contains(Entity(c2 as usize)));
            if p2 == pv {
                let k = choose|k: int| 0 <= k < base.len() && base[k] == Entity(c2 as usize);
                assert(model[pv] == Some(base.push(c)));
                assert(post.child_seq(pv) == model[pv]->0);
                assert(base.push(c)[k] == Entity(c2 as usize));
                assert(post.child_seq(p2)[k] == Entity(c2 as usize));
                assert(post.child_seq(p2).contains(Entity(c2 as usize)));
            } else {
                assert(post.child_seq(p2) == detached[p2]->0);
            }
        }
    }
    assert forall|p2: int, i: int|
        post.valid(p2) && post.has_children_slot(p2) && 0 <= i < post.child_seq(p2).len()
            implies {
        let c2 = #[trigger] post.child_seq(p2)[i].0 as int;
        &&& post.valid(c2)
        &&& post.has_parent_slot(c2)
        &&& post.parent_link(c2) == Some(Entity(p2 as usize))
    } by {
        let e = post.child_seq(p2)[i];
        let c2 = e.0 as int;
        if p2 == pv {
            assert(post.child_seq(pv) == base.push(c));
            if i < base.len() {
                assert(e == base[i]);
                assert(base.contains(e));
                assert(pre.child_seq(pv).contains(e) && e != c);
                let k = choose|k: int|
                    0 <= k < pre.child_seq(pv).len() && pre.child_seq(pv)[k] == e;
                assert(pre.child_seq(pv)[k] == e);
                assert(pre.parent_link(c2) == Some(Entity(pv as usize)));
                assert(post.parent_link(c2) == pre.parent_link(c2));
            } else {
                assert(e == c);
                assert(post.parent_link(cv) == Some(p));
                assert(Entity(p2 as usize) == p);
            }
        } else {
            assert(post.child_seq(p2) == detached[p2]->0);
            assert((detached[p2]->0).contains(e));
            assert(pre.child_seq(p2).contains(e) && e != c);
            let k = choose|k: int| 0 <= k < pre.child_seq(p2).len() && pre.child_seq(p2)[k] == e;
            assert(pre.child_seq(p2)[k] == e);
            assert(pre.parent_link(c2) == Some(Entity(p2 as usize)));
            assert(post.parent_link(c2) == pre.parent_link(c2));
        }
    }
    assert forall|p2: int, i: int, j: int|
        post.valid(p2) && post.has_children_slot(p2) && 0 <= i < j < post.child_seq(p2).len()
            implies #[trigger] post.child_seq(p2)[i] != #[trigger] post.child_seq(p2)[j] by {
        if p2 == pv {
            assert(post.child_seq(pv) == base.push(c));
            if j < base.len() {
                assert(post.child_seq(pv)[i] == base[i] && post.child_seq(pv)[j] == base[j]);
            } else {
                assert(post.child_seq(pv)[j] == c);
                assert(post.child_seq(pv)[i] == base[i]);
                assert(base.contains(base[i]));
            }
        } else {
            assert(post.child_seq(p2) == detached[p2]->0);
        }
    }
}

/// Well-formedness carries over a successful `remove_parent(c)`.
proof fn lemma_remove_parent_wf(pre: World, post: World, c: Entity)
    requires
        pre.wf(),
        pre.valid(c.0 as int),
        pre.has_parent_slot(c.0 as int),
        post.lens_ok(),
        post.num_entities() == pre.num_entities(),
        post.parents@ == pre.parents@.update(c.0 as int, Some(ParentComponent(None))),
        post.children_model() == pre.children_after_detach(c),
    ensures
        post.wf(),
{
    let n = pre.num_entities() as int;
    let cv = c.0 as int;
    let detached = pre.children_after_detach(c);
    lemma_detach_props(pre, c, detached);
    let model = post.children_model();
    assert(model == detached);
    assert(model.len() == n);
    assert forall|e: int| 0 <= e < n implies (post.has_children_slot(e) <==> (#[trigger] model[e])
        is Some) && (model[e] is Some ==> post.child_seq(e) == model[e]->0) by {}
    assert forall|c2: int|
        post.valid(c2) && post.has_parent_slot(c2) && #[trigger] post.parent_link(c2)
            is Some implies {
        let p2 = (post.parent_link(c2)->0).0 as int;
        &&& post.valid(p2)
        &&& post.has_children_slot(p2)
        &&& post.child_seq(p2).contains(Entity(c2 as usize))
    } by {
        let p2 = (post.parent_link(c2)->0).0 as int;
        assert(c2 != cv);
        assert(post.parent_link(c2) == pre.parent_link(c2));
        assert(pre.valid(p2) && pre.has_children_slot(p2));
        assert(pre.child_seq(p2).contains(Entity(c2 as usize)));
        assert(Entity(c2 as usize) != c);
        assert((detached[p2]->0).contains(Entity(c2 as usize)));
        assert(post.child_seq(p2) == detached[p2]->0);
    }
    assert forall|p2: int, i: int|
        post.valid(p2) && post.has_children_slot(p2) && 0 <= i < post.child_seq(p2).len()
            implies {
        let c2 = #[trigger] post.child_seq(p2)[i].0 as int;
        &&& post.valid(c2)
        &&& post.has_parent_slot(c2)
        &&& post.parent_link(c2) == Some(Entity(p2 as usize))
    } by {
        let e = post.child_seq(p2)[i];
        let c2 = e.0 as int;
        assert(post.child_seq(p2) == detached[p2]->0);
        assert((detached[p2]->0).contains(e));
        assert(pre.child_seq(p2).contains(e) && e != c);
        let k = choose|k: int| 0 <= k < pre.child_seq(p2).len() && pre.child_seq(p2)[k] == e;
        assert(pre.child_seq(p2)[k] == e);
        assert(pre.parent_link(c2) == Some(Entity(p2 as usize)));
        assert(post.parent_link(c2) == pre.parent_link(c2));
    }
    assert forall|p2: int, i: int, j: int|
        post.valid(p2) && post.has_children_slot(p2) && 0 <= i < j < post.child_seq(p2).len()
            implies #[trigger] post.child_seq(p2)[i] != #[trigger] post.child_seq(p2)[j] by {
        assert(post.child_seq(p2) == detached[p2]->0);
    }
}

/// A fresh entity has no components, so growing every array by a
/// componentless slot keeps `wf`.
proof fn lemma_spawn_wf(pre: World, post: World)
    requires
        pre.wf(),
        post.lens_ok(),
        post.transforms@.len() == pre.transforms@.len() + 1,
        post.parents@ == pre.parents@.push(None::<ParentComponent>),
        post.children@ == pre.children@.push(None::<ChildrenComponent>),
    ensures
        post.wf(),
{
    let n = pre.num_entities() as int;
    assert forall|c: int|
        post.valid(c) && post.has_parent_slot(c) && #[trigger] post.parent_link(c)
            is Some implies {
        let p = (post.parent_link(c)->0).0 as int;
        &&& post.valid(p)
        &&& post.has_children_slot(p)
        &&& post.child_seq(p).contains(Entity(c as usize))
    } by {
        assert(c < n);
        assert(pre.parent_link(c) == post.parent_link(c));
        let p = (post.parent_link(c)->0).0 as int;
        assert(pre.valid(p));
        assert(post.child_seq(p) == pre.child_seq(p));
        assert(pre.child_seq(p).contains(Entity(c as usize)));
    }
    assert forall|p: int, i: int|
        post.valid(p) && post.has_children_slot(p) && 0 <= i < post.child_seq(p).len() implies {
        let c = #[trigger] post.child_seq(p)[i].0 as int;
        &&& post.valid(c)
        &&& post.has_parent_slot(c)
        &&& post.parent_link(c) == Some(Entity(p as usize))
    } by {
        assert(p < n);
        assert(post.child_seq(p) == pre.child_seq(p));
        assert(pre.child_seq(p)[i] == post.child_seq(p)[i]);
        let c = post.child_seq(p)[i].0 as int;
        assert(pre.valid(c));
        assert(pre.parent_link(c) == post.parent_link(c));
    }
    assert forall|p: int, i: int, j: int|
        post.valid(p) && post.has_children_slot(p) && 0 <= i < j < post.child_seq(p).len()
            implies #[trigger] post.child_seq(p)[i] != #[trigger] post.child_seq(p)[j] by {
        assert(p < n);
        assert(post.child_seq(p) == pre.child_seq(p));
        assert(pre.child_seq(p)[i] != pre.child_seq(p)[j]);
    }
}

/// The parent/child graph conditions of `wf` only read the `parents` and
/// `children` arrays; a change that keeps both (and the array lengths)
/// keeps `wf`.
proof fn lemma_graph_unchanged_wf(pre: World, post: World)
    requires
        pre.wf(),
        post.lens_ok(),
        post.parents@ == pre.parents@,
        post.children@ == pre.children@,
    ensures
        post.wf(),
{
    assert forall|c: int|
        post.valid(c) && post.has_parent_slot(c) && #[trigger] post.parent_link(c)
            is Some implies {
        let p = (post.parent_link(c)->0).0 as int;
        &&& post.valid(p)
        &&& post.has_children_slot(p)
        &&& post.child_seq(p).contains(Entity(c as usize))
    } by {
        assert(pre.parent_link(c) == post.parent_link(c));
        let p = (post.parent_link(c)->0).0 as int;
        assert(pre.valid(p));
        assert(post.child_seq(p) == pre.child_seq(p));
        assert(pre.child_seq(p).contains(Entity(c as usize)));
    }
    assert forall|p: int, i: int|
        post.valid(p) && post.has_children_slot(p) && 0 <= i < post.child_seq(p).len() implies {
        let c = #[trigger] post.child_seq(p)[i].0 as int;
        &&& post.valid(c)
        &&& post.has_parent_slot(c)
        &&& post.parent_link(c) == Some(Entity(p as usize))
    } by {
        assert(post.child_seq(p) == pre.child_seq(p));
        assert(pre.child_seq(p)[i] == post.child_seq(p)[i]);
        let c = post.child_seq(p)[i].0 as int;
        assert(pre.parent_link(c) == post.parent_link(c));
    }
    assert forall|p: int, i: int, j: int|
        post.valid(p) && post.has_children_slot(p) && 0 <= i < j < post.child_seq(p).len()
            implies #[trigger] post.child_seq(p)[i] != #[trigger] post.child_seq(p)[j] by {
        assert(post.child_seq(p) == pre.child_seq(p));
        assert(pre.child_seq(p)[i] != pre.child_seq(p)[j]);
    }
}

/// What one entry of the children model says of its entity: the entity
/// carries a children list exactly when the model holds one, and then the
/// model's entry is that list.  Callers composing several scene operations
/// use this to read the per-entity views back out of the `children_model`
/// equations in the operations' contracts.
pub proof fn lemma_children_model_entry(w: World, e: int)
    requires
        0 <= e < w.children@.len(),
    ensures
        w.children_model()[e] is Some <==> w.has_children_slot(e),
        w.children_model()[e] is Some ==> w.children_model()[e]->0 == w.child_seq(e),
{
}

/// Parent/child invariant: in a well-formed world — and every operation of
/// this module keeps the world well-formed — a child whose parent
/// reference is `p` is in `p`'s children list and in no other entity's
/// list.
pub proof fn lemma_parent_child_invariant(w: World, c: Entity, p: Entity)
    requires
        w.wf(),
        w.valid(c.0 as int),
        w.has_parent_slot(c.0 as int),
        w.parent_link(c.0 as int) == Some(p),
    ensures
        w.valid(p.0 as int),
        w.has_children_slot(p.0 as int),
        w.child_seq(p.0 as int).contains(c),
        forall|q: int|
            w.valid(q) && w.has_children_slot(q) && q != p.0 as int ==> !(#[trigger] w.child_seq(
                q,
            )).contains(c),
{
    let cv = c.0 as int;
    assert(w.parent_link(cv) is Some);
    assert(w.child_seq(p.0 as int).contains(Entity(cv as usize)));
    assert(Entity(cv as usize) == c);
    assert forall|q: int|
        w.valid(q) && w.has_children_slot(q) && q != p.0 as int implies !(#[trigger] w.child_seq(
            q,
        )).contains(c) by {
        if w.child_seq(q).contains(c) {
            let k = choose|k: int| 0 <= k < w.child_seq(q).len() && w.child_seq(q)[k] == c;
            assert(w.child_seq(q)[k] == c);
            assert(w.parent_link(cv) == Some(Entity(q as usize)));
            assert(Entity(q as usize) == p);
        }
    }
}

/// Idempotence of `add_child`: a second successful `add_child(p, c)` right
/// after a first one leaves the state of the first call unchanged.
pub proof fn lemma_add_child_idempotent(s0: World, s1: World, s2: World, p: Entity, c: Entity)
    requires
        s0.wf(),
        s1.wf(),
        s0.valid(p.0 as int),
        s0.valid(c.0 as int),
        s0.has_children_slot(p.0 as int),
        s0.has_parent_slot(c.0 as int),
        World::add_child_post(s0, s1, p, c),
        World::add_child_post(s1, s2, p, c),
    ensures
        s1.same_state(s2),
{
    let pv = p.0 as int;
    let cv = c.0 as int;
    let d0 = s0.children_after_detach(c);
    lemma_detach_props(s0, c, d0);
    let base = d0[pv]->0;
    let one = base.push(c);
    let m1 = s1.children_model();
    assert(m1 == d0.update(pv, Some(one)));
    assert(m1[pv] == Some(one));
    assert(s1.has_children_slot(pv) && s1.child_seq(pv) == one);
    assert(!base.contains(c));
    // the child's back-reference after the first call points at p
    assert(s1.parents@[cv] == Some(ParentComponent(Some(p))));
    assert(s1.parent_link(cv) == Some(p));
    // the second detach removes c from the end of p's list, restoring base
    let list1 = s1.child_seq(pv);
    assert(list1[base.len() as int] == c);
    assert(list1.contains(c));
    list1.index_of_first_ensures(c);
    let i1 = list1.index_of_first(c)->0;
    if i1 < base.len() {
        assert(list1[i1] == base[i1]);
        assert(base.contains(base[i1]));
    }
    assert(i1 == base.len());
    assert(swap_removed(list1, i1) =~= base);
    let d1 = s1.children_after_detach(c);
    assert(d1 == m1.update(pv, Some(base)));
    assert(d1[pv] == Some(base));
    let m2 = s2.children_model();
    assert(m2 == d1.update(pv, Some(base.push(c))));
    assert(m2 =~= m1);
    // the second back-reference update writes the value already there
    assert(s2.parents@ =~= s1.parents@);
    assert(s1.same_state(s2));
}

/// Idempotence of `remove_parent`: on an entity that already has no
/// parent, a successful `remove_parent(c)` changes nothing.
pub proof fn lemma_remove_parent_orphan_noop(s0: World, s1: World, c: Entity)
    requires
        s0.wf(),
        s0.valid(c.0 as int),
        s0.has_parent_slot(c.0 as int),
        s0.parent_link(c.0 as int) is None,
        World::remove_parent_post(s0, s1, c),
    ensures
        s0.same_state(s1),
{
    let cv = c.0 as int;
    assert(s0.parents@[cv] is Some);
    assert((s0.parents@[cv]->0).0 is None);
    assert(s0.parents@[cv] == Some(ParentComponent(None)));
    assert(s1.parents@ =~= s0.parents@);
    assert(s1.children_model() == s0.children_model());
    assert(s0.same_state(s1));
}

/// A successful `remove_parent(c)` twice in a row leaves the state of the
/// first call unchanged: the first call orphans `c`, and on an orphan the
/// operation is a no-op.
pub proof fn lemma_remove_parent_idempotent(s0: World, s1: World, s2: World, c: Entity)
    requires
        s0.wf(),
        s1.wf(),
        s0.valid(c.0 as int),
        s0.has_parent_slot(c.0 as int),
        World::remove_parent_post(s0, s1, c),
        World::remove_parent_post(s1, s2, c),
    ensures
        s1.same_state(s2),
{
    let cv = c.0 as int;
    assert(s1.parents@[cv] == Some(ParentComponent(None)));
    assert(s1.parent_link(cv) is None);
    assert(s1.valid(cv)) by {
        assert(s1.parents@.len() == s0.parents@.len());
    }
    lemma_remove_parent_orphan_noop(s1, s2, c);
}

} // verus!
