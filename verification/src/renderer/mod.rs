//! The resource store and the per-frame recording logic.
//!
//! The `Renderer` owns three append-only collections of GPU resources —
//! shaders, materials, meshes — addressed by stable integer handles that
//! are never invalidated: nothing is deleted or moved.  Each frame it
//! selects the enabled camera with the lowest entity id and turns the scene
//! into a `FrameCommands` value: an ordered draw stream batched by material
//! (a pipeline is rebound only when the material changes between
//! consecutive draws).  The GPU layer around this crate replays the stream
//! against a device; everything the replay needs — handles, index counts,
//! transform chains, projection parameters — is in the stream as plain
//! data.

pub mod material;
pub mod mesh;
pub mod shader;

use vstd::prelude::*;

use crate::camera::{CameraComponent, CameraMatrix, Color};
use crate::scene::{Entity, TransformError, World};
use crate::transform::TransformComponent;
use crate::renderer::material::{Face, Material, MaterialRef};
use crate::renderer::mesh::{Mesh, MeshComponent, MeshRef};
use crate::renderer::shader::{Shader, ShaderRef};

verus! {

/// One recorded command of a frame's render pass.
#[derive(Debug, Clone, PartialEq, Eq)]
pub enum RenderCommand {
    /// Bind the material's pipeline and its resource binding groups
    /// (binding slots from 1 up; slot 0 is the shared per-frame uniform).
    BindMaterial(MaterialRef),
    /// Write the composition of `model_chain` (root first) into the
    /// per-draw uniform, bind the mesh's vertex and index buffers, and
    /// issue one indexed draw of `0..index_count`, one instance.
    DrawMesh { mesh: MeshRef, index_count: usize, model_chain: Vec<TransformComponent> },
}

/// Spec-level image of one recorded command.
pub enum CommandModel {
    Bind { material: int },
    Draw { mesh: int, index_count: int, model_chain: Seq<TransformComponent> },
}

impl RenderCommand {
    /// The spec-level image of this command.
    pub open spec fn model(self) -> CommandModel {
        match self {
            RenderCommand::BindMaterial(m) => CommandModel::Bind { material: m.0 as int },
            RenderCommand::DrawMesh { mesh, index_count, model_chain } => CommandModel::Draw {
                mesh: mesh.0 as int,
                index_count: index_count as int,
                model_chain: model_chain@,
            },
        }
    }
}

/// Everything one frame draws, computed from the scene and the store.  The
/// GPU layer replays it in order: clear (or keep) the color attachment,
/// clear the depth attachment to the far value, write the camera's
/// view-projection matrix into the per-frame uniform, then run the draw
/// stream.
#[derive(Debug, Clone, PartialEq, Eq)]
pub struct FrameCommands {
    /// Color the frame is cleared to; `None` keeps the previous contents.
    pub clear_color: Option<Color>,
    /// The selected camera's matrix provider; the projection matrix is
    /// intrinsic to it.
    pub camera: CameraMatrix,
    /// The selected camera's world transform chain, root first; the view
    /// matrix is the inverse of its composition.
    pub camera_chain: Vec<TransformComponent>,
    /// The draw stream, batched by material.
    pub draws: Vec<RenderCommand>,
}

/// The renderer: the append-only resource store, plus the current output
/// surface size (kept up to date by `resize`; the GPU layer recreates the
/// surface and depth attachment from it).
pub struct Renderer {
    pub shaders: Vec<Shader>,
    pub materials: Vec<Material>,
    pub meshes: Vec<Mesh>,
    pub width: u32,
    pub height: u32,
}

impl Renderer {
    /// Store invariant: every material is wired to a shader of this store
    /// and has no more binding groups than its shader has layouts; every
    /// mesh is wired to a material of this store.  Since the store is
    /// append-only, handles never dangle.
    pub open spec fn store_wf(self) -> bool {
        &&& forall|i: int|
            0 <= i < self.materials@.len() ==> {
                let m = #[trigger] self.materials@[i];
                &&& (m.shader.0 as int) < self.shaders@.len()
                &&& m.bind_group_count <= self.shaders@[m.shader.0 as int].bind_group_layout_count
            }
        &&& forall|i: int|
            0 <= i < self.meshes@.len() ==> ((#[trigger] self.meshes@[i]).material.0 as int)
                < self.materials@.len()
    }

    /// An empty store for an output surface of the given size.
    pub fn new(width: u32, height: u32) -> (r: Renderer)
        ensures
            r.store_wf(),
            r.shaders@.len() == 0,
            r.materials@.len() == 0,
            r.meshes@.len() == 0,
            r.width == width,
            r.height == height,
    {
        Renderer { shaders: Vec::new(), materials: Vec::new(), meshes: Vec::new(), width, height }
    }

    /// Record the new output surface size.  The GPU layer recreates the
    /// presentation surface and the depth attachment from it; the resource
    /// store is untouched.
    pub fn resize(&mut self, width: u32, height: u32)
        ensures
            final(self).width == width,
            final(self).height == height,
            final(self).shaders@ == old(self).shaders@,
            final(self).materials@ == old(self).materials@,
            final(self).meshes@ == old(self).meshes@,
    {
        self.width = width;
        self.height = height;
    }

    /// Create a shader slot expecting the given number of binding-group
    /// layouts (the GPU layer creates the modules and pipeline layout under
    /// the same slot index).  Returns its permanent handle; existing slots
    /// are untouched.
    pub fn create_shader(&mut self, bind_group_layout_count: usize) -> (r: ShaderRef)
        requires
            old(self).store_wf(),
        ensures
            final(self).store_wf(),
            r.0 == old(self).shaders@.len(),
            final(self).shaders@ == old(self).shaders@.push(Shader { bind_group_layout_count }),
            final(self).materials@ == old(self).materials@,
            final(self).meshes@ == old(self).meshes@,
            final(self).width == old(self).width,
            final(self).height == old(self).height,
    {
        let i = self.shaders.len();
        self.shaders.push(Shader { bind_group_layout_count });
        ShaderRef(i)
    }

    /// Create a material wired to `shader`, with `bind_group_count`
    /// resource binding groups and the given culling mode (the GPU layer
    /// creates the pipeline and binding groups under the same slot index).
    /// The shader handle must come from this store, and the binding groups
    /// must not outnumber the shader's layouts.  Returns the material's
    /// permanent handle; existing slots are untouched.
    pub fn create_material(
        &mut self,
        shader: ShaderRef,
        bind_group_count: usize,
        cull_mode: Option<Face>,
    ) -> (r: MaterialRef)
        requires
            old(self).store_wf(),
            (shader.0 as int) < old(self).shaders@.len(),
            bind_group_count <= old(self).shaders@[shader.0 as int].bind_group_layout_count,
        ensures
            final(self).store_wf(),
            r.0 == old(self).materials@.len(),
            final(self).materials@ == old(self).materials@.push(
                Material { shader, bind_group_count, cull_mode },
            ),
            final(self).shaders@ == old(self).shaders@,
            final(self).meshes@ == old(self).meshes@,
            final(self).width == old(self).width,
            final(self).height == old(self).height,
    {
        let i = self.materials.len();
        self.materials.push(Material { shader, bind_group_count, cull_mode });
        MaterialRef(i)
    }

    /// Create a mesh wired to `material`, drawing the given index list
    /// over `vertex_buffer_count` parallel vertex buffers (the GPU layer
    /// creates the buffers under the same slot index).  The material
    /// handle must come from this store.  Returns the mesh's permanent
    /// handle; existing slots are untouched.
    pub fn create_mesh(
        &mut self,
        material: MaterialRef,
        indices: Vec<u32>,
        vertex_buffer_count: usize,
    ) -> (r: MeshRef)
        requires
            old(self).store_wf(),
            (material.0 as int) < old(self).materials@.len(),
        ensures
            final(self).store_wf(),
            r.0 == old(self).meshes@.len(),
            final(self).meshes@ == old(self).meshes@.push(
                Mesh { material, indices, vertex_buffer_count },
            ),
            final(self).shaders@ == old(self).shaders@,
            final(self).materials@ == old(self).materials@,
            final(self).width == old(self).width,
            final(self).height == old(self).height,
    {
        let i = self.meshes.len();
        self.meshes.push(Mesh { material, indices, vertex_buffer_count });
        MeshRef(i)
    }

    /// Every mesh component of the world references a mesh of this store.
    /// Handles are only ever produced by the store itself, so this holds
    /// whenever the scene was populated against it.
    pub open spec fn world_handles_ok(self, w: World) -> bool {
        forall|e: int|
            0 <= e < w.num_entities() && (#[trigger] w.mesh_components@[e]) is Some ==> ((
            w.mesh_components@[e]->0).0.0 as int) < self.meshes@.len()
    }

    /// The spec-level draw command recorded for drawable entity `e`.
    pub open spec fn expected_draw(self, w: World, e: int) -> CommandModel {
        let mref = (w.mesh_components@[e]->0).0;
        CommandModel::Draw {
            mesh: mref.0 as int,
            index_count: self.meshes@[mref.0 as int].indices@.len() as int,
            model_chain: w.transform_chain(e as usize),
        }
    }

    /// The command stream recorded for the drawable entities from `e` up,
    /// given the material bound so far: each drawable entity contributes
    /// one draw, preceded by a material bind exactly when its material
    /// differs from the previous draw's.
    pub open spec fn commands_from(self, w: World, e: int, last: Option<MaterialRef>) -> Seq<
        CommandModel,
    >
        decreases w.num_entities() - e,
    {
        if e < 0 || e >= w.num_entities() {
            Seq::empty()
        } else if !drawable(w, e) {
            self.commands_from(w, e + 1, last)
        } else {
            let mref = (w.mesh_components@[e]->0).0;
            let mat = self.meshes@[mref.0 as int].material;
            let draw = self.expected_draw(w, e);
            if last == Some(mat) {
                seq![draw] + self.commands_from(w, e + 1, last)
            } else {
                seq![CommandModel::Bind { material: mat.0 as int }, draw] + self.commands_from(
                    w,
                    e + 1,
                    Some(mat),
                )
            }
        }
    }

    /// The shader under `reference`: `Some` exactly for handles this store
    /// has handed out.
    pub fn get_shader(&self, reference: ShaderRef) -> (r: Option<&Shader>)
        ensures
            match r {
                Some(s) => (reference.0 as int) < self.shaders@.len() && *s == self.shaders@[
                    reference.0 as int
                ],
                None => (reference.0 as int) >= self.shaders@.len(),
            },
    {
        if reference.0 < self.shaders.len() {
            Some(&self.shaders[reference.0])
        } else {
            None
        }
    }

    /// The material under `reference`: `Some` exactly for handles this
    /// store has handed out.
    pub fn get_material(&self, reference: MaterialRef) -> (r: Option<&Material>)
        ensures
            match r {
                Some(m) => (reference.0 as int) < self.materials@.len() && *m == self.materials@[
                    reference.0 as int
                ],
                None => (reference.0 as int) >= self.materials@.len(),
            },
    {
        if reference.0 < self.materials.len() {
            Some(&self.materials[reference.0])
        } else {
            None
        }
    }

    /// The mesh under `reference`: `Some` exactly for handles this store
    /// has handed out.
    pub fn get_mesh(&self, reference: MeshRef) -> (r: Option<&Mesh>)
        ensures
            match r {
                Some(m) => (reference.0 as int) < self.meshes@.len() && *m == self.meshes@[
                    reference.0 as int
                ],
                None => (reference.0 as int) >= self.meshes@.len(),
            },
    {
        if reference.0 < self.meshes.len() {
            Some(&self.meshes[reference.0])
        } else {
            None
        }
    }

    /// Record one frame seen through `camera`, whose world transform chain
    /// is `camera_chain`: one draw per drawable entity, in entity-id
    /// order, rebinding the material exactly when it differs from the
    /// previous draw's.  Fails exactly when some drawable entity's parent
    /// chain runs in a cycle.
    pub fn render_camera(
        &self,
        camera: &CameraComponent,
        camera_chain: Vec<TransformComponent>,
        world: &World,
    ) -> (r: Result<FrameCommands, TransformError>)
        requires
            self.store_wf(),
            world.wf(),
            self.world_handles_ok(*world),
        ensures
            r is Ok <==> (forall|e: int|
                drawable(*world, e) ==> #[trigger] world.resolvable(e as usize)),
            r is Err ==> r == Err::<FrameCommands, TransformError>(TransformError::CycleDetected),
            r matches Ok(fc) ==> {
                &&& fc.clear_color == camera.clear_color
                &&& fc.camera == camera.matrix
                &&& fc.camera_chain == camera_chain
                &&& models_of(fc.draws@) == self.commands_from(*world, 0, None::<MaterialRef>)
            },
    {
        let n = world.transforms.len();
        let mut draws: Vec<RenderCommand> = Vec::new();
        let mut last_material: Option<MaterialRef> = None;
        let mut e: usize = 0;
        proof {
            assert(world.lens_ok());
            assert(models_of(draws@) + self.commands_from(*world, 0, None::<MaterialRef>) =~= self
                .commands_from(*world, 0, None::<MaterialRef>));
        }
        while e < n
            invariant
                self.store_wf(),
                world.wf(),
                self.world_handles_ok(*world),
                n == world.num_entities(),
                e <= n,
                forall|k: int|
                    0 <= k < e && drawable(*world, k) ==> #[trigger] world.resolvable(k as usize),
                models_of(draws@) + self.commands_from(*world, e as int, last_material) == self
                    .commands_from(*world, 0, None::<MaterialRef>),
            decreases n - e,
        {
            let ghost pre_draws = draws@;
            let ghost pre_last = last_material;
            let mref_opt: Option<MeshRef> = match &world.mesh_components[e] {
                Some(mc) => Some(mc.0),
                None => None,
            };
            let has_transform = world.transforms[e].is_some();
            if mref_opt.is_some() && has_transform {
                let mesh_ref = mref_opt.unwrap();
                proof {
                    assert(drawable(*world, e as int));
                }
                let chain = match world.global_transform(Entity(e)) {
                    Ok(c) => c,
                    Err(_) => {
                        return Err(TransformError::CycleDetected);
                    },
                };
                let ghost chainv = chain@;
                let mesh_index = mesh_ref.0;
                let material = self.meshes[mesh_index].material;
                let rebind = match &last_material {
                    Some(lm) => *lm != material,
                    None => true,
                };
                if rebind {
                    draws.push(RenderCommand::BindMaterial(material));
                    last_material = Some(material);
                }
                let index_count = self.meshes[mesh_index].indices.len();
                draws.push(
                    RenderCommand::DrawMesh { mesh: mesh_ref, index_count, model_chain: chain },
                );
                proof {
                    let w = *world;
                    let ei = e as int;
                    let mat = self.meshes@[mesh_ref.0 as int].material;
                    assert(mat == material);
                    let draw = self.expected_draw(w, ei);
                    let dcmd = draws@.last();
                    assert(dcmd.model() == draw);
                    if pre_last == Some(mat) {
                        assert(draws@ == pre_draws.push(dcmd));
                        assert(models_of(draws@) =~= models_of(pre_draws) + seq![draw]);
                        assert(self.commands_from(w, ei, pre_last) == seq![draw]
                            + self.commands_from(w, ei + 1, pre_last));
                        assert(models_of(draws@) + self.commands_from(w, ei + 1, last_material)
                            =~= models_of(pre_draws) + self.commands_from(w, ei, pre_last));
                    } else {
                        let bcmd = RenderCommand::BindMaterial(material);
                        assert(draws@ == pre_draws.push(bcmd).push(dcmd));
                        assert(models_of(draws@) =~= models_of(pre_draws) + seq![
                            CommandModel::Bind { material: mat.0 as int },
                            draw,
                        ]);
                        assert(self.commands_from(w, ei, pre_last) == seq![
                            CommandModel::Bind { material: mat.0 as int },
                            draw,
                        ] + self.commands_from(w, ei + 1, Some(mat)));
                        assert(last_material == Some(mat));
                        assert(models_of(draws@) + self.commands_from(w, ei + 1, last_material)
                            =~= models_of(pre_draws) + self.commands_from(w, ei, pre_last));
                    }
                }
            } else {
                proof {
                    assert(!drawable(*world, e as int));
                    assert(self.commands_from(*world, e as int, last_material) == self
                        .commands_from(*world, e as int + 1, last_material));
                }
            }
            e += 1;
        }
        proof {
            assert(self.commands_from(*world, n as int, last_material)
                =~= Seq::<CommandModel>::empty());
            assert(models_of(draws@) + Seq::<CommandModel>::empty() =~= models_of(draws@));
        }
        Ok(
            FrameCommands {
                clear_color: camera.clear_color,
                camera: camera.matrix,
                camera_chain,
                draws,
            },
        )
    }

    /// Render one frame of the scene: select the enabled camera with the
    /// lowest entity id, resolve its world transform chain, and record the
    /// frame through it.  With no enabled camera the frame draws nothing,
    /// which is not an error.  Fails exactly when the selected camera's or
    /// some drawable entity's parent chain runs in a cycle.
    pub fn render(&self, world: &World) -> (r: Result<Option<FrameCommands>, TransformError>)
        requires
            self.store_wf(),
            world.wf(),
            self.world_handles_ok(*world),
        ensures
            selected_camera(*world) is None ==> r == Ok::<Option<FrameCommands>, TransformError>(
                None,
            ),
            selected_camera(*world) matches Some(cam) ==> {
                &&& (r is Ok <==> world.resolvable(cam as usize) && (forall|e: int|
                    drawable(*world, e) ==> #[trigger] world.resolvable(e as usize)))
                &&& (r is Err ==> r == Err::<Option<FrameCommands>, TransformError>(
                    TransformError::CycleDetected,
                ))
                &&& (r matches Ok(ofc) ==> (ofc matches Some(fc) && {
                    &&& fc.clear_color == (world.cameras@[cam]->0).clear_color
                    &&& fc.camera == (world.cameras@[cam]->0).matrix
                    &&& fc.camera_chain@ == world.transform_chain(cam as usize)
                    &&& models_of(fc.draws@) == self.commands_from(*world, 0, None::<MaterialRef>)
                }))
            },
    {
        let n = world.transforms.len();
        proof {
            assert(world.lens_ok());
        }
        let mut found: Option<usize> = None;
        let mut e: usize = 0;
        while e < n
            invariant_except_break
                found is None,
                selected_camera(*world) == first_camera_from(*world, e as int),
            invariant
                n == world.num_entities(),
                world.wf(),
                e <= n,
            ensures
                match found {
                    Some(f) => selected_camera(*world) == Some(f as int) && camera_candidate(
                        *world,
                        f as int,
                    ),
                    None => selected_camera(*world) is None,
                },
            decreases n - e,
        {
            let is_candidate = match (&world.cameras[e], &world.transforms[e]) {
                (Some(c), Some(_)) => c.is_enabled,
                _ => false,
            };
            if is_candidate {
                proof {
                    assert(camera_candidate(*world, e as int));
                }
                found = Some(e);
                break;
            }
            proof {
                assert(!camera_candidate(*world, e as int));
            }
            e += 1;
        }
        match found {
            None => Ok(None),
            Some(ce) => {
                let camera: CameraComponent = match &world.cameras[ce] {
                    Some(c) => *c,
                    None => {
                        return Err(TransformError::NoSuchEntity);
                    },
                };
                let camera_chain = match world.global_transform(Entity(ce)) {
                    Ok(c) => c,
                    Err(_) => {
                        return Err(TransformError::CycleDetected);
                    },
                };
                match self.render_camera(&camera, camera_chain, world) {
                    Ok(fc) => Ok(Some(fc)),
                    Err(err) => Err(err),
                }
            },
        }
    }
}

/// The spec-level images of a command list, in order.
pub open spec fn models_of(cmds: Seq<RenderCommand>) -> Seq<CommandModel> {
    cmds.map_values(|c: RenderCommand| c.model())
}

/// `e` is a drawable entity: it carries both a mesh and a transform.
pub open spec fn drawable(w: World, e: int) -> bool {
    &&& 0 <= e < w.num_entities()
    &&& w.mesh_components@[e] is Some
    &&& w.transforms@[e] is Some
}

/// `e` carries an enabled camera and a transform, so the frame could use
/// it.
pub open spec fn camera_candidate(w: World, e: int) -> bool {
    &&& 0 <= e < w.num_entities()
    &&& w.cameras@[e] matches Some(c) && c.is_enabled
    &&& w.transforms@[e] is Some
}

/// The first camera candidate from `e` up, by entity id.
pub open spec fn first_camera_from(w: World, e: int) -> Option<int>
    decreases w.num_entities() - e,
{
    if e < 0 || e >= w.num_entities() {
        None
    } else if camera_candidate(w, e) {
        Some(e)
    } else {
        first_camera_from(w, e + 1)
    }
}

/// The camera a frame uses: the camera candidate with the lowest entity
/// id.  `None` renders an empty frame, which is not an error.
pub open spec fn selected_camera(w: World) -> Option<int> {
    first_camera_from(w, 0)
}

/// The drawable entity ids from `e` up, in order.
pub open spec fn drawable_ids_from(w: World, e: int) -> Seq<int>
    decreases w.num_entities() - e,
{
    if e < 0 || e >= w.num_entities() {
        Seq::empty()
    } else if drawable(w, e) {
        seq![e] + drawable_ids_from(w, e + 1)
    } else {
        drawable_ids_from(w, e + 1)
    }
}

/// The draw commands of a stream, in order, with the bind commands dropped.
pub open spec fn draws_of(cmds: Seq<CommandModel>) -> Seq<CommandModel>
    decreases cmds.len(),
{
    if cmds.len() == 0 {
        Seq::empty()
    } else {
        let rest = draws_of(cmds.drop_first());
        if cmds.first() is Draw {
            seq![cmds.first()] + rest
        } else {
            rest
        }
    }
}

/// Prepending one command to a stream adds it to the draws exactly when it
/// is a draw.
proof fn lemma_draws_of_cons(x: CommandModel, rest: Seq<CommandModel>)
    ensures
        draws_of(seq![x] + rest) == (if x is Draw {
            seq![x] + draws_of(rest)
        } else {
            draws_of(rest)
        }),
{
    let s = seq![x] + rest;
    assert(s.len() == 1 + rest.len());
    assert(s.first() == x);
    assert(s.drop_first() =~= rest);
}

/// Handle stability of the append-only store: adding a record keeps every
/// slot an existing handle refers to, and the new handle's slot holds
/// exactly the record that was passed in.  This is what `create_shader`,
/// `create_material` and `create_mesh` do to their collections.
pub proof fn lemma_handle_stability<T>(pre: Seq<T>, post: Seq<T>, record: T)
    requires
        post == pre.push(record),
    ensures
        post.len() == pre.len() + 1,
        forall|i: int| 0 <= i < pre.len() ==> post[i] == pre[i],
        post[pre.len() as int] == record,
{
}

/// Camera selection: when exactly one entity of the world is a camera
/// candidate (carries an enabled camera and a transform), the frame
/// selects it, wherever it sits in the entity order.
pub proof fn lemma_camera_selection(w: World, e: int)
    requires
        camera_candidate(w, e),
        forall|q: int| #[trigger] camera_candidate(w, q) ==> q == e,
    ensures
        selected_camera(w) == Some(e),
{
    lemma_first_camera_from(w, 0, e);
}

proof fn lemma_first_camera_from(w: World, k: int, e: int)
    requires
        0 <= k <= e,
        camera_candidate(w, e),
        forall|q: int| #[trigger] camera_candidate(w, q) ==> q == e,
    ensures
        first_camera_from(w, k) == Some(e),
    decreases e - k,
{
    if k == e {
    } else {
        assert(!camera_candidate(w, k));
        lemma_first_camera_from(w, k + 1, e);
    }
}

/// With no camera candidate at all, the frame selects nothing; `render`
/// then returns an empty frame without error.
pub proof fn lemma_no_camera_selected(w: World)
    requires
        forall|q: int| !(#[trigger] camera_candidate(w, q)),
    ensures
        selected_camera(w) is None,
{
    lemma_no_camera_from(w, 0);
}

proof fn lemma_no_camera_from(w: World, k: int)
    requires
        forall|q: int| !(#[trigger] camera_candidate(w, q)),
    ensures
        first_camera_from(w, k) is None,
    decreases w.num_entities() - k,
{
    if 0 <= k < w.num_entities() {
        lemma_no_camera_from(w, k + 1);
    }
}

/// Batching correctness: whatever material was bound before, the draw
/// commands of the recorded stream are exactly one per drawable entity, in
/// entity order — each with the entity's mesh handle, that mesh's full
/// index range, and the entity's resolved transform chain.  The material
/// binds dropped by `draws_of` are an optimization and change no draw.
pub proof fn lemma_batching_correctness(
    r: Renderer,
    w: World,
    e: int,
    last: Option<MaterialRef>,
)
    ensures
        draws_of(r.commands_from(w, e, last)) == drawable_ids_from(w, e).map_values(
            |k: int| r.expected_draw(w, k),
        ),
    decreases w.num_entities() - e,
{
    let f = |k: int| r.expected_draw(w, k);
    let n = w.num_entities() as int;
    if e < 0 || e >= n {
        assert(draws_of(r.commands_from(w, e, last)) =~= Seq::<CommandModel>::empty());
        assert(drawable_ids_from(w, e).map_values(f) =~= Seq::<CommandModel>::empty());
    } else if !drawable(w, e) {
        lemma_batching_correctness(r, w, e + 1, last);
    } else {
        let mref = (w.mesh_components@[e]->0).0;
        let mat = r.meshes@[mref.0 as int].material;
        let draw = r.expected_draw(w, e);
        assert(draw is Draw);
        assert(drawable_ids_from(w, e) == seq![e] + drawable_ids_from(w, e + 1));
        assert((seq![e] + drawable_ids_from(w, e + 1)).map_values(f) =~= seq![draw]
            + drawable_ids_from(w, e + 1).map_values(f));
        if last == Some(mat) {
            lemma_batching_correctness(r, w, e + 1, last);
            let rest = r.commands_from(w, e + 1, last);
            assert(r.commands_from(w, e, last) == seq![draw] + rest);
            lemma_draws_of_cons(draw, rest);
        } else {
            lemma_batching_correctness(r, w, e + 1, Some(mat));
            let rest = r.commands_from(w, e + 1, Some(mat));
            let bind = CommandModel::Bind { material: mat.0 as int };
            assert(r.commands_from(w, e, last) == seq![bind, draw] + rest);
            assert(seq![bind, draw] + rest =~= seq![bind] + (seq![draw] + rest));
            lemma_draws_of_cons(bind, seq![draw] + rest);
            lemma_draws_of_cons(draw, rest);
            assert(!(bind is Draw));
            assert(draws_of(r.commands_from(w, e, last)) =~= seq![draw] + draws_of(rest));
        }
    }
}

} // verus!
