//! The mesh renderer: one frame's clipped primitives and texture delta turned
//! into the list of commands that draws the frame.

use vstd::prelude::*;
use crate::command::GpuCommand;
use crate::error::RenderError;
use crate::geometry::{scissor, scissor_of, ClipRect, Scale, Scissor, SurfaceOrigin};
use crate::texture::{
    lemma_apply_updates,
    lemma_release_all,
    CacheModel,
    DeltaModel,
    Outcome,
    TextureCache,
    TextureDelta,
    TextureId,
};

verus! {

/// A corner of a triangle: its position in logical coordinates, its place in
/// the texture as fractions of 65535, and its colour as packed RGBA.
#[derive(Clone, Copy, Debug, PartialEq, Eq, Structural)]
pub struct Vertex {
    pub x: i32,
    pub y: i32,
    pub u: u16,
    pub v: u16,
    pub color: u32,
}

/// A textured triangle mesh. Each three indices name the corners of one
/// triangle; triangles are painted in the order in which they are listed.
#[derive(Clone, Debug, PartialEq, Eq)]
pub struct Mesh {
    pub vertices: Vec<Vertex>,
    pub indices: Vec<u32>,
    pub texture: TextureId,
}

/// What a [`Mesh`] holds, as mathematics.
pub struct MeshModel {
    pub vertices: Seq<Vertex>,
    pub indices: Seq<u32>,
    pub texture: TextureId,
}

impl MeshModel {
    /// The indices come in threes, and each names a vertex of the mesh.
    pub open spec fn wf(self) -> bool {
        &&& self.indices.len() % 3 == 0
        &&& forall|i: int| 0 <= i < self.indices.len() ==> (#[trigger] self.indices[i]) < self.vertices.len()
    }
}

impl View for Mesh {
    type V = MeshModel;

    open spec fn view(&self) -> MeshModel {
        MeshModel { vertices: self.vertices@, indices: self.indices@, texture: self.texture }
    }
}

impl Mesh {
    /// The indices come in threes, and each names a vertex of the mesh.
    pub open spec fn wf(&self) -> bool {
        self@.wf()
    }

    /// A mesh, or `None` where the indices do not come in threes or one of
    /// them names no vertex.
    pub fn new(vertices: Vec<Vertex>, indices: Vec<u32>, texture: TextureId) -> (mesh: Option<Mesh>)
        ensures
            match mesh {
                Some(m) => m.wf() && m@ == (MeshModel {
                    vertices: vertices@,
                    indices: indices@,
                    texture,
                }),
                None => !(MeshModel { vertices: vertices@, indices: indices@, texture }).wf(),
            },
    {
        let mesh = Mesh { vertices, indices, texture };
        if mesh.is_valid() {
            Some(mesh)
        } else {
            None
        }
    }

    /// Whether the indices come in threes and each names a vertex of the mesh.
    pub fn is_valid(&self) -> (ok: bool)
        ensures
            ok == self.wf(),
    {
        if self.indices.len() % 3 != 0 {
            return false;
        }
        let count: usize = self.vertices.len();
        let mut i: usize = 0;
        while i < self.indices.len()
            invariant
                0 <= i <= self.indices.len(),
                count == self.vertices.len(),
                forall|j: int| 0 <= j < i ==> (#[trigger] self.indices@[j]) < self.vertices@.len(),
            decreases self.indices.len() - i,
        {
            if self.indices[i] as usize >= count {
                return false;
            }
            i += 1;
        }
        true
    }
}

/// What is to be painted inside a clip rectangle.
#[derive(Clone, Debug, PartialEq, Eq)]
pub enum Primitive {
    /// A mesh, interpreted by the renderer.
    Mesh(Mesh),
    /// A hook of the embedding application, named by a token of its choice.
    /// The renderer hands control to it in its turn and never looks inside.
    Callback(u64),
}

/// What a [`Primitive`] holds, as mathematics.
pub enum PrimitiveModel {
    Mesh(MeshModel),
    Callback(u64),
}

impl View for Primitive {
    type V = PrimitiveModel;

    open spec fn view(&self) -> PrimitiveModel {
        match self {
            Primitive::Mesh(m) => PrimitiveModel::Mesh(m@),
            Primitive::Callback(token) => PrimitiveModel::Callback(*token),
        }
    }
}

/// A primitive with the rectangle, in logical coordinates, outside of which it
/// must leave no mark.
#[derive(Clone, Debug, PartialEq, Eq)]
pub struct ClippedPrimitive {
    pub clip: ClipRect,
    pub primitive: Primitive,
}

/// What a [`ClippedPrimitive`] holds, as mathematics.
pub struct ClippedModel {
    pub clip: ClipRect,
    pub primitive: PrimitiveModel,
}

impl ClippedModel {
    /// If the primitive is a mesh, the mesh is well-formed.
    pub open spec fn wf(self) -> bool {
        self.primitive matches PrimitiveModel::Mesh(m) ==> m.wf()
    }
}

impl View for ClippedPrimitive {
    type V = ClippedModel;

    open spec fn view(&self) -> ClippedModel {
        ClippedModel { clip: self.clip, primitive: self.primitive@ }
    }
}

impl ClippedPrimitive {
    /// If the primitive is a mesh, the mesh is well-formed.
    pub open spec fn wf(&self) -> bool {
        self@.wf()
    }

    /// Whether the primitive is fit to be painted.
    pub fn is_valid(&self) -> (ok: bool)
        ensures
            ok == self.wf(),
    {
        match &self.primitive {
            Primitive::Mesh(m) => m.is_valid(),
            Primitive::Callback(_) => true,
        }
    }
}

/// The primitives of a frame, as mathematics, in submission order.
pub open spec fn primitives_model(primitives: Seq<ClippedPrimitive>) -> Seq<ClippedModel> {
    Seq::new(primitives.len(), |i: int| primitives[i]@)
}

/// Every primitive of the list is well-formed.
pub open spec fn primitives_wf(primitives: Seq<ClippedModel>) -> bool {
    forall|i: int| 0 <= i < primitives.len() ==> (#[trigger] primitives[i]).wf()
}

/// Whether every primitive of the list is fit to be painted.
pub fn are_valid(primitives: &Vec<ClippedPrimitive>) -> (ok: bool)
    ensures
        ok == primitives_wf(primitives_model(primitives@)),
{
    let mut i: usize = 0;
    while i < primitives.len()
        invariant
            0 <= i <= primitives.len(),
            forall|j: int| 0 <= j < i ==> (#[trigger] primitives_model(primitives@)[j]).wf(),
        decreases primitives.len() - i,
    {
        if !primitives[i].is_valid() {
            assert(!primitives_model(primitives@)[i as int].wf());
            return false;
        }
        i += 1;
    }
    true
}

/// The surface that is drawn to: its size in physical pixels and where its
/// origin lies.
#[derive(Clone, Copy, Debug, PartialEq, Eq, Structural)]
pub struct Surface {
    pub width: u32,
    pub height: u32,
    pub origin: SurfaceOrigin,
}

impl Surface {
    /// The scissor rectangle on this surface of the logical rectangle `clip`.
    pub open spec fn scissor_for(self, scale: Scale, clip: ClipRect) -> Scissor {
        scissor_of(scale.scaled(clip), self.width, self.height, self.origin)
    }
}

/// What drawing part of a frame comes to: the commands for the GPU, and the
/// failure that ended it, if one did.
pub struct DrawOutcome {
    pub commands: Seq<GpuCommand>,
    pub error: Option<RenderError>,
}

/// Draws primitive number `k`.
///
/// A primitive whose clip rectangle is degenerate gives no command. A mesh
/// gives one draw command with its texture bound, or fails where the cache
/// does not hold that texture. A callback gives one command that runs it.
pub open spec fn draw_primitive(
    cache: CacheModel,
    surface: Surface,
    scale: Scale,
    primitive: ClippedModel,
    k: int,
) -> DrawOutcome {
    if primitive.clip.degenerate() {
        DrawOutcome { commands: Seq::empty(), error: None }
    } else {
        let scissor = surface.scissor_for(scale, primitive.clip);
        match primitive.primitive {
            PrimitiveModel::Mesh(mesh) => {
                if cache.holds(mesh.texture) {
                    DrawOutcome {
                        commands: seq![
                            GpuCommand::DrawMesh {
                                primitive: k as usize,
                                handle: cache.texture(mesh.texture).handle,
                                scissor,
                                index_count: mesh.indices.len() as usize,
                            },
                        ],
                        error: None,
                    }
                } else {
                    DrawOutcome {
                        commands: Seq::empty(),
                        error: Some(RenderError::DanglingReference(mesh.texture)),
                    }
                }
            },
            PrimitiveModel::Callback(_) => DrawOutcome {
                commands: seq![GpuCommand::RunCallback { primitive: k as usize, scissor }],
                error: None,
            },
        }
    }
}

/// Draws the primitives from number `from` on, in submission order, up to the
/// first that fails. The commands given before the failure stand.
pub open spec fn draw_primitives(
    cache: CacheModel,
    surface: Surface,
    scale: Scale,
    primitives: Seq<ClippedModel>,
    from: int,
) -> DrawOutcome
    decreases primitives.len() - from,
{
    if from < 0 || from >= primitives.len() {
        DrawOutcome { commands: Seq::empty(), error: None }
    } else {
        let first = draw_primitive(cache, surface, scale, primitives[from], from);
        if first.error is Some {
            first
        } else {
            let rest = draw_primitives(cache, surface, scale, primitives, from + 1);
            DrawOutcome { commands: first.commands + rest.commands, error: rest.error }
        }
    }
}

/// The mesh renderer, as mathematics: the surface it draws to and its texture
/// cache.
pub struct RendererModel {
    pub surface: Surface,
    pub cache: CacheModel,
}

/// What painting a frame comes to: the renderer afterwards, the commands for
/// the GPU, and the failure that ended the frame, if one did.
pub struct FrameOutcome {
    pub renderer: RendererModel,
    pub commands: Seq<GpuCommand>,
    pub error: Option<RenderError>,
}

impl FrameOutcome {
    pub open spec fn result(self) -> Result<(), RenderError> {
        match self.error {
            Some(e) => Err(e),
            None => Ok(()),
        }
    }
}

impl RendererModel {
    pub open spec fn wf(self) -> bool {
        self.cache.wf()
    }

    /// The command that opens every frame.
    pub open spec fn viewport_command(self) -> GpuCommand {
        GpuCommand::SetViewport { width: self.surface.width, height: self.surface.height }
    }

    /// The texture cache once the frame's delta is taken in.
    pub open spec fn updated(self, delta: DeltaModel) -> Outcome {
        self.cache.apply_delta(delta)
    }

    /// The draw phase of the frame, on the cache as the delta's updates left it.
    pub open spec fn drawn(self, scale: Scale, primitives: Seq<ClippedModel>, delta: DeltaModel) -> DrawOutcome {
        draw_primitives(self.updated(delta).cache, self.surface, scale, primitives, 0)
    }

    /// Paints a frame in three steps, in this order: the delta's updates reach
    /// the textures; the primitives are drawn in submission order; the
    /// textures that wait to be freed are freed. A step that fails ends the
    /// frame: what was done stands, the steps behind it do not happen, and the
    /// frees stay queued.
    pub open spec fn paint(self, scale: Scale, primitives: Seq<ClippedModel>, delta: DeltaModel) -> FrameOutcome {
        let head = seq![self.viewport_command()];
        let updated = self.updated(delta);
        if updated.error is Some {
            FrameOutcome {
                renderer: RendererModel { cache: updated.cache, ..self },
                commands: head + updated.commands,
                error: updated.error,
            }
        } else {
            let drawn = self.drawn(scale, primitives, delta);
            if drawn.error is Some {
                FrameOutcome {
                    renderer: RendererModel { cache: updated.cache, ..self },
                    commands: head + updated.commands + drawn.commands,
                    error: drawn.error,
                }
            } else {
                let freed = updated.cache.apply_frees();
                FrameOutcome {
                    renderer: RendererModel { cache: freed.cache, ..self },
                    commands: head + updated.commands + drawn.commands + freed.commands,
                    error: None,
                }
            }
        }
    }
}

/// The mesh renderer. It owns the texture cache and knows the surface's size.
pub struct MeshRenderer {
    surface: Surface,
    textures: TextureCache,
}

impl View for MeshRenderer {
    type V = RendererModel;

    closed spec fn view(&self) -> RendererModel {
        RendererModel { surface: self.surface, cache: self.textures@ }
    }
}

impl MeshRenderer {
    /// The renderer is in order: its texture cache is.
    pub closed spec fn wf(&self) -> bool {
        self.textures.wf()
    }

    /// What `wf` promises of the model.
    pub proof fn lemma_wf(&self)
        requires
            self.wf(),
        ensures
            self@.wf(),
    {
        self.textures.lemma_wf();
    }

    /// A renderer for a surface of `width` by `height` physical pixels, with an
    /// empty texture cache that may hold up to `budget` bytes of texels.
    pub fn new(width: u32, height: u32, origin: SurfaceOrigin, budget: usize) -> (renderer: MeshRenderer)
        ensures
            renderer.wf(),
            renderer@ == (RendererModel {
                surface: Surface { width, height, origin },
                cache: CacheModel {
                    textures: Seq::empty(),
                    pending_frees: Seq::empty(),
                    next_handle: 0,
                    budget: budget as int,
                },
            }),
    {
        MeshRenderer { surface: Surface { width, height, origin }, textures: TextureCache::new(budget) }
    }

    /// Takes the surface's new size. The next frame is painted with it.
    pub fn set_size(&mut self, width: u32, height: u32)
        requires
            old(self).wf(),
        ensures
            final(self).wf(),
            final(self)@ == (RendererModel {
                surface: Surface { width, height, ..old(self)@.surface },
                ..old(self)@
            }),
    {
        self.surface.width = width;
        self.surface.height = height;
    }

    /// The surface that is drawn to.
    pub fn surface(&self) -> (surface: Surface)
        ensures
            surface == self@.surface,
    {
        self.surface
    }

    /// The texture cache.
    pub fn textures(&self) -> (cache: &TextureCache)
        ensures
            cache@ == self@.cache,
            self.wf() ==> cache.wf(),
    {
        &self.textures
    }

    /// Appends the commands that draw primitive number `k`.
    fn draw(&self, scale: Scale, primitive: &ClippedPrimitive, k: usize, commands: &mut Vec<GpuCommand>) -> (result:
        Result<(), RenderError>)
        requires
            self.wf(),
            scale.wf(),
        ensures
            final(commands)@ == old(commands)@ + draw_primitive(
                self@.cache,
                self@.surface,
                scale,
                primitive@,
                k as int,
            ).commands,
            result == match draw_primitive(self@.cache, self@.surface, scale, primitive@, k as int).error {
                Some(e) => Err::<(), RenderError>(e),
                None => Ok(()),
            },
    {
        let ghost out = draw_primitive(self@.cache, self@.surface, scale, primitive@, k as int);
        if primitive.clip.is_degenerate() {
            assert(commands@ =~= old(commands)@ + out.commands);
            return Ok(());
        }
        let rect = scale.scale_rect(&primitive.clip);
        let scissor = scissor(&rect, self.surface.width, self.surface.height, self.surface.origin);
        match &primitive.primitive {
            Primitive::Mesh(mesh) => {
                match self.textures.handle_of(mesh.texture) {
                    Some(handle) => {
                        commands.push(
                            GpuCommand::DrawMesh {
                                primitive: k,
                                handle,
                                scissor,
                                index_count: mesh.indices.len(),
                            },
                        );
                        assert(commands@ =~= old(commands)@ + out.commands);
                        Ok(())
                    },
                    None => {
                        assert(commands@ =~= old(commands)@ + out.commands);
                        Err(RenderError::DanglingReference(mesh.texture))
                    },
                }
            },
            Primitive::Callback(_) => {
                commands.push(GpuCommand::RunCallback { primitive: k, scissor });
                assert(commands@ =~= old(commands)@ + out.commands);
                Ok(())
            },
        }
    }

    /// Appends the commands that draw the primitives, in submission order, up
    /// to the first that fails.
    fn draw_all(&self, scale: Scale, primitives: &Vec<ClippedPrimitive>, commands: &mut Vec<GpuCommand>) -> (result:
        Result<(), RenderError>)
        requires
            self.wf(),
            scale.wf(),
        ensures
            final(commands)@ == old(commands)@ + draw_primitives(
                self@.cache,
                self@.surface,
                scale,
                primitives_model(primitives@),
                0,
            ).commands,
            result == match draw_primitives(
                self@.cache,
                self@.surface,
                scale,
                primitives_model(primitives@),
                0,
            ).error {
                Some(e) => Err::<(), RenderError>(e),
                None => Ok(()),
            },
    {
        let ghost models = primitives_model(primitives@);
        let ghost whole = draw_primitives(self@.cache, self@.surface, scale, models, 0);
        let ghost base = commands@.len() as int;
        let mut k: usize = 0;
        while k < primitives.len()
            invariant
                0 <= k <= primitives.len(),
                self.wf(),
                scale.wf(),
                models == primitives_model(primitives@),
                whole == draw_primitives(self@.cache, self@.surface, scale, models, 0),
                base == old(commands)@.len(),
                commands@.len() >= base,
                commands@.subrange(0, base) == old(commands)@,
                whole == (DrawOutcome {
                    commands: commands@.subrange(base, commands@.len() as int) + draw_primitives(
                        self@.cache,
                        self@.surface,
                        scale,
                        models,
                        k as int,
                    ).commands,
                    error: draw_primitives(self@.cache, self@.surface, scale, models, k as int).error,
                }),
            decreases primitives.len() - k,
        {
            let ghost issued = commands@;
            let ghost step = draw_primitive(self@.cache, self@.surface, scale, models[k as int], k as int);
            assert(models[k as int] == primitives@[k as int]@);
            let result = self.draw(scale, &primitives[k], k, commands);
            proof {
                assert(commands@.subrange(0, base) =~= old(commands)@);
                assert(commands@.subrange(base, commands@.len() as int) =~= issued.subrange(
                    base,
                    issued.len() as int,
                ) + step.commands);
            }
            match result {
                Err(e) => {
                    proof {
                        assert(commands@ =~= old(commands)@ + commands@.subrange(
                            base,
                            commands@.len() as int,
                        ));
                        assert(whole.commands =~= commands@.subrange(base, commands@.len() as int));
                    }
                    return Err(e);
                },
                Ok(()) => {},
            }
            proof {
                let rest = draw_primitives(self@.cache, self@.surface, scale, models, k as int + 1);
                assert(whole.commands =~= commands@.subrange(base, commands@.len() as int)
                    + rest.commands);
            }
            k += 1;
        }
        proof {
            assert(commands@ =~= old(commands)@ + commands@.subrange(base, commands@.len() as int));
            assert(whole.commands =~= commands@.subrange(base, commands@.len() as int));
        }
        Ok(())
    }

    /// Paints a frame: appends to `commands` what the GPU has to do, in order.
    ///
    /// First the viewport is set and the delta's updates reach the textures,
    /// so that every draw sees what the frame created or patched. Then the
    /// primitives are drawn in submission order. Only then are the textures
    /// freed that the delta, or an earlier one, marked for freeing.
    ///
    /// A failure ends the frame where it occurs. The commands given up to then
    /// stand, and nothing is freed: the frees wait for the next frame that is
    /// painted to its end.
    pub fn paint(
        &mut self,
        scale: Scale,
        primitives: &Vec<ClippedPrimitive>,
        delta: &TextureDelta,
        commands: &mut Vec<GpuCommand>,
    ) -> (result: Result<(), RenderError>)
        requires
            old(self).wf(),
            scale.wf(),
            delta.wf(),
            primitives_wf(primitives_model(primitives@)),
        ensures
            final(self).wf(),
            final(self)@ == old(self)@.paint(scale, primitives_model(primitives@), delta@).renderer,
            final(commands)@ == old(commands)@ + old(self)@.paint(
                scale,
                primitives_model(primitives@),
                delta@,
            ).commands,
            result == old(self)@.paint(scale, primitives_model(primitives@), delta@).result(),
    {
        let ghost whole = self@.paint(scale, primitives_model(primitives@), delta@);
        let ghost updated = self@.updated(delta@);
        let ghost drawn = self@.drawn(scale, primitives_model(primitives@), delta@);
        commands.push(GpuCommand::SetViewport { width: self.surface.width, height: self.surface.height });
        let ghost head = commands@;
        match self.textures.apply_delta(delta, commands) {
            Err(e) => {
                assert(commands@ =~= old(commands)@ + whole.commands);
                return Err(e);
            },
            Ok(()) => {},
        }
        match self.draw_all(scale, primitives, commands) {
            Err(e) => {
                assert(commands@ =~= old(commands)@ + whole.commands);
                return Err(e);
            },
            Ok(()) => {},
        }
        self.textures.apply_frees(commands);
        assert(commands@ =~= old(commands)@ + whole.commands);
        Ok(())
    }
}

/// What the draw phase gives: each command paints one primitive at or behind
/// number `from`, one whose clip rectangle has area, restricted to that
/// rectangle's scissor. A draw command stands for a mesh whose texture the
/// cache holds, and binds that texture's handle; a callback command stands for
/// a callback.
pub proof fn lemma_draw_commands(
    cache: CacheModel,
    surface: Surface,
    scale: Scale,
    primitives: Seq<ClippedModel>,
    from: int,
    i: int,
)
    requires
        0 <= from,
        primitives.len() <= usize::MAX,
        0 <= i < draw_primitives(cache, surface, scale, primitives, from).commands.len(),
    ensures
        ({
            let c = draw_primitives(cache, surface, scale, primitives, from).commands[i];
            match c {
                GpuCommand::DrawMesh { primitive, handle, scissor, index_count } => {
                    &&& from <= primitive < primitives.len()
                    &&& !primitives[primitive as int].clip.degenerate()
                    &&& scissor == surface.scissor_for(scale, primitives[primitive as int].clip)
                    &&& primitives[primitive as int].primitive matches PrimitiveModel::Mesh(mesh)
                    &&& cache.holds(mesh.texture)
                    &&& handle == cache.texture(mesh.texture).handle
                },
                GpuCommand::RunCallback { primitive, scissor } => {
                    &&& from <= primitive < primitives.len()
                    &&& !primitives[primitive as int].clip.degenerate()
                    &&& scissor == surface.scissor_for(scale, primitives[primitive as int].clip)
                    &&& primitives[primitive as int].primitive is Callback
                },
                _ => false,
            }
        }),
    decreases primitives.len() - from,
{
    if from < primitives.len() {
        let first = draw_primitive(cache, surface, scale, primitives[from], from);
        if first.error is None {
            if i >= first.commands.len() {
                lemma_draw_commands(cache, surface, scale, primitives, from + 1, i - first.commands.len());
            }
        }
    }
}

/// Where the draw phase runs to its end, every primitive whose clip rectangle
/// has area has its command there: the lemma gives its place.
pub proof fn lemma_drawn_place(
    cache: CacheModel,
    surface: Surface,
    scale: Scale,
    primitives: Seq<ClippedModel>,
    from: int,
    k: int,
) -> (i: int)
    requires
        0 <= from <= k < primitives.len(),
        !primitives[k].clip.degenerate(),
        draw_primitives(cache, surface, scale, primitives, from).error is None,
    ensures
        0 <= i < draw_primitives(cache, surface, scale, primitives, from).commands.len(),
        draw_primitive(cache, surface, scale, primitives[k], k).commands.len() == 1,
        draw_primitives(cache, surface, scale, primitives, from).commands[i] == draw_primitive(
            cache,
            surface,
            scale,
            primitives[k],
            k,
        ).commands[0],
    decreases primitives.len() - from,
{
    let first = draw_primitive(cache, surface, scale, primitives[from], from);
    if from == k {
        0
    } else {
        let j = lemma_drawn_place(cache, surface, scale, primitives, from + 1, k);
        first.commands.len() + j
    }
}

/// A primitive whose clip rectangle is degenerate gives no command at all: no
/// command of the frame paints it.
pub proof fn lemma_degenerate_clip_draws_nothing(
    renderer: RendererModel,
    scale: Scale,
    primitives: Seq<ClippedModel>,
    delta: DeltaModel,
    k: int,
    i: int,
)
    requires
        renderer.wf(),
        delta.wf(),
        primitives.len() <= usize::MAX,
        0 <= k < primitives.len(),
        primitives[k].clip.degenerate(),
        0 <= i < renderer.paint(scale, primitives, delta).commands.len(),
    ensures
        !renderer.paint(scale, primitives, delta).commands[i].paints(k),
{
    let place = lemma_frame_layout(renderer, scale, primitives, delta, i);
    if place.0 == 2 {
        lemma_draw_commands(renderer.updated(delta).cache, renderer.surface, scale, primitives, 0, place.1);
    }
}

/// The parts of a frame's command list: the viewport command (part 0), the
/// texture updates (part 1), the draw phase (part 2) and the frees (part 3).
/// For command number `i` the lemma gives its part and its number within the
/// part.
pub proof fn lemma_frame_layout(
    renderer: RendererModel,
    scale: Scale,
    primitives: Seq<ClippedModel>,
    delta: DeltaModel,
    i: int,
) -> (place: (int, int))
    requires
        renderer.wf(),
        delta.wf(),
        0 <= i < renderer.paint(scale, primitives, delta).commands.len(),
    ensures
        ({
            let c = renderer.paint(scale, primitives, delta).commands[i];
            let updated = renderer.updated(delta);
            let drawn = renderer.drawn(scale, primitives, delta);
            let freed = updated.cache.apply_frees();
            &&& 0 <= place.0 <= 3
            &&& place.0 == 0 ==> i == 0 && c == renderer.viewport_command()
            &&& place.0 == 1 ==> {
                &&& i == 1 + place.1
                &&& 0 <= place.1 < updated.commands.len()
                &&& c == updated.commands[place.1]
                &&& (c is AllocateTexture || c is UploadPixels)
            }
            &&& place.0 == 2 ==> {
                &&& updated.error is None
                &&& i == 1 + updated.commands.len() + place.1
                &&& 0 <= place.1 < drawn.commands.len()
                &&& c == drawn.commands[place.1]
            }
            &&& place.0 == 3 ==> {
                &&& updated.error is None
                &&& drawn.error is None
                &&& i == 1 + updated.commands.len() + drawn.commands.len() + place.1
                &&& 0 <= place.1 < freed.commands.len()
                &&& c == freed.commands[place.1]
                &&& c matches GpuCommand::ReleaseTexture { handle }
                &&& updated.cache.holds_handle(handle)
            }
        }),
{
    let updated = renderer.updated(delta);
    let drawn = renderer.drawn(scale, primitives, delta);
    let freed = updated.cache.apply_frees();
    let queued = renderer.cache.queue_frees(delta.frees);
    assert(queued.wf());
    lemma_apply_updates(queued, delta.updates, 0);
    lemma_release_all(updated.cache, updated.cache.pending_frees, 0);
    if i == 0 {
        (0, 0)
    } else if i < 1 + updated.commands.len() {
        (1, i - 1)
    } else if i < 1 + updated.commands.len() + drawn.commands.len() {
        (2, i - 1 - updated.commands.len())
    } else {
        (3, i - 1 - updated.commands.len() - drawn.commands.len())
    }
}

/// Nothing is freed before the draw phase is over: in a frame's command list
/// every command that draws a mesh or runs a callback stands before every
/// command that releases a texture.
pub proof fn lemma_frees_follow_draws(
    renderer: RendererModel,
    scale: Scale,
    primitives: Seq<ClippedModel>,
    delta: DeltaModel,
    i: int,
    j: int,
)
    requires
        renderer.wf(),
        delta.wf(),
        primitives.len() <= usize::MAX,
        0 <= i < renderer.paint(scale, primitives, delta).commands.len(),
        0 <= j < renderer.paint(scale, primitives, delta).commands.len(),
        renderer.paint(scale, primitives, delta).commands[i].is_paint(),
        renderer.paint(scale, primitives, delta).commands[j].is_release(),
    ensures
        i < j,
{
    let pi = lemma_frame_layout(renderer, scale, primitives, delta, i);
    let pj = lemma_frame_layout(renderer, scale, primitives, delta, j);
    if pj.0 == 2 {
        lemma_draw_commands(renderer.updated(delta).cache, renderer.surface, scale, primitives, 0, pj.1);
    }
}

/// Every draw sees its texture alive: the handle that a draw command binds
/// belongs to a texture that the cache holds once the frame's updates are
/// applied, and no command before the draw releases it.
pub proof fn lemma_draws_see_live_textures(
    renderer: RendererModel,
    scale: Scale,
    primitives: Seq<ClippedModel>,
    delta: DeltaModel,
    i: int,
    j: int,
)
    requires
        renderer.wf(),
        delta.wf(),
        primitives.len() <= usize::MAX,
        0 <= j <= i < renderer.paint(scale, primitives, delta).commands.len(),
        renderer.paint(scale, primitives, delta).commands[i] is DrawMesh,
    ensures
        renderer.updated(delta).cache.holds_handle(
            renderer.paint(scale, primitives, delta).commands[i]->DrawMesh_handle,
        ),
        !renderer.paint(scale, primitives, delta).commands[j].is_release(),
{
    let updated = renderer.updated(delta);
    let pi = lemma_frame_layout(renderer, scale, primitives, delta, i);
    lemma_draw_commands(updated.cache, renderer.surface, scale, primitives, 0, pi.1);
    let c = renderer.paint(scale, primitives, delta).commands[i];
    let p = c->DrawMesh_primitive as int;
    let mesh = primitives[p].primitive->Mesh_0;
    assert(updated.cache.textures[updated.cache.slot(mesh.texture)].handle == c->DrawMesh_handle);
    if renderer.paint(scale, primitives, delta).commands[j].is_release() {
        lemma_frees_follow_draws(renderer, scale, primitives, delta, i, j);
    }
}

/// A texture that a frame both draws with and frees is drawn with first: where
/// the frame is painted to its end, each mesh whose clip rectangle has area has
/// its draw command, with the handle that its texture had once the updates were
/// applied, and every release stands behind it. The lemma gives the draw
/// command's place.
pub proof fn lemma_mesh_drawn_before_free(
    renderer: RendererModel,
    scale: Scale,
    primitives: Seq<ClippedModel>,
    delta: DeltaModel,
    k: int,
) -> (i: int)
    requires
        renderer.wf(),
        delta.wf(),
        primitives.len() <= usize::MAX,
        0 <= k < primitives.len(),
        !primitives[k].clip.degenerate(),
        primitives[k].primitive is Mesh,
        renderer.paint(scale, primitives, delta).error is None,
    ensures
        0 <= i < renderer.paint(scale, primitives, delta).commands.len(),
        renderer.updated(delta).cache.holds(primitives[k].primitive->Mesh_0.texture),
        renderer.paint(scale, primitives, delta).commands[i] == (GpuCommand::DrawMesh {
            primitive: k as usize,
            handle: renderer.updated(delta).cache.texture(primitives[k].primitive->Mesh_0.texture).handle,
            scissor: renderer.surface.scissor_for(scale, primitives[k].clip),
            index_count: primitives[k].primitive->Mesh_0.indices.len() as usize,
        }),
        forall|j: int|
            0 <= j < renderer.paint(scale, primitives, delta).commands.len() && (
            #[trigger] renderer.paint(scale, primitives, delta).commands[j]).is_release() ==> i < j,
{
    let updated = renderer.updated(delta);
    let drawn = renderer.drawn(scale, primitives, delta);
    let d = lemma_drawn_place(updated.cache, renderer.surface, scale, primitives, 0, k);
    lemma_draw_commands(updated.cache, renderer.surface, scale, primitives, 0, d);
    let i = 1 + updated.commands.len() + d;
    let cmds = renderer.paint(scale, primitives, delta).commands;
    assert(cmds[i] == drawn.commands[d]);
    assert forall|j: int| 0 <= j < cmds.len() && (#[trigger] cmds[j]).is_release() implies i < j by {
        lemma_frees_follow_draws(renderer, scale, primitives, delta, i, j);
    }
    i
}

/// What a frame marks for freeing is gone once the frame is painted to its end.
pub proof fn lemma_freed_textures_are_gone(
    renderer: RendererModel,
    scale: Scale,
    primitives: Seq<ClippedModel>,
    delta: DeltaModel,
    k: int,
)
    requires
        renderer.wf(),
        delta.wf(),
        0 <= k < delta.frees.len(),
        renderer.paint(scale, primitives, delta).error is None,
    ensures
        !renderer.paint(scale, primitives, delta).renderer.cache.holds(delta.frees[k]),
        renderer.paint(scale, primitives, delta).renderer.cache.pending_frees.len() == 0,
{
    let updated = renderer.updated(delta);
    let queued = renderer.cache.queue_frees(delta.frees);
    assert(queued.wf());
    lemma_apply_updates(queued, delta.updates, 0);
    let ids = updated.cache.pending_frees;
    lemma_release_all(updated.cache, ids, 0);
    let at = renderer.cache.pending_frees.len() + k;
    assert(ids[at] == delta.frees[k]);
    let done = updated.cache.release_all(ids, 0).cache;
    assert(!done.holds(ids[at]));
    let last = renderer.paint(scale, primitives, delta).renderer.cache;
    assert(last.textures == done.textures);
    if last.holds(delta.frees[k]) {
        let w = last.slot(delta.frees[k]);
        assert(done.textures[w].id == delta.frees[k]);
    }
}

} // verus!
