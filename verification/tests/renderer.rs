use egui_glfw::command::GpuCommand;
use egui_glfw::error::RenderError;
use egui_glfw::geometry::{ClipRect, Scale, Scissor, SurfaceOrigin};
use egui_glfw::render::{are_valid, ClippedPrimitive, Mesh, MeshRenderer, Primitive, Surface, Vertex};
use egui_glfw::texture::{Image, PixelFormat, TextureDelta, TextureId, TextureUpdate};

fn vertex(x: i32, y: i32) -> Vertex {
    Vertex { x, y, u: 0, v: 0, color: 0xFFFF_FFFF }
}

fn triangle(texture: TextureId) -> Mesh {
    Mesh::new(vec![vertex(0, 0), vertex(10, 0), vertex(0, 10)], vec![0, 1, 2], texture).unwrap()
}

fn clipped(clip: ClipRect, texture: TextureId) -> ClippedPrimitive {
    ClippedPrimitive { clip, primitive: Primitive::Mesh(triangle(texture)) }
}

fn create(id: TextureId, width: u32, height: u32, pixels: Vec<u8>) -> TextureUpdate {
    TextureUpdate {
        id,
        origin: None,
        image: Image::new(width, height, PixelFormat::Coverage, pixels).unwrap(),
    }
}

fn no_delta() -> TextureDelta {
    TextureDelta::new()
}

#[test]
fn mesh_needs_indices_in_threes_and_in_bounds() {
    let vertices = vec![vertex(0, 0), vertex(1, 0), vertex(0, 1)];
    let id = TextureId::Managed(0);
    assert!(Mesh::new(vertices.clone(), vec![0, 1, 2], id).is_some());
    assert!(Mesh::new(vertices.clone(), vec![], id).is_some());
    assert!(Mesh::new(vertices.clone(), vec![0, 1, 2, 2, 1, 0], id).is_some());
    assert!(Mesh::new(vertices.clone(), vec![0, 1], id).is_none());
    assert!(Mesh::new(vertices.clone(), vec![0, 1, 3], id).is_none());
    assert!(Mesh::new(vec![], vec![0, 0, 0], id).is_none());
    let broken = Mesh { vertices, indices: vec![0, 1, 2, 0], texture: id };
    assert!(!broken.is_valid());
    let primitive = ClippedPrimitive {
        clip: ClipRect::new(0, 0, 1, 1),
        primitive: Primitive::Mesh(broken),
    };
    assert!(!primitive.is_valid());
    assert!(!are_valid(&vec![primitive]));
    assert!(are_valid(&vec![
        clipped(ClipRect::new(0, 0, 1, 1), id),
        ClippedPrimitive { clip: ClipRect::new(0, 0, 1, 1), primitive: Primitive::Callback(1) },
    ]));
    assert!(are_valid(&vec![]));
}

#[test]
fn frame_creates_draws_then_frees() {
    let mut renderer = MeshRenderer::new(200, 100, SurfaceOrigin::BottomLeft, 1 << 20);
    let id = TextureId::Managed(1);
    let delta = TextureDelta {
        updates: vec![create(id, 2, 2, vec![0, 255, 0, 255])],
        frees: vec![],
    };
    let primitives = vec![clipped(ClipRect::new(0, 0, 200, 100), id)];
    let mut commands = Vec::new();
    assert_eq!(renderer.paint(Scale::identity(), &primitives, &delta, &mut commands), Ok(()));
    assert_eq!(
        commands,
        vec![
            GpuCommand::SetViewport { width: 200, height: 100 },
            GpuCommand::AllocateTexture { handle: 0, width: 2, height: 2, format: PixelFormat::Coverage },
            GpuCommand::UploadPixels { handle: 0, x: 0, y: 0, width: 2, height: 2, update: 0 },
            GpuCommand::DrawMesh {
                primitive: 0,
                handle: 0,
                scissor: Scissor { x: 0, y: 0, width: 200, height: 100 },
                index_count: 3,
            },
        ]
    );
    assert!(renderer.textures().contains(id));

    // The next frame frees the texture: it is gone when the frame is over.
    let free = TextureDelta { updates: vec![], frees: vec![id] };
    commands.clear();
    assert_eq!(renderer.paint(Scale::identity(), &vec![], &free, &mut commands), Ok(()));
    assert_eq!(
        commands,
        vec![
            GpuCommand::SetViewport { width: 200, height: 100 },
            GpuCommand::ReleaseTexture { handle: 0 },
        ]
    );
    assert!(!renderer.textures().contains(id));
    assert_eq!(renderer.textures().len(), 0);

    // Whoever names it now names nothing.
    commands.clear();
    assert_eq!(
        renderer.paint(Scale::identity(), &primitives, &no_delta(), &mut commands),
        Err(RenderError::DanglingReference(id))
    );
    assert_eq!(commands, vec![GpuCommand::SetViewport { width: 200, height: 100 }]);
}

#[test]
fn draws_in_a_freeing_frame_see_the_texture() {
    let mut renderer = MeshRenderer::new(100, 100, SurfaceOrigin::TopLeft, 1 << 20);
    let id = TextureId::User(3);
    let mut commands = Vec::new();
    let setup = TextureDelta { updates: vec![create(id, 1, 1, vec![9])], frees: vec![] };
    assert_eq!(renderer.paint(Scale::identity(), &vec![], &setup, &mut commands), Ok(()));
    commands.clear();

    let primitives = vec![
        clipped(ClipRect::new(0, 0, 10, 10), id),
        clipped(ClipRect::new(5, 5, 20, 20), id),
        clipped(ClipRect::new(50, 50, 60, 70), id),
    ];
    let free = TextureDelta { updates: vec![], frees: vec![id] };
    assert_eq!(renderer.paint(Scale::identity(), &primitives, &free, &mut commands), Ok(()));
    assert_eq!(
        commands,
        vec![
            GpuCommand::SetViewport { width: 100, height: 100 },
            GpuCommand::DrawMesh {
                primitive: 0,
                handle: 0,
                scissor: Scissor { x: 0, y: 0, width: 10, height: 10 },
                index_count: 3,
            },
            GpuCommand::DrawMesh {
                primitive: 1,
                handle: 0,
                scissor: Scissor { x: 5, y: 5, width: 15, height: 15 },
                index_count: 3,
            },
            GpuCommand::DrawMesh {
                primitive: 2,
                handle: 0,
                scissor: Scissor { x: 50, y: 50, width: 10, height: 20 },
                index_count: 3,
            },
            GpuCommand::ReleaseTexture { handle: 0 },
        ]
    );
    assert!(!renderer.textures().contains(id));
}

#[test]
fn texture_created_and_freed_in_one_frame_is_drawn() {
    let mut renderer = MeshRenderer::new(100, 100, SurfaceOrigin::TopLeft, 1 << 20);
    let id = TextureId::Managed(0);
    let delta = TextureDelta { updates: vec![create(id, 1, 1, vec![9])], frees: vec![id] };
    let primitives = vec![clipped(ClipRect::new(0, 0, 10, 10), id)];
    let mut commands = Vec::new();
    assert_eq!(renderer.paint(Scale::identity(), &primitives, &delta, &mut commands), Ok(()));
    assert_eq!(commands.len(), 5);
    assert!(matches!(commands[3], GpuCommand::DrawMesh { handle: 0, primitive: 0, .. }));
    assert_eq!(commands[4], GpuCommand::ReleaseTexture { handle: 0 });
    assert!(!renderer.textures().contains(id));
}

#[test]
fn scissor_follows_scale_and_origin() {
    let id = TextureId::Managed(0);
    let delta = TextureDelta { updates: vec![create(id, 1, 1, vec![9])], frees: vec![] };
    let primitives = vec![clipped(ClipRect::new(10, 10, 50, 50), id)];
    let two = Scale::new(2, 1).unwrap();

    let mut top = MeshRenderer::new(400, 300, SurfaceOrigin::TopLeft, 1 << 20);
    let mut commands = Vec::new();
    assert_eq!(top.paint(two, &primitives, &delta, &mut commands), Ok(()));
    assert_eq!(
        commands[3],
        GpuCommand::DrawMesh {
            primitive: 0,
            handle: 0,
            scissor: Scissor { x: 20, y: 20, width: 80, height: 80 },
            index_count: 3,
        }
    );

    let mut bottom = MeshRenderer::new(400, 300, SurfaceOrigin::BottomLeft, 1 << 20);
    commands.clear();
    assert_eq!(bottom.paint(two, &primitives, &delta, &mut commands), Ok(()));
    assert_eq!(
        commands[3],
        GpuCommand::DrawMesh {
            primitive: 0,
            handle: 0,
            scissor: Scissor { x: 20, y: 200, width: 80, height: 80 },
            index_count: 3,
        }
    );
}

#[test]
fn degenerate_clip_draws_nothing() {
    let mut renderer = MeshRenderer::new(100, 100, SurfaceOrigin::TopLeft, 1 << 20);
    let id = TextureId::Managed(0);
    let delta = TextureDelta { updates: vec![create(id, 1, 1, vec![9])], frees: vec![] };
    let primitives = vec![
        clipped(ClipRect::new(10, 10, 10, 50), id),
        clipped(ClipRect::new(10, 10, 50, 10), id),
        clipped(ClipRect::new(50, 50, 10, 10), id),
        ClippedPrimitive { clip: ClipRect::new(0, 0, 0, 0), primitive: Primitive::Callback(7) },
        // Not even an unknown texture matters where nothing is drawn.
        clipped(ClipRect::new(0, 0, -1, 5), TextureId::User(99)),
    ];
    let mut commands = Vec::new();
    assert_eq!(renderer.paint(Scale::identity(), &primitives, &delta, &mut commands), Ok(()));
    assert_eq!(commands.len(), 3);
    assert!(commands.iter().all(|c| !matches!(
        c,
        GpuCommand::DrawMesh { .. } | GpuCommand::RunCallback { .. }
    )));
}

#[test]
fn primitives_are_drawn_in_submission_order() {
    let mut renderer = MeshRenderer::new(100, 100, SurfaceOrigin::TopLeft, 1 << 20);
    let a = TextureId::Managed(0);
    let b = TextureId::User(0);
    let delta = TextureDelta {
        updates: vec![create(a, 1, 1, vec![1]), create(b, 1, 1, vec![2])],
        frees: vec![],
    };
    let clip = ClipRect::new(0, 0, 100, 100);
    let whole = Scissor { x: 0, y: 0, width: 100, height: 100 };
    let primitives = vec![
        clipped(clip, b),
        ClippedPrimitive { clip, primitive: Primitive::Callback(42) },
        clipped(ClipRect::new(3, 3, 3, 3), a),
        clipped(clip, a),
        clipped(clip, b),
    ];
    let mut commands = Vec::new();
    assert_eq!(renderer.paint(Scale::identity(), &primitives, &delta, &mut commands), Ok(()));
    assert_eq!(
        commands[5..].to_vec(),
        vec![
            GpuCommand::DrawMesh { primitive: 0, handle: 1, scissor: whole, index_count: 3 },
            GpuCommand::RunCallback { primitive: 1, scissor: whole },
            GpuCommand::DrawMesh { primitive: 3, handle: 0, scissor: whole, index_count: 3 },
            GpuCommand::DrawMesh { primitive: 4, handle: 1, scissor: whole, index_count: 3 },
        ]
    );
}

#[test]
fn unknown_texture_ends_the_frame() {
    let mut renderer = MeshRenderer::new(100, 100, SurfaceOrigin::TopLeft, 1 << 20);
    let known = TextureId::Managed(0);
    let unknown = TextureId::Managed(1);
    let delta = TextureDelta { updates: vec![create(known, 1, 1, vec![1])], frees: vec![known] };
    let clip = ClipRect::new(0, 0, 100, 100);
    let primitives = vec![clipped(clip, known), clipped(clip, unknown), clipped(clip, known)];
    let mut commands = Vec::new();
    assert_eq!(
        renderer.paint(Scale::identity(), &primitives, &delta, &mut commands),
        Err(RenderError::DanglingReference(unknown))
    );
    // The draw before the failure stands; nothing was freed.
    assert_eq!(commands.len(), 4);
    assert!(matches!(commands[3], GpuCommand::DrawMesh { primitive: 0, .. }));
    assert!(renderer.textures().contains(known));
    assert_eq!(renderer.textures().pending_frees(), 1);

    // The free is made good by the next frame that is painted to its end.
    commands.clear();
    assert_eq!(renderer.paint(Scale::identity(), &vec![], &no_delta(), &mut commands), Ok(()));
    assert_eq!(commands[1], GpuCommand::ReleaseTexture { handle: 0 });
    assert!(!renderer.textures().contains(known));
}

#[test]
fn failed_allocation_draws_nothing() {
    let mut renderer = MeshRenderer::new(100, 100, SurfaceOrigin::TopLeft, 3);
    let id = TextureId::Managed(0);
    let delta = TextureDelta { updates: vec![create(id, 2, 2, vec![0; 4])], frees: vec![] };
    let primitives = vec![clipped(ClipRect::new(0, 0, 100, 100), id)];
    let mut commands = Vec::new();
    assert_eq!(
        renderer.paint(Scale::identity(), &primitives, &delta, &mut commands),
        Err(RenderError::AllocationFailed(id))
    );
    assert_eq!(commands, vec![GpuCommand::SetViewport { width: 100, height: 100 }]);
    assert!(!renderer.textures().contains(id));
}

#[test]
fn set_size_holds_from_the_next_frame() {
    let mut renderer = MeshRenderer::new(100, 100, SurfaceOrigin::BottomLeft, 1 << 20);
    let id = TextureId::Managed(0);
    let delta = TextureDelta { updates: vec![create(id, 1, 1, vec![1])], frees: vec![] };
    let primitives = vec![clipped(ClipRect::new(0, 0, 150, 40), id)];
    let mut commands = Vec::new();
    assert_eq!(renderer.paint(Scale::identity(), &primitives, &delta, &mut commands), Ok(()));
    assert_eq!(commands[0], GpuCommand::SetViewport { width: 100, height: 100 });
    assert_eq!(
        commands[3],
        GpuCommand::DrawMesh {
            primitive: 0,
            handle: 0,
            scissor: Scissor { x: 0, y: 60, width: 100, height: 40 },
            index_count: 3,
        }
    );
    renderer.set_size(300, 200);
    assert_eq!(
        renderer.surface(),
        Surface { width: 300, height: 200, origin: SurfaceOrigin::BottomLeft }
    );
    commands.clear();
    assert_eq!(renderer.paint(Scale::identity(), &primitives, &no_delta(), &mut commands), Ok(()));
    assert_eq!(
        commands,
        vec![
            GpuCommand::SetViewport { width: 300, height: 200 },
            GpuCommand::DrawMesh {
                primitive: 0,
                handle: 0,
                scissor: Scissor { x: 0, y: 160, width: 150, height: 40 },
                index_count: 3,
            },
        ]
    );
}

#[test]
fn paint_appends_to_what_is_there() {
    let mut renderer = MeshRenderer::new(10, 10, SurfaceOrigin::TopLeft, 1 << 20);
    let mut commands = vec![GpuCommand::ReleaseTexture { handle: 77 }];
    assert_eq!(renderer.paint(Scale::identity(), &vec![], &no_delta(), &mut commands), Ok(()));
    assert_eq!(
        commands,
        vec![
            GpuCommand::ReleaseTexture { handle: 77 },
            GpuCommand::SetViewport { width: 10, height: 10 },
        ]
    );
}
