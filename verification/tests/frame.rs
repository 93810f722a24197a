use egui_glfw::command::GpuCommand;
use egui_glfw::error::RenderError;
use egui_glfw::frame::FrameDriver;
use egui_glfw::geometry::{ClipRect, Scale, Scissor, SurfaceOrigin, Viewport};
use egui_glfw::input::{InputEvent, WindowEvent};
use egui_glfw::render::{ClippedPrimitive, Mesh, Primitive, Surface, Vertex};
use egui_glfw::texture::{Image, PixelFormat, TextureDelta, TextureId, TextureUpdate};

fn driver(width: u32, height: u32, scale: Scale) -> FrameDriver {
    FrameDriver::new(width, height, scale, SurfaceOrigin::BottomLeft, 1 << 20)
}

fn corner(x: i32, y: i32) -> Vertex {
    Vertex { x, y, u: 0, v: 0, color: 0xFFFF_FFFF }
}

fn one_triangle(clip: ClipRect, texture: TextureId) -> ClippedPrimitive {
    let mesh = Mesh::new(vec![corner(0, 0), corner(9, 0), corner(0, 9)], vec![0, 1, 2], texture);
    ClippedPrimitive { clip, primitive: Primitive::Mesh(mesh.unwrap()) }
}

fn create_coverage(id: TextureId, width: u32, height: u32, pixels: Vec<u8>) -> TextureUpdate {
    TextureUpdate {
        id,
        origin: None,
        image: Image::new(width, height, PixelFormat::Coverage, pixels).unwrap(),
    }
}

#[test]
fn new_driver_reports_logical_screen() {
    let mut d = driver(800, 600, Scale::new(2, 1).unwrap());
    assert_eq!(
        d.viewport(),
        Viewport { width: 800, height: 600, scale: Scale { num: 2, den: 1 }, pending_scale: None }
    );
    assert_eq!(
        d.renderer().surface(),
        Surface { width: 800, height: 600, origin: SurfaceOrigin::BottomLeft }
    );
    assert!(!d.should_close());
    assert_eq!(d.scale(), Scale { num: 2, den: 1 });
    let snapshot = d.begin_frame(250);
    assert_eq!(snapshot.screen_width, 400);
    assert_eq!(snapshot.screen_height, 300);
    assert_eq!(snapshot.scale, Scale { num: 2, den: 1 });
    assert_eq!(snapshot.time, 250);
    assert!(snapshot.events.is_empty());
}

#[test]
fn whole_frame_with_one_textured_triangle() {
    let mut d = driver(640, 480, Scale::identity());
    let id = TextureId::Managed(1);
    let snapshot = d.begin_frame(0);
    assert_eq!((snapshot.screen_width, snapshot.screen_height), (640, 480));

    let delta = TextureDelta {
        updates: vec![create_coverage(id, 2, 2, vec![0, 255, 0, 255])],
        frees: vec![],
    };
    let primitives = vec![one_triangle(ClipRect::new(0, 0, 640, 480), id)];
    let mut commands = Vec::new();
    assert_eq!(
        d.end_frame(String::new(), &primitives, &delta, &vec![], &mut commands),
        Ok(())
    );
    let draws: Vec<&GpuCommand> =
        commands.iter().filter(|c| matches!(c, GpuCommand::DrawMesh { .. })).collect();
    assert_eq!(
        draws,
        vec![&GpuCommand::DrawMesh {
            primitive: 0,
            handle: 0,
            scissor: Scissor { x: 0, y: 0, width: 640, height: 480 },
            index_count: 3,
        }]
    );
    assert_eq!(d.renderer().textures().handle_of(id), Some(0));
    assert_eq!(d.renderer().textures().read_pixels(id), Some(vec![0, 255, 0, 255]));

    // Free it in the next frame: absent once that frame is over.
    d.begin_frame(16_000);
    let free = TextureDelta { updates: vec![], frees: vec![id] };
    commands.clear();
    assert_eq!(d.end_frame(String::new(), &vec![], &free, &vec![], &mut commands), Ok(()));
    assert!(!d.renderer().textures().contains(id));
    assert_eq!(commands.last(), Some(&GpuCommand::ReleaseTexture { handle: 0 }));

    // A later reference is dangling.
    d.begin_frame(32_000);
    commands.clear();
    assert_eq!(
        d.end_frame(String::new(), &primitives, &TextureDelta::new(), &vec![], &mut commands),
        Err(RenderError::DanglingReference(id))
    );
    assert!(commands.iter().all(|c| !matches!(c, GpuCommand::DrawMesh { .. })));
}

#[test]
fn events_reach_the_next_frame_only() {
    let mut d = driver(100, 100, Scale::identity());
    d.handle_event(WindowEvent::Char('a'));
    let first = d.begin_frame(1);
    assert_eq!(first.events, vec![InputEvent::Text('a')]);
    // These arrive while the frame is drawn.
    let during = vec![WindowEvent::Char('b'), WindowEvent::CursorMoved { x: 4, y: 5 }];
    let mut commands = Vec::new();
    assert_eq!(
        d.end_frame(String::new(), &vec![], &TextureDelta::new(), &during, &mut commands),
        Ok(())
    );
    assert_eq!(d.input().pending_events(), 2);
    let second = d.begin_frame(2);
    assert_eq!(
        second.events,
        vec![InputEvent::Text('b'), InputEvent::PointerMoved { x: 4, y: 5 }]
    );
    let third = d.begin_frame(3);
    assert!(third.events.is_empty());
    assert_eq!(third.time, 3);
}

#[test]
fn events_are_kept_when_painting_fails() {
    let mut d = driver(100, 100, Scale::identity());
    d.begin_frame(0);
    let primitives = vec![one_triangle(ClipRect::new(0, 0, 5, 5), TextureId::User(1))];
    let during = vec![WindowEvent::Char('z'), WindowEvent::CloseRequested];
    let mut commands = Vec::new();
    assert_eq!(
        d.end_frame(String::from("copied"), &primitives, &TextureDelta::new(), &during, &mut commands),
        Err(RenderError::DanglingReference(TextureId::User(1)))
    );
    assert!(d.should_close());
    assert_eq!(d.take_clipboard(), Some(String::from("copied")));
    assert_eq!(d.begin_frame(1).events, vec![InputEvent::Text('z')]);
}

#[test]
fn resize_goes_to_viewport_and_renderer_not_to_the_gui() {
    let mut d = driver(800, 600, Scale::new(2, 1).unwrap());
    d.begin_frame(0);
    d.handle_event(WindowEvent::Resized { width: 1000, height: 500 });
    assert_eq!(d.input().pending_events(), 0);
    assert_eq!(d.viewport().width, 1000);
    assert_eq!(d.viewport().height, 500);
    assert_eq!(
        d.renderer().surface(),
        Surface { width: 1000, height: 500, origin: SurfaceOrigin::BottomLeft }
    );
    let snapshot = d.begin_frame(1);
    assert_eq!((snapshot.screen_width, snapshot.screen_height), (500, 250));
    assert!(snapshot.events.is_empty());
    let mut commands = Vec::new();
    assert_eq!(
        d.end_frame(String::new(), &vec![], &TextureDelta::new(), &vec![], &mut commands),
        Ok(())
    );
    assert_eq!(commands, vec![GpuCommand::SetViewport { width: 1000, height: 500 }]);
}

#[test]
fn scale_change_waits_for_the_next_frame() {
    let mut d = driver(800, 600, Scale::identity());
    let id = TextureId::Managed(0);
    let first = d.begin_frame(0);
    assert_eq!(first.scale, Scale::identity());

    // The change arrives while the frame is under way.
    d.handle_event(WindowEvent::ScaleChanged(Scale { num: 2, den: 1 }));
    assert_eq!(d.scale(), Scale::identity());
    assert_eq!(d.viewport().pending_scale, Some(Scale { num: 2, den: 1 }));
    let delta = TextureDelta { updates: vec![create_coverage(id, 1, 1, vec![1])], frees: vec![] };
    let primitives = vec![one_triangle(ClipRect::new(10, 10, 50, 50), id)];
    let mut commands = Vec::new();
    assert_eq!(d.end_frame(String::new(), &primitives, &delta, &vec![], &mut commands), Ok(()));
    assert_eq!(
        commands[3],
        GpuCommand::DrawMesh {
            primitive: 0,
            handle: 0,
            scissor: Scissor { x: 10, y: 550, width: 40, height: 40 },
            index_count: 3,
        }
    );

    // The next frame has the new scale throughout.
    let second = d.begin_frame(1);
    assert_eq!(second.scale, Scale { num: 2, den: 1 });
    assert_eq!((second.screen_width, second.screen_height), (400, 300));
    assert_eq!(d.scale(), Scale { num: 2, den: 1 });
    commands.clear();
    assert_eq!(
        d.end_frame(String::new(), &primitives, &TextureDelta::new(), &vec![], &mut commands),
        Ok(())
    );
    assert_eq!(
        commands[1],
        GpuCommand::DrawMesh {
            primitive: 0,
            handle: 0,
            scissor: Scissor { x: 20, y: 500, width: 80, height: 80 },
            index_count: 3,
        }
    );
}

#[test]
fn invalid_scale_change_is_ignored() {
    let mut d = driver(800, 600, Scale::identity());
    d.handle_event(WindowEvent::ScaleChanged(Scale { num: 0, den: 1 }));
    assert_eq!(d.viewport().pending_scale, None);
    assert_eq!(d.begin_frame(0).scale, Scale::identity());
}

#[test]
fn copied_text_waits_for_the_clipboard() {
    let mut d = driver(10, 10, Scale::identity());
    let mut commands = Vec::new();
    d.begin_frame(0);
    assert_eq!(
        d.end_frame(String::new(), &vec![], &TextureDelta::new(), &vec![], &mut commands),
        Ok(())
    );
    assert_eq!(d.take_clipboard(), None);
    d.begin_frame(1);
    assert_eq!(
        d.end_frame(String::from("hello"), &vec![], &TextureDelta::new(), &vec![], &mut commands),
        Ok(())
    );
    // Empty text in a later frame does not wipe what waits.
    d.begin_frame(2);
    assert_eq!(
        d.end_frame(String::new(), &vec![], &TextureDelta::new(), &vec![], &mut commands),
        Ok(())
    );
    assert_eq!(d.take_clipboard(), Some(String::from("hello")));
    assert_eq!(d.take_clipboard(), None);
}

#[test]
fn close_request_is_noted() {
    let mut d = driver(10, 10, Scale::identity());
    assert!(!d.should_close());
    d.handle_events(&vec![WindowEvent::Char('a'), WindowEvent::CloseRequested, WindowEvent::Char('b')]);
    assert!(d.should_close());
    assert_eq!(d.begin_frame(0).events, vec![InputEvent::Text('a'), InputEvent::Text('b')]);
}
