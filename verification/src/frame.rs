//! The frame driver: input, viewport and renderer of one window, stepped frame
//! by frame.
//!
//! A frame begins with [`FrameDriver::begin_frame`], which hands out the input
//! for the GUI, and ends with [`FrameDriver::end_frame`], which paints what the
//! GUI gave back and then takes in the window events that were drained
//! meanwhile. Those events are seen by the next frame.

use vstd::prelude::*;
use crate::command::GpuCommand;
use crate::error::RenderError;
use crate::geometry::{Scale, SurfaceOrigin, Viewport};
use crate::input::{
    FrameInputState,
    InputModel,
    Modifiers,
    RawInputSnapshot,
    SnapshotModel,
    WindowEvent,
};
use crate::render::{
    primitives_model,
    primitives_wf,
    ClippedModel,
    ClippedPrimitive,
    FrameOutcome,
    MeshRenderer,
    RendererModel,
    Surface,
};
use crate::texture::{CacheModel, DeltaModel, TextureDelta};

verus! {

/// The frame driver, as mathematics.
pub struct DriverModel {
    pub input: InputModel,
    pub viewport: Viewport,
    pub renderer: RendererModel,
    pub close_requested: bool,
}

/// What ending a frame comes to: the driver afterwards, the commands for the
/// GPU, and the failure that ended the draw phase, if one did.
pub struct EndOutcome {
    pub driver: DriverModel,
    pub commands: Seq<GpuCommand>,
    pub error: Option<RenderError>,
}

impl EndOutcome {
    pub open spec fn result(self) -> Result<(), RenderError> {
        match self.error {
            Some(e) => Err(e),
            None => Ok(()),
        }
    }
}

impl DriverModel {
    /// Input, viewport and renderer agree: the renderer draws to a surface of
    /// the viewport's size, and the input reports the viewport's scale and the
    /// logical size that follows from it.
    pub open spec fn wf(self) -> bool {
        &&& self.viewport.wf()
        &&& self.renderer.wf()
        &&& self.renderer.surface.width == self.viewport.width
        &&& self.renderer.surface.height == self.viewport.height
        &&& self.input.scale == self.viewport.scale
        &&& self.input.screen_width == self.viewport.logical_size().0
        &&& self.input.screen_height == self.viewport.logical_size().1
    }

    /// The driver with the viewport `viewport`, and input and renderer brought
    /// into line with it.
    pub open spec fn with_viewport(self, viewport: Viewport) -> DriverModel {
        DriverModel {
            input: InputModel {
                screen_width: viewport.logical_size().0 as u64,
                screen_height: viewport.logical_size().1 as u64,
                scale: viewport.scale,
                ..self.input
            },
            viewport,
            renderer: RendererModel {
                surface: Surface {
                    width: viewport.width,
                    height: viewport.height,
                    ..self.renderer.surface
                },
                ..self.renderer
            },
            ..self
        }
    }

    /// The driver once a window event is handled.
    ///
    /// A new framebuffer size goes to the viewport and holds at once. A new
    /// scale is held back until the next frame begins; one with a zero term is
    /// ignored. A request to close is noted. None of these reaches the GUI's
    /// events. Every other event goes to the input state.
    pub open spec fn handle(self, event: WindowEvent) -> DriverModel {
        match event {
            WindowEvent::Resized { width, height } => self.with_viewport(
                Viewport { width, height, ..self.viewport },
            ),
            WindowEvent::ScaleChanged(scale) => if scale.wf() {
                DriverModel {
                    viewport: Viewport { pending_scale: Some(scale), ..self.viewport },
                    ..self
                }
            } else {
                self
            },
            WindowEvent::CloseRequested => DriverModel { close_requested: true, ..self },
            _ => DriverModel { input: self.input.handle(event), ..self },
        }
    }

    /// The driver once the events are handled, in order.
    pub open spec fn handle_all(self, events: Seq<WindowEvent>) -> DriverModel
        decreases events.len(),
    {
        if events.len() == 0 {
            self
        } else {
            self.handle_all(events.drop_last()).handle(events.last())
        }
    }

    /// The driver at the frame boundary, before the snapshot is taken: a scale
    /// that was held back is in effect, and the input reports the new time.
    pub open spec fn at_frame_start(self, time: u64) -> DriverModel {
        let started = self.with_viewport(
            Viewport { scale: self.viewport.next_scale(), pending_scale: None, ..self.viewport },
        );
        DriverModel { input: InputModel { time, ..started.input }, ..started }
    }

    /// The snapshot that beginning a frame at `time` hands out.
    pub open spec fn frame_input(self, time: u64) -> SnapshotModel {
        self.at_frame_start(time).input.snapshot()
    }

    /// The driver once a frame has begun at `time`.
    pub open spec fn begin_frame(self, time: u64) -> DriverModel {
        let started = self.at_frame_start(time);
        DriverModel { input: started.input.drained(), ..started }
    }

    /// The driver once the GUI's copied text is taken in: text that is not
    /// empty waits for the clipboard, empty text changes nothing.
    pub open spec fn with_copied(self, copied: Seq<char>) -> DriverModel {
        if copied.len() > 0 {
            DriverModel { input: InputModel { clipboard: Some(copied), ..self.input }, ..self }
        } else {
            self
        }
    }

    /// The frame painted with the scale that the frame began with.
    pub open spec fn painted(self, primitives: Seq<ClippedModel>, delta: DeltaModel) -> FrameOutcome {
        self.renderer.paint(self.viewport.scale, primitives, delta)
    }

    /// Ends a frame: the copied text is taken in, the frame is painted, and
    /// then the drained window events are handled, whether painting failed or
    /// not.
    pub open spec fn end_frame(
        self,
        copied: Seq<char>,
        primitives: Seq<ClippedModel>,
        delta: DeltaModel,
        events: Seq<WindowEvent>,
    ) -> EndOutcome {
        let painted = self.painted(primitives, delta);
        let after = DriverModel { renderer: painted.renderer, ..self.with_copied(copied) };
        EndOutcome {
            driver: after.handle_all(events),
            commands: painted.commands,
            error: painted.error,
        }
    }
}

/// Handling an event keeps the driver in order and leaves the frame's scale
/// alone: one frame never works with two scales.
pub proof fn lemma_handle_keeps_scale(driver: DriverModel, event: WindowEvent)
    requires
        driver.wf(),
    ensures
        driver.handle(event).wf(),
        driver.handle(event).viewport.scale == driver.viewport.scale,
        driver.handle(event).input.scale == driver.viewport.scale,
        driver.handle(event).renderer.cache == driver.renderer.cache,
{
    crate::geometry::lemma_logical_in_range(driver.viewport.scale, driver.handle(event).viewport.width);
    crate::geometry::lemma_logical_in_range(driver.viewport.scale, driver.handle(event).viewport.height);
}

/// However many events arrive while a frame is under way, the scale stays what
/// it was when the frame began.
pub proof fn lemma_scale_held_within_frame(driver: DriverModel, events: Seq<WindowEvent>)
    requires
        driver.wf(),
    ensures
        driver.handle_all(events).wf(),
        driver.handle_all(events).viewport.scale == driver.viewport.scale,
        driver.handle_all(events).input.scale == driver.viewport.scale,
        driver.handle_all(events).renderer.cache == driver.renderer.cache,
    decreases events.len(),
{
    if events.len() > 0 {
        lemma_scale_held_within_frame(driver, events.drop_last());
        lemma_handle_keeps_scale(driver.handle_all(events.drop_last()), events.last());
    }
}

/// The scale that the snapshot reports is the scale that the frame is painted
/// with, whatever events arrive in between; and a scale that arrives in
/// between is the scale of the frame after.
pub proof fn lemma_one_scale_per_frame(driver: DriverModel, time: u64, events: Seq<WindowEvent>)
    requires
        driver.wf(),
    ensures
        driver.begin_frame(time).wf(),
        driver.frame_input(time).scale == driver.viewport.next_scale(),
        driver.begin_frame(time).handle_all(events).viewport.scale == driver.frame_input(time).scale,
{
    let viewport = Viewport {
        scale: driver.viewport.next_scale(),
        pending_scale: None,
        ..driver.viewport
    };
    crate::geometry::lemma_logical_in_range(viewport.scale, viewport.width);
    crate::geometry::lemma_logical_in_range(viewport.scale, viewport.height);
    lemma_scale_held_within_frame(driver.begin_frame(time), events);
}

/// The frame driver of one window.
pub struct FrameDriver {
    input: FrameInputState,
    viewport: Viewport,
    renderer: MeshRenderer,
    close_requested: bool,
}

impl View for FrameDriver {
    type V = DriverModel;

    closed spec fn view(&self) -> DriverModel {
        DriverModel {
            input: self.input@,
            viewport: self.viewport,
            renderer: self.renderer@,
            close_requested: self.close_requested,
        }
    }
}

impl FrameDriver {
    /// The driver is in order: its parts are, and they agree.
    pub closed spec fn wf(&self) -> bool {
        &&& self@.wf()
        &&& self.renderer.wf()
    }

    /// What `wf` promises of the model.
    pub proof fn lemma_wf(&self)
        requires
            self.wf(),
        ensures
            self@.wf(),
    {
    }

    /// The driver of a window whose framebuffer has `width` by `height`
    /// physical pixels, on a display of the given scale, with a texture cache
    /// that may hold up to `budget` bytes of texels.
    pub fn new(width: u32, height: u32, scale: Scale, origin: SurfaceOrigin, budget: usize) -> (driver:
        FrameDriver)
        requires
            scale.wf(),
        ensures
            driver.wf(),
            driver@.viewport == (Viewport { width, height, scale, pending_scale: None }),
            driver@.renderer == (RendererModel {
                surface: Surface { width, height, origin },
                cache: CacheModel {
                    textures: Seq::empty(),
                    pending_frees: Seq::empty(),
                    next_handle: 0,
                    budget: budget as int,
                },
            }),
            driver@.input == (InputModel {
                events: Seq::empty(),
                cursor_x: 0,
                cursor_y: 0,
                modifiers: Modifiers { shift: false, ctrl: false, alt: false, command: false },
                focused: true,
                clipboard: None,
                screen_width: scale.logical(width as int) as u64,
                screen_height: scale.logical(height as int) as u64,
                scale,
                time: 0,
            }),
            !driver@.close_requested,
    {
        let viewport = Viewport::new(width, height, scale);
        let size = viewport.screen_size();
        FrameDriver {
            input: FrameInputState::new(size.0, size.1, scale),
            viewport,
            renderer: MeshRenderer::new(width, height, origin, budget),
            close_requested: false,
        }
    }

    /// Brings input and renderer into line with the viewport.
    fn follow_viewport(&mut self)
        requires
            old(self).viewport.wf(),
            old(self).renderer.wf(),
        ensures
            final(self).wf(),
            final(self)@ == old(self)@.with_viewport(old(self)@.viewport),
    {
        let size = self.viewport.screen_size();
        self.input.set_screen(size.0, size.1, self.viewport.scale);
        self.renderer.set_size(self.viewport.width, self.viewport.height);
        proof {
            self.renderer.lemma_wf();
        }
    }

    /// Handles one window event.
    pub fn handle_event(&mut self, event: WindowEvent)
        requires
            old(self).wf(),
        ensures
            final(self).wf(),
            final(self)@ == old(self)@.handle(event),
    {
        proof {
            lemma_handle_keeps_scale(self@, event);
        }
        match event {
            WindowEvent::Resized { width, height } => {
                self.viewport.resize(width, height);
                self.follow_viewport();
            },
            WindowEvent::ScaleChanged(scale) => {
                self.viewport.request_scale(scale);
            },
            WindowEvent::CloseRequested => {
                self.close_requested = true;
            },
            _ => {
                self.input.handle_event(event);
            },
        }
    }

    /// Handles a batch of window events in the order in which they arrived.
    pub fn handle_events(&mut self, events: &Vec<WindowEvent>)
        requires
            old(self).wf(),
        ensures
            final(self).wf(),
            final(self)@ == old(self)@.handle_all(events@),
    {
        let mut i: usize = 0;
        while i < events.len()
            invariant
                0 <= i <= events.len(),
                self.wf(),
                self@ == old(self)@.handle_all(events@.subrange(0, i as int)),
            decreases events.len() - i,
        {
            assert(events@.subrange(0, i as int + 1).drop_last() =~= events@.subrange(0, i as int));
            self.handle_event(events[i]);
            i += 1;
        }
        assert(events@.subrange(0, i as int) =~= events@);
    }

    /// Begins a frame at `time` microseconds since the start and hands out the
    /// input for the GUI. A scale that was held back takes effect first, so
    /// that the snapshot already reports it.
    pub fn begin_frame(&mut self, time: u64) -> (snapshot: RawInputSnapshot)
        requires
            old(self).wf(),
        ensures
            final(self).wf(),
            snapshot@ == old(self)@.frame_input(time),
            final(self)@ == old(self)@.begin_frame(time),
    {
        proof {
            lemma_one_scale_per_frame(self@, time, Seq::empty());
        }
        self.viewport.begin_frame();
        self.follow_viewport();
        self.input.set_time(time);
        self.input.take_snapshot()
    }

    /// Ends a frame. Text that the GUI cut or copied is kept for the clipboard
    /// unless it is empty. The frame is painted with the scale that it began
    /// with, and the commands for the GPU are appended to `commands`. Then the
    /// window events drained meanwhile are handled, in order, for the next
    /// frame to see; they are handled also where painting failed.
    pub fn end_frame(
        &mut self,
        copied_text: String,
        primitives: &Vec<ClippedPrimitive>,
        delta: &TextureDelta,
        events: &Vec<WindowEvent>,
        commands: &mut Vec<GpuCommand>,
    ) -> (result: Result<(), RenderError>)
        requires
            old(self).wf(),
            delta.wf(),
            primitives_wf(primitives_model(primitives@)),
        ensures
            final(self).wf(),
            final(self)@ == old(self)@.end_frame(
                copied_text@,
                primitives_model(primitives@),
                delta@,
                events@,
            ).driver,
            final(commands)@ == old(commands)@ + old(self)@.end_frame(
                copied_text@,
                primitives_model(primitives@),
                delta@,
                events@,
            ).commands,
            result == old(self)@.end_frame(
                copied_text@,
                primitives_model(primitives@),
                delta@,
                events@,
            ).result(),
    {
        if !copied_text.as_str().is_empty() {
            self.input.deliver_clipboard(copied_text);
        }
        let result = self.renderer.paint(self.viewport.scale, primitives, delta, commands);
        proof {
            self.renderer.lemma_wf();
        }
        self.handle_events(events);
        result
    }

    /// Hands out the text that waits for the windowing layer's clipboard, if
    /// there is any, and keeps none.
    pub fn take_clipboard(&mut self) -> (text: Option<String>)
        requires
            old(self).wf(),
        ensures
            final(self).wf(),
            final(self)@ == (DriverModel {
                input: InputModel { clipboard: None, ..old(self)@.input },
                ..old(self)@
            }),
            match text {
                Some(t) => old(self)@.input.clipboard == Some(t@),
                None => old(self)@.input.clipboard is None,
            },
    {
        self.input.take_clipboard()
    }

    /// Whether the window was asked to close.
    pub fn should_close(&self) -> (close: bool)
        ensures
            close == self@.close_requested,
    {
        self.close_requested
    }

    /// The scale that the frame under way works with.
    pub fn scale(&self) -> (scale: Scale)
        ensures
            scale == self@.viewport.scale,
    {
        self.viewport.scale
    }

    /// The viewport.
    pub fn viewport(&self) -> (viewport: Viewport)
        ensures
            viewport == self@.viewport,
    {
        self.viewport
    }

    /// The input state.
    pub fn input(&self) -> (input: &FrameInputState)
        ensures
            input@ == self@.input,
    {
        &self.input
    }

    /// The renderer.
    pub fn renderer(&self) -> (renderer: &MeshRenderer)
        ensures
            renderer@ == self@.renderer,
            self.wf() ==> renderer.wf(),
    {
        &self.renderer
    }
}

} // verus!
