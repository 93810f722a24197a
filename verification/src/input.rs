//! The input aggregator: window events gathered between frames into one input
//! record per frame.

use vstd::prelude::*;
use crate::geometry::Scale;

verus! {

/// The modifier keys that are held down.
#[derive(Clone, Copy, Debug, PartialEq, Eq, Structural)]
pub struct Modifiers {
    pub shift: bool,
    pub ctrl: bool,
    pub alt: bool,
    pub command: bool,
}

/// A modifier key.
#[derive(Clone, Copy, Debug, PartialEq, Eq, Structural)]
pub enum ModifierKey {
    Shift,
    Control,
    Alt,
    Command,
}

impl Modifiers {
    /// The modifiers once `key` went down (`pressed`) or up.
    pub open spec fn with(self, key: ModifierKey, pressed: bool) -> Modifiers {
        match key {
            ModifierKey::Shift => Modifiers { shift: pressed, ..self },
            ModifierKey::Control => Modifiers { ctrl: pressed, ..self },
            ModifierKey::Alt => Modifiers { alt: pressed, ..self },
            ModifierKey::Command => Modifiers { command: pressed, ..self },
        }
    }

    /// No modifier key is held.
    pub fn none() -> (m: Modifiers)
        ensures
            m == (Modifiers { shift: false, ctrl: false, alt: false, command: false }),
    {
        Modifiers { shift: false, ctrl: false, alt: false, command: false }
    }

    /// The modifiers once `key` went down (`pressed`) or up.
    pub fn set(&self, key: ModifierKey, pressed: bool) -> (m: Modifiers)
        ensures
            m == self.with(key, pressed),
    {
        match key {
            ModifierKey::Shift => Modifiers { shift: pressed, ..*self },
            ModifierKey::Control => Modifiers { ctrl: pressed, ..*self },
            ModifierKey::Alt => Modifiers { alt: pressed, ..*self },
            ModifierKey::Command => Modifiers { command: pressed, ..*self },
        }
    }
}

/// A key of the keyboard: a modifier, or any other key under the code that the
/// windowing layer has for it.
#[derive(Clone, Copy, Debug, PartialEq, Eq, Structural)]
pub enum Key {
    Modifier(ModifierKey),
    Code(u32),
}

/// A button of the pointer.
#[derive(Clone, Copy, Debug, PartialEq, Eq, Structural)]
pub enum PointerButton {
    Primary,
    Secondary,
    Middle,
    Other(u8),
}

/// An event as the windowing layer reports it. Positions are in the window's
/// own coordinates.
#[derive(Clone, Copy, Debug, PartialEq, Eq, Structural)]
pub enum WindowEvent {
    CursorMoved { x: i32, y: i32 },
    MouseButton { button: PointerButton, pressed: bool },
    Key { key: Key, pressed: bool },
    Char(char),
    Scroll { dx: i32, dy: i32 },
    Focus(bool),
    /// The framebuffer has a new size in physical pixels.
    Resized { width: u32, height: u32 },
    /// The display has a new scale.
    ScaleChanged(Scale),
    CloseRequested,
}

/// An entry of the frame's event list, as the GUI takes it.
#[derive(Clone, Copy, Debug, PartialEq, Eq, Structural)]
pub enum InputEvent {
    PointerMoved { x: i32, y: i32 },
    PointerButton { x: i32, y: i32, button: PointerButton, pressed: bool, modifiers: Modifiers },
    Key { key: Key, pressed: bool, modifiers: Modifiers },
    Text(char),
    Scroll { dx: i32, dy: i32 },
}

/// What the GUI is handed when a frame begins: the screen, the time, the state
/// that lasts, and the events since the frame before.
#[derive(Clone, Debug, PartialEq, Eq)]
pub struct RawInputSnapshot {
    /// The screen's width in logical units.
    pub screen_width: u64,
    /// The screen's height in logical units.
    pub screen_height: u64,
    /// The scale that the frame works with.
    pub scale: Scale,
    /// Microseconds since the start.
    pub time: u64,
    pub modifiers: Modifiers,
    pub focused: bool,
    pub events: Vec<InputEvent>,
}

/// What a [`RawInputSnapshot`] holds, as mathematics.
pub struct SnapshotModel {
    pub screen_width: u64,
    pub screen_height: u64,
    pub scale: Scale,
    pub time: u64,
    pub modifiers: Modifiers,
    pub focused: bool,
    pub events: Seq<InputEvent>,
}

impl View for RawInputSnapshot {
    type V = SnapshotModel;

    open spec fn view(&self) -> SnapshotModel {
        SnapshotModel {
            screen_width: self.screen_width,
            screen_height: self.screen_height,
            scale: self.scale,
            time: self.time,
            modifiers: self.modifiers,
            focused: self.focused,
            events: self.events@,
        }
    }
}

/// The input state, as mathematics. `events` is for one frame: the next
/// snapshot takes it and leaves it empty. The other fields last: they change
/// one at a time and are never reset.
pub struct InputModel {
    pub events: Seq<InputEvent>,
    pub cursor_x: i32,
    pub cursor_y: i32,
    pub modifiers: Modifiers,
    pub focused: bool,
    pub clipboard: Option<Seq<char>>,
    pub screen_width: u64,
    pub screen_height: u64,
    pub scale: Scale,
    pub time: u64,
}

impl InputModel {
    /// The state that lasts, once `event` is handled.
    pub open spec fn noted(self, event: WindowEvent) -> InputModel {
        match event {
            WindowEvent::CursorMoved { x, y } => InputModel { cursor_x: x, cursor_y: y, ..self },
            WindowEvent::Key { key: Key::Modifier(m), pressed } => InputModel {
                modifiers: self.modifiers.with(m, pressed),
                ..self
            },
            WindowEvent::Focus(focused) => InputModel { focused, ..self },
            _ => self,
        }
    }

    /// The entry that `event` adds to the frame's events, if it adds one. The
    /// state it is read in is the state that has taken note of the event, so
    /// that the press of a modifier key already carries that modifier.
    pub open spec fn entry(self, event: WindowEvent) -> Option<InputEvent> {
        let noted = self.noted(event);
        match event {
            WindowEvent::CursorMoved { x, y } => Some(InputEvent::PointerMoved { x, y }),
            WindowEvent::MouseButton { button, pressed } => Some(
                InputEvent::PointerButton {
                    x: noted.cursor_x,
                    y: noted.cursor_y,
                    button,
                    pressed,
                    modifiers: noted.modifiers,
                },
            ),
            WindowEvent::Key { key, pressed } => Some(
                InputEvent::Key { key, pressed, modifiers: noted.modifiers },
            ),
            WindowEvent::Char(c) => Some(InputEvent::Text(c)),
            WindowEvent::Scroll { dx, dy } => Some(InputEvent::Scroll { dx, dy }),
            WindowEvent::Focus(_) => None,
            WindowEvent::Resized { .. } => None,
            WindowEvent::ScaleChanged(_) => None,
            WindowEvent::CloseRequested => None,
        }
    }

    /// The entries that `event` adds to the frame's events: one or none.
    pub open spec fn entries(self, event: WindowEvent) -> Seq<InputEvent> {
        match self.entry(event) {
            Some(e) => seq![e],
            None => Seq::empty(),
        }
    }

    /// The state once `event` is handled.
    pub open spec fn handle(self, event: WindowEvent) -> InputModel {
        InputModel { events: self.events + self.entries(event), ..self.noted(event) }
    }

    /// What the next snapshot holds.
    pub open spec fn snapshot(self) -> SnapshotModel {
        SnapshotModel {
            screen_width: self.screen_width,
            screen_height: self.screen_height,
            scale: self.scale,
            time: self.time,
            modifiers: self.modifiers,
            focused: self.focused,
            events: self.events,
        }
    }

    /// The state once the snapshot is taken: the frame's events are gone, all
    /// else stands.
    pub open spec fn drained(self) -> InputModel {
        InputModel { events: Seq::empty(), ..self }
    }
}

/// What can happen to the input state between frames and at their start.
pub enum InputOp {
    /// A window event is handled.
    Event(WindowEvent),
    /// The snapshot for a frame is taken.
    Snapshot,
}

/// The state once one operation is carried out.
pub open spec fn step(state: InputModel, op: InputOp) -> InputModel {
    match op {
        InputOp::Event(e) => state.handle(e),
        InputOp::Snapshot => state.drained(),
    }
}

/// The state once the operations are carried out, in order.
pub open spec fn run(state: InputModel, ops: Seq<InputOp>) -> InputModel
    decreases ops.len(),
{
    if ops.len() == 0 {
        state
    } else {
        step(run(state, ops.drop_last()), ops.last())
    }
}

/// Every entry that the handled events gave, in the order in which they were
/// handled.
pub open spec fn handled(state: InputModel, ops: Seq<InputOp>) -> Seq<InputEvent>
    decreases ops.len(),
{
    if ops.len() == 0 {
        Seq::empty()
    } else {
        handled(state, ops.drop_last()) + match ops.last() {
            InputOp::Event(e) => run(state, ops.drop_last()).entries(e),
            InputOp::Snapshot => Seq::empty(),
        }
    }
}

/// The event lists of all the snapshots taken, one behind the other.
pub open spec fn delivered(state: InputModel, ops: Seq<InputOp>) -> Seq<InputEvent>
    decreases ops.len(),
{
    if ops.len() == 0 {
        Seq::empty()
    } else {
        delivered(state, ops.drop_last()) + match ops.last() {
            InputOp::Event(_) => Seq::empty(),
            InputOp::Snapshot => run(state, ops.drop_last()).snapshot().events,
        }
    }
}

/// No event is lost and none is delivered twice: however events and snapshots
/// follow one another, what was waiting at the start and what the events gave
/// since is what the snapshots delivered and what is waiting now, entry for
/// entry and in that order.
pub proof fn lemma_no_loss_no_duplication(state: InputModel, ops: Seq<InputOp>)
    ensures
        state.events + handled(state, ops) == delivered(state, ops) + run(state, ops).events,
    decreases ops.len(),
{
    if ops.len() == 0 {
        assert(state.events + handled(state, ops) =~= delivered(state, ops) + run(state, ops).events);
    } else {
        let before = ops.drop_last();
        lemma_no_loss_no_duplication(state, before);
        let mid = run(state, before);
        match ops.last() {
            InputOp::Event(e) => {
                assert(state.events + handled(state, ops) =~= (state.events + handled(state, before))
                    + mid.entries(e));
                assert(delivered(state, ops) =~= delivered(state, before));
                assert(delivered(state, ops) + run(state, ops).events =~= (delivered(state, before)
                    + mid.events) + mid.entries(e));
            },
            InputOp::Snapshot => {
                assert(handled(state, ops) =~= handled(state, before));
                assert(delivered(state, ops) + run(state, ops).events =~= delivered(state, before)
                    + mid.events);
            },
        }
    }
}

/// Where nothing was waiting at the start and the last operation is a
/// snapshot, the snapshots together hold exactly the entries of the handled
/// events, in order.
pub proof fn lemma_snapshots_deliver_all(state: InputModel, ops: Seq<InputOp>)
    requires
        state.events.len() == 0,
        ops.len() > 0,
        ops.last() is Snapshot,
    ensures
        delivered(state, ops) == handled(state, ops),
{
    lemma_no_loss_no_duplication(state, ops);
    assert(state.events + handled(state, ops) =~= handled(state, ops));
    assert(delivered(state, ops) + run(state, ops).events =~= delivered(state, ops));
}

/// What lasts is not reset: neither handling an event nor taking a snapshot
/// touches the screen, the time or the clipboard text that waits, and a
/// snapshot touches nothing but the frame's events.
pub proof fn lemma_persistent_state(state: InputModel, op: InputOp)
    ensures
        step(state, op).clipboard == state.clipboard,
        step(state, op).screen_width == state.screen_width,
        step(state, op).screen_height == state.screen_height,
        step(state, op).scale == state.scale,
        step(state, op).time == state.time,
        op is Snapshot ==> step(state, op) == (InputModel { events: Seq::empty(), ..state }),
{
}

/// The input state of a window.
pub struct FrameInputState {
    events: Vec<InputEvent>,
    cursor_x: i32,
    cursor_y: i32,
    modifiers: Modifiers,
    focused: bool,
    clipboard: Option<String>,
    screen_width: u64,
    screen_height: u64,
    scale: Scale,
    time: u64,
}

impl View for FrameInputState {
    type V = InputModel;

    closed spec fn view(&self) -> InputModel {
        InputModel {
            events: self.events@,
            cursor_x: self.cursor_x,
            cursor_y: self.cursor_y,
            modifiers: self.modifiers,
            focused: self.focused,
            clipboard: match self.clipboard {
                Some(text) => Some(text@),
                None => None,
            },
            screen_width: self.screen_width,
            screen_height: self.screen_height,
            scale: self.scale,
            time: self.time,
        }
    }
}

impl FrameInputState {
    /// The state of a window that has just been made: no event waits, no
    /// modifier is held, the cursor is in the corner, the window has the focus.
    pub fn new(screen_width: u64, screen_height: u64, scale: Scale) -> (state: FrameInputState)
        ensures
            state@ == (InputModel {
                events: Seq::empty(),
                cursor_x: 0,
                cursor_y: 0,
                modifiers: Modifiers { shift: false, ctrl: false, alt: false, command: false },
                focused: true,
                clipboard: None,
                screen_width,
                screen_height,
                scale,
                time: 0,
            }),
    {
        FrameInputState {
            events: Vec::new(),
            cursor_x: 0,
            cursor_y: 0,
            modifiers: Modifiers::none(),
            focused: true,
            clipboard: None,
            screen_width,
            screen_height,
            scale,
            time: 0,
        }
    }

    /// Handles a window event: takes note of what it changes in the state that
    /// lasts, then adds its entry, if it has one, to the frame's events.
    pub fn handle_event(&mut self, event: WindowEvent)
        ensures
            final(self)@ == old(self)@.handle(event),
    {
        let ghost before = self@;
        match event {
            WindowEvent::CursorMoved { x, y } => {
                self.cursor_x = x;
                self.cursor_y = y;
                self.events.push(InputEvent::PointerMoved { x, y });
            },
            WindowEvent::MouseButton { button, pressed } => {
                self.events.push(
                    InputEvent::PointerButton {
                        x: self.cursor_x,
                        y: self.cursor_y,
                        button,
                        pressed,
                        modifiers: self.modifiers,
                    },
                );
            },
            WindowEvent::Key { key, pressed } => {
                match key {
                    Key::Modifier(m) => {
                        self.modifiers = self.modifiers.set(m, pressed);
                    },
                    Key::Code(_) => {},
                }
                self.events.push(InputEvent::Key { key, pressed, modifiers: self.modifiers });
            },
            WindowEvent::Char(c) => {
                self.events.push(InputEvent::Text(c));
            },
            WindowEvent::Scroll { dx, dy } => {
                self.events.push(InputEvent::Scroll { dx, dy });
            },
            WindowEvent::Focus(focused) => {
                self.focused = focused;
            },
            WindowEvent::Resized { .. } => {},
            WindowEvent::ScaleChanged(_) => {},
            WindowEvent::CloseRequested => {},
        }
        assert(self@.events =~= before.handle(event).events);
    }

    /// Takes the snapshot for the frame that begins: the events that waited,
    /// with the screen, the time and the state that lasts as they stand. The
    /// events are gone from the state afterwards; nothing else changes.
    pub fn take_snapshot(&mut self) -> (snapshot: RawInputSnapshot)
        ensures
            snapshot@ == old(self)@.snapshot(),
            final(self)@ == old(self)@.drained(),
    {
        let mut events: Vec<InputEvent> = Vec::new();
        core::mem::swap(&mut events, &mut self.events);
        RawInputSnapshot {
            screen_width: self.screen_width,
            screen_height: self.screen_height,
            scale: self.scale,
            time: self.time,
            modifiers: self.modifiers,
            focused: self.focused,
            events,
        }
    }

    /// Sets the time that the next snapshot reports, in microseconds since the
    /// start.
    pub fn set_time(&mut self, time: u64)
        ensures
            final(self)@ == (InputModel { time, ..old(self)@ }),
    {
        self.time = time;
    }

    /// Sets the screen that the next snapshot reports: its logical size and
    /// the scale.
    pub fn set_screen(&mut self, width: u64, height: u64, scale: Scale)
        ensures
            final(self)@ == (InputModel {
                screen_width: width,
                screen_height: height,
                scale,
                ..old(self)@
            }),
    {
        self.screen_width = width;
        self.screen_height = height;
        self.scale = scale;
    }

    /// Takes text that the GUI cut or copied, to be handed to the windowing
    /// layer. Text that was still waiting is replaced. The events, the cursor,
    /// the modifiers and the focus are not touched.
    pub fn deliver_clipboard(&mut self, text: String)
        ensures
            final(self)@ == (InputModel { clipboard: Some(text@), ..old(self)@ }),
    {
        self.clipboard = Some(text);
    }

    /// Hands out the text that waits for the windowing layer's clipboard, if
    /// there is any, and keeps none.
    pub fn take_clipboard(&mut self) -> (text: Option<String>)
        ensures
            final(self)@ == (InputModel { clipboard: None, ..old(self)@ }),
            match text {
                Some(t) => old(self)@.clipboard == Some(t@),
                None => old(self)@.clipboard is None,
            },
    {
        let mut text: Option<String> = None;
        core::mem::swap(&mut text, &mut self.clipboard);
        text
    }

    /// Where the cursor was last seen, in the window's coordinates.
    pub fn cursor(&self) -> (at: (i32, i32))
        ensures
            at.0 == self@.cursor_x,
            at.1 == self@.cursor_y,
    {
        (self.cursor_x, self.cursor_y)
    }

    /// The modifier keys that are held.
    pub fn modifiers(&self) -> (m: Modifiers)
        ensures
            m == self@.modifiers,
    {
        self.modifiers
    }

    /// Whether the window has the focus.
    pub fn is_focused(&self) -> (focused: bool)
        ensures
            focused == self@.focused,
    {
        self.focused
    }

    /// How many events wait for the next snapshot.
    pub fn pending_events(&self) -> (n: usize)
        ensures
            n == self@.events.len(),
    {
        self.events.len()
    }
}

} // verus!
