//! MIDP Canvas/Display state and the serialized paint/input queue, plus the
//! [`Displayable`] surface trait and ordered subclass visibility callbacks.

use std::collections::VecDeque;
use vstd::prelude::*;
use crate::device::{bad_display, game_action_spec, DeviceProfile, DisplayFragment, HapticsFragment, InputFragment};
use crate::jvm::JavaError;

verus! {

pub const UP: i32 = 1;
pub const LEFT: i32 = 2;
pub const RIGHT: i32 = 5;
pub const DOWN: i32 = 6;
pub const FIRE: i32 = 8;
pub const GAME_A: i32 = 9;
pub const GAME_B: i32 = 10;
pub const GAME_C: i32 = 11;
pub const GAME_D: i32 = 12;

pub const KEY_NUM0: i32 = 48;
pub const KEY_NUM1: i32 = 49;
pub const KEY_NUM2: i32 = 50;
pub const KEY_NUM3: i32 = 51;
pub const KEY_NUM4: i32 = 52;
pub const KEY_NUM5: i32 = 53;
pub const KEY_NUM6: i32 = 54;
pub const KEY_NUM7: i32 = 55;
pub const KEY_NUM8: i32 = 56;
pub const KEY_NUM9: i32 = 57;
pub const KEY_STAR: i32 = 42;
pub const KEY_POUND: i32 = 35;

/// `Canvas.getGameAction(int)`.
///
/// MIDP defines this mapping entirely by the device — the standard only says a
/// key *may* correspond to a game action — so the resolver carries no table of
/// its own and consults the one the host supplies. Keys the table does not map
/// (typically the soft keys, `*`, `#`) return `0`, the MIDP "no game action"
/// value.
pub fn get_game_action<F: Fn(i32) -> i32>(key_code: i32, device_table: &F) -> (r: i32)
    requires
        device_table.requires((key_code,)),
    ensures
        device_table.ensures((key_code,), r),
{
    device_table(key_code)
}

/// `Canvas.getGameAction` through a reviewed game-owned handset fragment.
pub fn get_game_action_profile(code: i32, input: &InputFragment) -> (r: i32)
    ensures
        r == game_action_spec(*input, code),
{
    input.game_action(code)
}

#[derive(Debug, Clone, Copy, Eq, PartialEq, Hash, Structural)]
pub struct CommandId(pub u32);

#[derive(Debug, Clone, Copy, Eq, PartialEq, Structural)]
pub enum CanvasEvent {
    Paint,
    KeyPressed(i32),
    KeyReleased(i32),
    KeyRepeated(i32),
    PointerPressed { x: i32, y: i32 },
    PointerDragged { x: i32, y: i32 },
    PointerReleased { x: i32, y: i32 },
    SizeChanged { width: i32, height: i32 },
    CommandAction(CommandId),
}

#[derive(Debug, Eq, PartialEq)]
pub struct Command {
    pub id: CommandId,
    pub label: String,
    pub command_type: i32,
    pub priority: i32,
}

impl Clone for Command {
    fn clone(&self) -> (r: Self)
        ensures
            r == *self,
    {
        Command { id: self.id, label: self.label.clone(), command_type: self.command_type, priority: self.priority }
    }
}

impl Command {
    pub const SCREEN: i32 = 1;
    pub const BACK: i32 = 2;
    pub const CANCEL: i32 = 3;
    pub const OK: i32 = 4;
    pub const HELP: i32 = 5;
    pub const STOP: i32 = 6;
    pub const EXIT: i32 = 7;
    pub const ITEM: i32 = 8;

    pub fn new(id: CommandId, label: &str, command_type: i32, priority: i32) -> (r: Self)
        ensures
            r.id == id,
            r.label@ == label@,
            r.command_type == command_type,
            r.priority == priority,
    {
        Self { id, label: label.to_owned(), command_type, priority }
    }
}

/// Whether a command with `id` is registered in `commands`.
pub open spec fn has_command(commands: Seq<Command>, id: CommandId) -> bool {
    exists|i: int| 0 <= i < commands.len() && #[trigger] commands[i].id == id
}

#[derive(Debug)]
pub struct Canvas {
    width: i32,
    height: i32,
    shown: bool,
    full_screen: bool,
    repaint_owed: bool,
    input: VecDeque<CanvasEvent>,
    commands: Vec<Command>,
    command_listener: bool,
    pointer_events: bool,
    pointer_motion_events: bool,
    repeat_events: bool,
}

/// The observable state of a [`Canvas`].
pub struct CanvasView {
    pub width: int,
    pub height: int,
    pub shown: bool,
    pub full_screen: bool,
    /// A paint is owed; it is served before any queued input.
    pub repaint_owed: bool,
    /// Queued input callbacks, oldest first.
    pub input: Seq<CanvasEvent>,
    pub commands: Seq<Command>,
    pub command_listener: bool,
    pub pointer_events: bool,
    pub pointer_motion_events: bool,
    pub repeat_events: bool,
}

impl View for Canvas {
    type V = CanvasView;

    closed spec fn view(&self) -> CanvasView {
        CanvasView {
            width: self.width as int,
            height: self.height as int,
            shown: self.shown,
            full_screen: self.full_screen,
            repaint_owed: self.repaint_owed,
            input: self.input@,
            commands: self.commands@,
            command_listener: self.command_listener,
            pointer_events: self.pointer_events,
            pointer_motion_events: self.pointer_motion_events,
            repeat_events: self.repeat_events,
        }
    }
}

/// `after` is `before` with one more input callback queued.
pub open spec fn queued(before: CanvasView, after: CanvasView, event: CanvasEvent) -> bool {
    after == with_input(before, event)
}

impl Canvas {
    /// A hidden canvas with an empty queue; the dimensions must be positive.
    pub fn new(width: i32, height: i32) -> (r: Self)
        requires
            width > 0 && height > 0,
        ensures
            r@ == (CanvasView {
                width: width as int,
                height: height as int,
                shown: false,
                full_screen: false,
                repaint_owed: false,
                input: Seq::empty(),
                commands: Seq::empty(),
                command_listener: false,
                pointer_events: false,
                pointer_motion_events: false,
                repeat_events: false,
            }),
    {
        let r = Self {
            width,
            height,
            shown: false,
            full_screen: false,
            repaint_owed: false,
            input: VecDeque::new(),
            commands: Vec::new(),
            command_listener: false,
            pointer_events: false,
            pointer_motion_events: false,
            repeat_events: false,
        };
        assert(r@.input =~= Seq::empty());
        assert(r@.commands =~= Seq::empty());
        r
    }

    /// A canvas of the device's size, with no pointer or repeat callbacks.
    pub fn for_device(display: &DisplayFragment, fullscreen: bool) -> (r: Self)
        requires
            0 < display.width <= i32::MAX,
            0 < display.height <= i32::MAX,
            display.fullscreen_width matches Some(w) ==> 0 < w <= i32::MAX,
            display.fullscreen_height matches Some(h) ==> 0 < h <= i32::MAX,
        ensures
            (r@.width, r@.height) == ({
                let (w, h) = display.canvas_size_spec(fullscreen);
                (w as int, h as int)
            }),
            !r@.shown && !r@.full_screen && !r@.repaint_owed && r@.input.len() == 0,
            r@.commands.len() == 0 && !r@.command_listener,
            !r@.pointer_events && !r@.pointer_motion_events && !r@.repeat_events,
    {
        let (width, height) = display.canvas_size(fullscreen);
        Self::new(width as i32, height as i32)
    }

    /// A canvas with the selected device's display and callback
    /// capabilities. Keeping these flags in the game-owned profile prevents a
    /// host from silently pretending every handset was touch-capable.
    pub fn for_profile(profile: &DeviceProfile, fullscreen: bool) -> (r: Self)
        requires
            !bad_display(profile.display),
        ensures
            (r@.width, r@.height) == ({
                let (w, h) = profile.display.canvas_size_spec(fullscreen);
                (w as int, h as int)
            }),
            !r@.shown && !r@.full_screen && !r@.repaint_owed && r@.input.len() == 0,
            r@.commands.len() == 0 && !r@.command_listener,
            r@.pointer_events == profile.input.pointer_events,
            r@.pointer_motion_events == profile.input.pointer_motion_events,
            r@.repeat_events == profile.input.repeat_events,
    {
        let mut canvas = Self::for_device(&profile.display, fullscreen);
        canvas.pointer_events = profile.input.pointer_events;
        canvas.pointer_motion_events = profile.input.pointer_motion_events;
        canvas.repeat_events = profile.input.repeat_events;
        canvas
    }

    pub fn width(&self) -> (r: i32)
        ensures
            r == self@.width,
    {
        self.width
    }

    pub fn height(&self) -> (r: i32)
        ensures
            r == self@.height,
    {
        self.height
    }

    pub fn is_shown(&self) -> (r: bool)
        ensures
            r == self@.shown,
    {
        self.shown
    }

    pub fn is_full_screen(&self) -> (r: bool)
        ensures
            r == self@.full_screen,
    {
        self.full_screen
    }

    pub fn has_pointer_events(&self) -> (r: bool)
        ensures
            r == self@.pointer_events,
    {
        self.pointer_events
    }

    pub fn has_pointer_motion_events(&self) -> (r: bool)
        ensures
            r == self@.pointer_motion_events,
    {
        self.pointer_motion_events
    }

    pub fn has_repeat_events(&self) -> (r: bool)
        ensures
            r == self@.repeat_events,
    {
        self.repeat_events
    }

    pub fn set_full_screen_mode(&mut self, enabled: bool)
        ensures
            final(self)@ == (CanvasView { full_screen: enabled, ..old(self)@ }),
    {
        self.full_screen = enabled;
    }

    pub fn request_repaint(&mut self)
        ensures
            final(self)@ == with_repaint(old(self)@),
    {
        self.repaint_owed = true;
    }

    pub fn repaint_owed(&self) -> (r: bool)
        ensures
            r == self@.repaint_owed,
    {
        self.repaint_owed
    }

    pub fn key_pressed(&mut self, code: i32)
        ensures
            queued(old(self)@, final(self)@, CanvasEvent::KeyPressed(code)),
    {
        self.input.push_back(CanvasEvent::KeyPressed(code));
    }

    pub fn key_released(&mut self, code: i32)
        ensures
            queued(old(self)@, final(self)@, CanvasEvent::KeyReleased(code)),
    {
        self.input.push_back(CanvasEvent::KeyReleased(code));
    }

    pub fn key_repeated(&mut self, code: i32)
        ensures
            queued(old(self)@, final(self)@, CanvasEvent::KeyRepeated(code)),
    {
        self.input.push_back(CanvasEvent::KeyRepeated(code));
    }

    pub fn pointer_pressed(&mut self, x: i32, y: i32)
        ensures
            queued(old(self)@, final(self)@, CanvasEvent::PointerPressed { x, y }),
    {
        self.input.push_back(CanvasEvent::PointerPressed { x, y });
    }

    pub fn pointer_dragged(&mut self, x: i32, y: i32)
        ensures
            queued(old(self)@, final(self)@, CanvasEvent::PointerDragged { x, y }),
    {
        self.input.push_back(CanvasEvent::PointerDragged { x, y });
    }

    pub fn pointer_released(&mut self, x: i32, y: i32)
        ensures
            queued(old(self)@, final(self)@, CanvasEvent::PointerReleased { x, y }),
    {
        self.input.push_back(CanvasEvent::PointerReleased { x, y });
    }

    /// Apply a host surface resize before queueing the MIDP `sizeChanged`
    /// callback. Duplicate dimensions do not invent duplicate callbacks.
    pub fn resize(&mut self, width: i32, height: i32) -> (r: Result<(), JavaError>)
        ensures
            width <= 0 || height <= 0 ==> r == Err::<(), JavaError>(
                JavaError::IllegalArgument("Canvas dimensions must be positive"),
            ) && final(self)@ == old(self)@,
            width > 0 && height > 0 ==> r is Ok,
            width > 0 && height > 0 && width == old(self)@.width && height == old(self)@.height
                ==> final(self)@ == old(self)@,
            width > 0 && height > 0 && (width != old(self)@.width || height != old(self)@.height)
                ==> final(self)@ == (CanvasView {
                width: width as int,
                height: height as int,
                input: old(self)@.input.push(CanvasEvent::SizeChanged { width, height }),
                repaint_owed: true,
                ..old(self)@
            }),
    {
        if width <= 0 || height <= 0 {
            return Err(JavaError::IllegalArgument("Canvas dimensions must be positive"));
        }
        if self.width != width || self.height != height {
            self.width = width;
            self.height = height;
            self.input.push_back(CanvasEvent::SizeChanged { width, height });
            self.request_repaint();
        }
        Ok(())
    }

    fn find_command(&self, id: CommandId) -> (r: bool)
        ensures
            r == has_command(self@.commands, id),
    {
        let mut i: usize = 0;
        while i < self.commands.len()
            invariant
                i <= self.commands@.len(),
                forall|j: int| 0 <= j < i ==> self.commands@[j].id != id,
            decreases self.commands@.len() - i,
        {
            if self.commands[i].id == id {
                return true;
            }
            i += 1;
        }
        false
    }

    /// Registers `command` unless a command with the same identity already is.
    pub fn add_command(&mut self, command: Command)
        ensures
            has_command(old(self)@.commands, command.id) ==> final(self)@ == old(self)@,
            !has_command(old(self)@.commands, command.id) ==> final(self)@ == (CanvasView {
                commands: old(self)@.commands.push(command),
                ..old(self)@
            }),
    {
        if !self.find_command(command.id) {
            self.commands.push(command);
        }
    }

    /// Unregisters every command with identity `id`, keeping the others in
    /// order.
    pub fn remove_command(&mut self, id: CommandId)
        ensures
            final(self)@ == (CanvasView {
                commands: old(self)@.commands.filter(|c: Command| c.id != id),
                ..old(self)@
            }),
    {
        let mut kept: Vec<Command> = Vec::new();
        let mut i: usize = 0;
        while i < self.commands.len()
            invariant
                i <= self.commands@.len(),
                kept@ == self.commands@.subrange(0, i as int).filter(|c: Command| c.id != id),
            decreases self.commands@.len() - i,
        {
            proof {
                reveal(Seq::filter);
                assert(self.commands@.subrange(0, i + 1).drop_last() =~= self.commands@.subrange(0, i as int));
            }
            if self.commands[i].id != id {
                kept.push(self.commands[i].clone());
            }
            i += 1;
        }
        proof {
            assert(self.commands@.subrange(0, self.commands@.len() as int) =~= self.commands@);
        }
        self.commands = kept;
    }

    pub fn commands(&self) -> (r: &[Command])
        ensures
            r@ == self@.commands,
    {
        self.commands.as_slice()
    }

    pub fn set_command_listener(&mut self, present: bool)
        ensures
            final(self)@ == (CanvasView { command_listener: present, ..old(self)@ }),
    {
        self.command_listener = present;
    }

    /// Queue a soft-command callback only when the same command object is
    /// registered and a listener is installed, matching `Displayable` identity
    /// rather than guessing from its label or priority.
    pub fn command_action(&mut self, id: CommandId) -> (r: bool)
        ensures
            r == (old(self)@.command_listener && has_command(old(self)@.commands, id)),
            r ==> queued(old(self)@, final(self)@, CanvasEvent::CommandAction(id)),
            !r ==> final(self)@ == old(self)@,
    {
        if self.command_listener && self.find_command(id) {
            self.input.push_back(CanvasEvent::CommandAction(id));
            true
        } else {
            false
        }
    }

    pub fn pending_input_len(&self) -> (r: usize)
        ensures
            r == self@.input.len(),
    {
        self.input.len()
    }

    /// MIDP serializes callbacks. An owed repaint is dispatched before the next
    /// queued input event, and repeated repaint requests coalesce.
    pub fn poll_event(&mut self) -> (r: Option<CanvasEvent>)
        ensures
            (r, final(self)@) == poll_spec(old(self)@),
    {
        if self.repaint_owed {
            self.repaint_owed = false;
            Some(CanvasEvent::Paint)
        } else {
            let r = self.input.pop_front();
            proof {
                if r is Some {
                    assert(self@.input =~= old(self)@.input.drop_first());
                }
            }
            r
        }
    }

    /// Consumes the owed paint, reporting whether the host must paint now.
    #[must_use]
    pub fn service_repaints(&mut self) -> (r: bool)
        ensures
            r == old(self)@.repaint_owed,
            final(self)@ == (CanvasView { repaint_owed: false, ..old(self)@ }),
    {
        let owed = self.repaint_owed;
        self.repaint_owed = false;
        owed
    }

    fn show_notify(&mut self)
        ensures
            final(self)@ == (CanvasView { shown: true, repaint_owed: true, ..old(self)@ }),
    {
        self.shown = true;
        self.request_repaint();
    }

    fn hide_notify(&mut self)
        ensures
            final(self)@ == (CanvasView { shown: false, ..old(self)@ }),
    {
        self.shown = false;
    }
}

impl DisplayFragment {
    pub open spec fn canvas_size_spec(&self, fullscreen: bool) -> (u32, u32) {
        if fullscreen {
            (
                match self.fullscreen_width {
                    Some(w) => w,
                    None => self.width,
                },
                match self.fullscreen_height {
                    Some(h) => h,
                    None => self.height,
                },
            )
        } else {
            (self.width, self.height)
        }
    }
}

/// The base type of anything `Display.setCurrent` can show — the MIDP
/// `Displayable` surface.
pub trait Displayable {
    fn width(&self) -> i32;

    fn height(&self) -> i32;
}

impl Displayable for Canvas {
    fn width(&self) -> i32 {
        self.width
    }

    fn height(&self) -> i32 {
        self.height
    }
}

/// A device-visible operation requested through `Display`.
#[derive(Debug, Clone, Copy, PartialEq, Eq, Structural)]
pub enum HostDisplayOp {
    /// `Display.vibrate(duration)` on a vibration-capable device.
    Vibrate { duration_ms: i32 },
}

#[derive(Debug)]
pub struct Display {
    has_current: bool,
    vibration_supported: bool,
    host_ops: Vec<HostDisplayOp>,
}

/// The observable state of a [`Display`].
pub struct DisplayView {
    pub has_current: bool,
    pub vibration_supported: bool,
    /// Requests for the host, oldest first.
    pub host_ops: Seq<HostDisplayOp>,
}

impl View for Display {
    type V = DisplayView;

    closed spec fn view(&self) -> DisplayView {
        DisplayView {
            has_current: self.has_current,
            vibration_supported: self.vibration_supported,
            host_ops: self.host_ops@,
        }
    }
}

impl Default for Display {
    fn default() -> (r: Self)
        ensures
            !r@.has_current && !r@.vibration_supported && r@.host_ops == Seq::<HostDisplayOp>::empty(),
    {
        Self::with_vibration_support(false)
    }
}

impl Display {
    pub fn with_vibration_support(vibration_supported: bool) -> (r: Self)
        ensures
            !r@.has_current,
            r@.vibration_supported == vibration_supported,
            r@.host_ops == Seq::<HostDisplayOp>::empty(),
    {
        let r = Self { has_current: false, vibration_supported, host_ops: Vec::new() };
        assert(r@.host_ops =~= Seq::<HostDisplayOp>::empty());
        r
    }

    pub fn for_device(haptics: &HapticsFragment) -> (r: Self)
        ensures
            !r@.has_current,
            r@.vibration_supported == haptics.vibration,
            r@.host_ops == Seq::<HostDisplayOp>::empty(),
    {
        Self::with_vibration_support(haptics.vibration)
    }

    pub fn has_current(&self) -> (r: bool)
        ensures
            r == self@.has_current,
    {
        self.has_current
    }

    /// `Display.setCurrent`: hides the previous canvas, then shows `next`,
    /// which owes its first paint.
    pub fn set_current(&mut self, previous: Option<&mut Canvas>, next: &mut Canvas)
        ensures
            final(self)@ == (DisplayView { has_current: true, ..old(self)@ }),
            final(next)@ == (CanvasView { shown: true, repaint_owed: true, ..old(next)@ }),
            previous is Some ==> final(previous->Some_0)@ == (CanvasView { shown: false, ..previous->Some_0@ }),
    {
        if let Some(previous) = previous {
            previous.hide_notify();
        }
        next.show_notify();
        self.has_current = true;
    }

    /// `Display.setCurrent` with the protected Canvas subclass notifications.
    ///
    /// MIDP changes the display state around `hideNotify` / `showNotify`; the
    /// callbacks themselves belong to the game subclass. The old Canvas is
    /// marked hidden before `hide_notify` runs. Only after that callback
    /// succeeds is the new Canvas marked shown and `show_notify` invoked.
    ///
    /// A failing hide leaves the old Canvas hidden, `has_current == false`, and
    /// the new Canvas untouched. A failing show leaves the new Canvas shown and
    /// current, because the generic visibility transition already occurred.
    pub fn set_current_notifying<HideNotify, ShowNotify, E>(
        &mut self,
        previous: Option<&mut Canvas>,
        next: &mut Canvas,
        hide_notify: HideNotify,
        show_notify: ShowNotify,
    ) -> (r: Result<(), E>) where
        HideNotify: FnOnce(&mut Canvas) -> Result<(), E>,
        ShowNotify: FnOnce(&mut Canvas) -> Result<(), E>,

        requires
            forall|c: &mut Canvas| hide_notify.requires((c,)),
            forall|c: &mut Canvas| show_notify.requires((c,)),
        ensures
            final(self)@.host_ops == old(self)@.host_ops,
            final(self)@.vibration_supported == old(self)@.vibration_supported,
            r is Ok ==> final(self)@.has_current,
            !final(self)@.has_current ==> r is Err && *final(next) == *old(next),
            previous is None ==> final(self)@.has_current,
    {
        if let Some(previous) = previous {
            previous.hide_notify();
            self.has_current = false;
            match hide_notify(previous) {
                Ok(()) => {},
                Err(e) => return Err(e),
            }
        }
        next.show_notify();
        self.has_current = true;
        show_notify(next)
    }

    /// Removes the current canvas and hides it.
    pub fn clear_current(&mut self, current: &mut Canvas)
        ensures
            final(self)@ == (DisplayView { has_current: false, ..old(self)@ }),
            final(current)@ == (CanvasView { shown: false, ..old(current)@ }),
    {
        current.hide_notify();
        self.has_current = false;
    }

    /// Remove the current Canvas, then dispatch its protected subclass
    /// `hideNotify` callback.
    ///
    /// The visibility mutation is intentionally retained if the callback
    /// fails: by callback time the Canvas has already ceased to be shown.
    pub fn clear_current_notifying<HideNotify, E>(&mut self, current: &mut Canvas, hide_notify: HideNotify)
        -> (r: Result<(), E>) where HideNotify: FnOnce(&mut Canvas) -> Result<(), E>
        requires
            forall|c: &mut Canvas| hide_notify.requires((c,)),
        ensures
            final(self)@ == (DisplayView { has_current: false, ..old(self)@ }),
    {
        current.hide_notify();
        self.has_current = false;
        hide_notify(current)
    }

    /// `Display.vibrate(duration)`. Unsupported devices return `false` without
    /// emitting a host operation; negative durations throw
    /// `IllegalArgumentException`. Duration zero is retained as the MIDP
    /// request to stop an active vibration.
    pub fn vibrate(&mut self, duration_ms: i32) -> (r: Result<bool, JavaError>)
        ensures
            duration_ms < 0 ==> r == Err::<bool, JavaError>(
                JavaError::IllegalArgument("negative vibration duration"),
            ) && final(self)@ == old(self)@,
            duration_ms >= 0 ==> r == Ok::<bool, JavaError>(old(self)@.vibration_supported),
            duration_ms >= 0 && old(self)@.vibration_supported ==> final(self)@ == (DisplayView {
                host_ops: old(self)@.host_ops.push(HostDisplayOp::Vibrate { duration_ms }),
                ..old(self)@
            }),
            duration_ms >= 0 && !old(self)@.vibration_supported ==> final(self)@ == old(self)@,
    {
        if duration_ms < 0 {
            return Err(JavaError::IllegalArgument("negative vibration duration"));
        }
        if self.vibration_supported {
            self.host_ops.push(HostDisplayOp::Vibrate { duration_ms });
            Ok(true)
        } else {
            Ok(false)
        }
    }

    pub fn host_ops(&self) -> (r: &[HostDisplayOp])
        ensures
            r@ == self@.host_ops,
    {
        self.host_ops.as_slice()
    }

    /// Hands the pending host requests over, oldest first, and forgets them.
    pub fn drain_host_ops(&mut self) -> (r: Vec<HostDisplayOp>)
        ensures
            r@ == old(self)@.host_ops,
            final(self)@ == (DisplayView { host_ops: Seq::empty(), ..old(self)@ }),
    {
        let mut drained = Vec::new();
        std::mem::swap(&mut drained, &mut self.host_ops);
        proof {
            assert(self@.host_ops =~= Seq::<HostDisplayOp>::empty());
        }
        drained
    }
}

/// What polling a canvas in state `v` yields, and the state after it.
pub open spec fn poll_spec(v: CanvasView) -> (Option<CanvasEvent>, CanvasView) {
    if v.repaint_owed {
        (Some(CanvasEvent::Paint), CanvasView { repaint_owed: false, ..v })
    } else if v.input.len() == 0 {
        (None, v)
    } else {
        (Some(v.input[0]), CanvasView { input: v.input.drop_first(), ..v })
    }
}

/// `v` after `repaint()`.
pub open spec fn with_repaint(v: CanvasView) -> CanvasView {
    CanvasView { repaint_owed: true, ..v }
}

/// `v` after one more input callback is queued.
pub open spec fn with_input(v: CanvasView, event: CanvasEvent) -> CanvasView {
    CanvasView { input: v.input.push(event), ..v }
}

/// The serial queue's promises: repeated repaint requests coalesce into one
/// paint, and an owed paint is served before input that arrived while it was
/// owed, which then follows unchanged.
pub proof fn lemma_paint_serialization(v: CanvasView, event: CanvasEvent)
    ensures
        poll_spec(with_repaint(with_repaint(v))) == poll_spec(with_repaint(v)),
        poll_spec(with_input(with_repaint(v), event)).0 == Some(CanvasEvent::Paint),
        !v.repaint_owed && v.input.len() == 0 ==> poll_spec(poll_spec(with_input(with_repaint(v), event)).1).0
            == Some(event),
{
    assert(with_repaint(with_repaint(v)) == with_repaint(v));
}

} // verus!
