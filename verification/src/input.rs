//! Input forwarding: the client's keyboard and mouse events become the key,
//! pointer and scroll events to post on the Mac.
//!
//! Scancodes are PS/2 Set 1 and map to macOS virtual keycodes of the US ANSI
//! layout. Which event to post is decided here; where the pointer lands on the
//! screen is a matter of display geometry and stays with the caller.

use vstd::prelude::*;

verus! {

/// Marks a scancode without a macOS key. It is outside the range of keycodes.
pub const NONE: u16 = 0xFFFF;

/// Two presses further apart in time than this are not one multi-click, in
/// nanoseconds. It is the system's default double-click interval.
pub const DOUBLE_CLICK_INTERVAL_NS: u64 = 500_000_000;

/// The macOS key for a plain scancode.
pub open spec fn normal_keycode(scancode: u8) -> u16 {
    match scancode {
        0x01 => 0x35,  // Esc
        0x02 => 0x12,  // 1
        0x03 => 0x13,  // 2
        0x04 => 0x14,  // 3
        0x05 => 0x15,  // 4
        0x06 => 0x17,  // 5
        0x07 => 0x16,  // 6
        0x08 => 0x1A,  // 7
        0x09 => 0x1C,  // 8
        0x0A => 0x19,  // 9
        0x0B => 0x1D,  // 0
        0x0C => 0x1B,  // -
        0x0D => 0x18,  // =
        0x0E => 0x33,  // Backspace
        0x0F => 0x30,  // Tab
        0x10 => 0x0C,  // Q
        0x11 => 0x0D,  // W
        0x12 => 0x0E,  // E
        0x13 => 0x0F,  // R
        0x14 => 0x11,  // T
        0x15 => 0x10,  // Y
        0x16 => 0x20,  // U
        0x17 => 0x22,  // I
        0x18 => 0x1F,  // O
        0x19 => 0x23,  // P
        0x1A => 0x21,  // [
        0x1B => 0x1E,  // ]
        0x1C => 0x24,  // Enter
        0x1D => 0x3B,  // Left Ctrl
        0x1E => 0x00,  // A
        0x1F => 0x01,  // S
        0x20 => 0x02,  // D
        0x21 => 0x03,  // F
        0x22 => 0x05,  // G
        0x23 => 0x04,  // H
        0x24 => 0x26,  // J
        0x25 => 0x28,  // K
        0x26 => 0x25,  // L
        0x27 => 0x29,  // ;
        0x28 => 0x27,  // '
        0x29 => 0x32,  // `
        0x2A => 0x38,  // Left Shift
        0x2B => 0x2A,  // backslash
        0x2C => 0x06,  // Z
        0x2D => 0x07,  // X
        0x2E => 0x08,  // C
        0x2F => 0x09,  // V
        0x30 => 0x0B,  // B
        0x31 => 0x2D,  // N
        0x32 => 0x2E,  // M
        0x33 => 0x2B,  // ,
        0x34 => 0x2F,  // .
        0x35 => 0x2C,  // /
        0x36 => 0x3C,  // Right Shift
        0x37 => 0x43,  // numpad *
        0x38 => 0x3A,  // Left Alt (Option)
        0x39 => 0x31,  // Space
        0x3A => 0x39,  // CapsLock
        0x3B => 0x7A,  // F1
        0x3C => 0x78,  // F2
        0x3D => 0x63,  // F3
        0x3E => 0x76,  // F4
        0x3F => 0x60,  // F5
        0x40 => 0x61,  // F6
        0x41 => 0x62,  // F7
        0x42 => 0x64,  // F8
        0x43 => 0x65,  // F9
        0x44 => 0x6D,  // F10
        0x47 => 0x59,  // numpad 7
        0x48 => 0x5B,  // numpad 8
        0x49 => 0x5C,  // numpad 9
        0x4A => 0x4E,  // numpad -
        0x4B => 0x56,  // numpad 4
        0x4C => 0x57,  // numpad 5
        0x4D => 0x58,  // numpad 6
        0x4E => 0x45,  // numpad +
        0x4F => 0x53,  // numpad 1
        0x50 => 0x54,  // numpad 2
        0x51 => 0x55,  // numpad 3
        0x52 => 0x52,  // numpad 0
        0x53 => 0x41,  // numpad .
        0x57 => 0x67,  // F11
        0x58 => 0x6F,  // F12
        _ => NONE,
    }
}

/// The macOS key for a scancode with the extended prefix.
pub open spec fn extended_keycode(scancode: u8) -> u16 {
    match scancode {
        0x1C => 0x4C,  // numpad Enter to kVK_ANSI_KeypadEnter
        0x1D => 0x3E,  // right Ctrl to kVK_RightControl
        0x35 => 0x4B,  // numpad / to kVK_ANSI_KeypadDivide
        0x38 => 0x3D,  // right Alt (Option) to kVK_RightOption
        0x47 => 0x73,  // Home to kVK_Home
        0x48 => 0x7E,  // Up arrow
        0x49 => 0x74,  // PageUp
        0x4B => 0x7B,  // Left arrow
        0x4D => 0x7C,  // Right arrow
        0x4F => 0x77,  // End
        0x50 => 0x7D,  // Down arrow
        0x51 => 0x79,  // PageDown
        0x52 => 0x72,  // Insert (no macOS equivalent - map to Help)
        0x53 => 0x75,  // Delete (forward delete)
        0x5B => 0x37,  // left GUI / Windows to kVK_Command
        0x5C => 0x36,  // right GUI to kVK_RightCommand
        _ => NONE,
    }
}

/// The macOS key for a scancode, if there is one.
pub open spec fn keycode(scancode: u8, extended: bool) -> Option<u16> {
    let entry = if extended {
        extended_keycode(scancode)
    } else {
        normal_keycode(scancode)
    };
    if entry == NONE {
        None
    } else {
        Some(entry)
    }
}

/// The table of plain scancodes.
#[verifier::rlimit(60)]
pub fn build_scancode_normal() -> (t: [u16; 256])
    ensures
        forall|code: u8| #[trigger] t@[code as int] == normal_keycode(code),
{
    let mut t: [u16; 256] = [NONE; 256];
    t[0x01] = 0x35;
    t[0x02] = 0x12;
    t[0x03] = 0x13;
    t[0x04] = 0x14;
    t[0x05] = 0x15;
    t[0x06] = 0x17;
    t[0x07] = 0x16;
    t[0x08] = 0x1A;
    t[0x09] = 0x1C;
    t[0x0A] = 0x19;
    t[0x0B] = 0x1D;
    t[0x0C] = 0x1B;
    t[0x0D] = 0x18;
    t[0x0E] = 0x33;
    t[0x0F] = 0x30;
    t[0x10] = 0x0C;
    t[0x11] = 0x0D;
    t[0x12] = 0x0E;
    t[0x13] = 0x0F;
    t[0x14] = 0x11;
    t[0x15] = 0x10;
    t[0x16] = 0x20;
    t[0x17] = 0x22;
    t[0x18] = 0x1F;
    t[0x19] = 0x23;
    t[0x1A] = 0x21;
    t[0x1B] = 0x1E;
    t[0x1C] = 0x24;
    t[0x1D] = 0x3B;
    t[0x1E] = 0x00;
    t[0x1F] = 0x01;
    t[0x20] = 0x02;
    t[0x21] = 0x03;
    t[0x22] = 0x05;
    t[0x23] = 0x04;
    t[0x24] = 0x26;
    t[0x25] = 0x28;
    t[0x26] = 0x25;
    t[0x27] = 0x29;
    t[0x28] = 0x27;
    t[0x29] = 0x32;
    t[0x2A] = 0x38;
    t[0x2B] = 0x2A;
    t[0x2C] = 0x06;
    t[0x2D] = 0x07;
    t[0x2E] = 0x08;
    t[0x2F] = 0x09;
    t[0x30] = 0x0B;
    t[0x31] = 0x2D;
    t[0x32] = 0x2E;
    t[0x33] = 0x2B;
    t[0x34] = 0x2F;
    t[0x35] = 0x2C;
    t[0x36] = 0x3C;
    t[0x37] = 0x43;
    t[0x38] = 0x3A;
    t[0x39] = 0x31;
    t[0x3A] = 0x39;
    t[0x3B] = 0x7A;
    t[0x3C] = 0x78;
    t[0x3D] = 0x63;
    t[0x3E] = 0x76;
    t[0x3F] = 0x60;
    t[0x40] = 0x61;
    t[0x41] = 0x62;
    t[0x42] = 0x64;
    t[0x43] = 0x65;
    t[0x44] = 0x6D;
    t[0x47] = 0x59;
    t[0x48] = 0x5B;
    t[0x49] = 0x5C;
    t[0x4A] = 0x4E;
    t[0x4B] = 0x56;
    t[0x4C] = 0x57;
    t[0x4D] = 0x58;
    t[0x4E] = 0x45;
    t[0x4F] = 0x53;
    t[0x50] = 0x54;
    t[0x51] = 0x55;
    t[0x52] = 0x52;
    t[0x53] = 0x41;
    t[0x57] = 0x67;
    t[0x58] = 0x6F;
    t
}

/// The table of scancodes with the extended prefix.
pub fn build_scancode_extended() -> (t: [u16; 256])
    ensures
        forall|code: u8| #[trigger] t@[code as int] == extended_keycode(code),
{
    let mut t: [u16; 256] = [NONE; 256];
    t[0x1C] = 0x4C;
    t[0x1D] = 0x3E;
    t[0x35] = 0x4B;
    t[0x38] = 0x3D;
    t[0x47] = 0x73;
    t[0x48] = 0x7E;
    t[0x49] = 0x74;
    t[0x4B] = 0x7B;
    t[0x4D] = 0x7C;
    t[0x4F] = 0x77;
    t[0x50] = 0x7D;
    t[0x51] = 0x79;
    t[0x52] = 0x72;
    t[0x53] = 0x75;
    t[0x5B] = 0x37;
    t[0x5C] = 0x36;
    t
}

/// The modifiers in force.
#[derive(Debug, Clone, Copy, PartialEq, Eq, Structural)]
pub struct Modifiers {
    pub shift: bool,
    pub control: bool,
    pub alternate: bool,
    pub command: bool,
    pub alpha_shift: bool,
}

/// One modifier.
#[derive(Debug, Clone, Copy, PartialEq, Eq, Structural)]
pub enum Modifier {
    Shift,
    Control,
    Alternate,
    Command,
    AlphaShift,
}

impl Modifiers {
    /// Whether a modifier is in force.
    pub open spec fn held(self, m: Modifier) -> bool {
        match m {
            Modifier::Shift => self.shift,
            Modifier::Control => self.control,
            Modifier::Alternate => self.alternate,
            Modifier::Command => self.command,
            Modifier::AlphaShift => self.alpha_shift,
        }
    }
}

/// The modifier that a key stands for. The keys of both sides stand for one.
pub open spec fn modifier_of(vk: u16) -> Option<Modifier> {
    match vk {
        0x38 | 0x3C => Some(Modifier::Shift),
        0x3B | 0x3E => Some(Modifier::Control),
        0x3A | 0x3D => Some(Modifier::Alternate),
        0x37 | 0x36 => Some(Modifier::Command),
        0x39 => Some(Modifier::AlphaShift),
        _ => None,
    }
}

/// The modifier that a key stands for.
pub fn modifier_flag(vk: u16) -> (r: Option<Modifier>)
    ensures
        r == modifier_of(vk),
{
    match vk {
        0x38 | 0x3C => Some(Modifier::Shift),
        0x3B | 0x3E => Some(Modifier::Control),
        0x3A | 0x3D => Some(Modifier::Alternate),
        0x37 | 0x36 => Some(Modifier::Command),
        0x39 => Some(Modifier::AlphaShift),
        _ => None,
    }
}

/// The modifier keys that are held, each side by itself, and whether caps lock is
/// on.
#[derive(Debug, Clone, Copy, PartialEq, Eq, Structural)]
pub struct ModifierKeys {
    pub left_shift: bool,
    pub right_shift: bool,
    pub left_control: bool,
    pub right_control: bool,
    pub left_alternate: bool,
    pub right_alternate: bool,
    pub left_command: bool,
    pub right_command: bool,
    pub caps_lock: bool,
}

/// What a set bit adds to a number.
pub open spec fn bit(set: bool, value: u64) -> int {
    if set {
        value as int
    } else {
        0
    }
}

fn bit_value(set: bool, value: u64) -> (r: u64)
    ensures
        r == bit(set, value),
{
    if set {
        value
    } else {
        0
    }
}

impl ModifierKeys {
    /// Whether the key `vk` is held; of caps lock, whether it is on.
    pub open spec fn holds(self, vk: u16) -> bool {
        match vk {
            0x38 => self.left_shift,
            0x3C => self.right_shift,
            0x3B => self.left_control,
            0x3E => self.right_control,
            0x3A => self.left_alternate,
            0x3D => self.right_alternate,
            0x37 => self.left_command,
            0x36 => self.right_command,
            0x39 => self.caps_lock,
            _ => false,
        }
    }

    /// The keys after `vk` went down or up. Caps lock turns over when its key goes
    /// down, and stays as it is when the key goes up.
    pub open spec fn after(self, vk: u16, down: bool) -> ModifierKeys {
        match vk {
            0x38 => ModifierKeys { left_shift: down, ..self },
            0x3C => ModifierKeys { right_shift: down, ..self },
            0x3B => ModifierKeys { left_control: down, ..self },
            0x3E => ModifierKeys { right_control: down, ..self },
            0x3A => ModifierKeys { left_alternate: down, ..self },
            0x3D => ModifierKeys { right_alternate: down, ..self },
            0x37 => ModifierKeys { left_command: down, ..self },
            0x36 => ModifierKeys { right_command: down, ..self },
            0x39 => ModifierKeys { caps_lock: self.caps_lock != down, ..self },
            _ => self,
        }
    }

    /// The modifiers in force: each is while either of its keys is held.
    pub open spec fn in_force(self) -> Modifiers {
        Modifiers {
            shift: self.left_shift || self.right_shift,
            control: self.left_control || self.right_control,
            alternate: self.left_alternate || self.right_alternate,
            command: self.left_command || self.right_command,
            alpha_shift: self.caps_lock,
        }
    }

    /// The modifiers in force.
    pub fn flags(&self) -> (r: Modifiers)
        ensures
            r == self.in_force(),
    {
        Modifiers {
            shift: self.left_shift || self.right_shift,
            control: self.left_control || self.right_control,
            alternate: self.left_alternate || self.right_alternate,
            command: self.left_command || self.right_command,
            alpha_shift: self.caps_lock,
        }
    }

    /// The bits by which an event tells the sides apart, one for each key.
    pub open spec fn side_bits(self) -> int {
        bit(self.left_control, 0x1) + bit(self.left_shift, 0x2) + bit(self.right_shift, 0x4) + bit(
            self.left_command,
            0x8,
        ) + bit(self.right_command, 0x10) + bit(self.left_alternate, 0x20) + bit(
            self.right_alternate,
            0x40,
        ) + bit(self.right_control, 0x2000)
    }

    /// The bits by which an event tells the sides apart, one for each key.
    pub fn device_bits(&self) -> (r: u64)
        ensures
            r == self.side_bits(),
    {
        bit_value(self.left_control, 0x1) + bit_value(self.left_shift, 0x2) + bit_value(
            self.right_shift,
            0x4,
        ) + bit_value(self.left_command, 0x8) + bit_value(self.right_command, 0x10) + bit_value(
            self.left_alternate,
            0x20,
        ) + bit_value(self.right_alternate, 0x40) + bit_value(self.right_control, 0x2000)
    }

    fn press_or_release(&mut self, vk: u16, down: bool)
        ensures
            *final(self) == old(self).after(vk, down),
    {
        match vk {
            0x38 => {
                self.left_shift = down;
            },
            0x3C => {
                self.right_shift = down;
            },
            0x3B => {
                self.left_control = down;
            },
            0x3E => {
                self.right_control = down;
            },
            0x3A => {
                self.left_alternate = down;
            },
            0x3D => {
                self.right_alternate = down;
            },
            0x37 => {
                self.left_command = down;
            },
            0x36 => {
                self.right_command = down;
            },
            0x39 => {
                self.caps_lock = self.caps_lock != down;
            },
            _ => {},
        }
    }
}

/// The key on the other side that stands for the same modifier, if there is one.
pub open spec fn other_side(vk: u16) -> Option<u16> {
    match vk {
        0x38 => Some(0x3C),
        0x3C => Some(0x38),
        0x3B => Some(0x3E),
        0x3E => Some(0x3B),
        0x3A => Some(0x3D),
        0x3D => Some(0x3A),
        0x37 => Some(0x36),
        0x36 => Some(0x37),
        _ => None,
    }
}

/// A keyboard event from the client.
#[derive(Debug, Clone, Copy, PartialEq, Eq)]
pub enum KeyboardEvent {
    Pressed { code: u8, extended: bool },
    Released { code: u8, extended: bool },
    UnicodePressed(u16),
    UnicodeReleased(u16),
    /// The client's lock keys. Nothing follows from it.
    Synchronize,
}

/// A mouse event from the client.
#[allow(inconsistent_fields)]
#[derive(Debug, Clone, Copy, PartialEq, Eq)]
pub enum MouseEvent {
    Move { x: u16, y: u16 },
    LeftPressed,
    LeftReleased,
    RightPressed,
    RightReleased,
    MiddlePressed,
    MiddleReleased,
    Button4Pressed,
    Button4Released,
    Button5Pressed,
    Button5Released,
    VerticalScroll { value: i16 },
    Scroll { x: i32, y: i32 },
    RelMove { x: i32, y: i32 },
}

/// A mouse button that the Mac knows.
#[derive(Debug, Clone, Copy, PartialEq, Eq, Structural)]
pub enum MouseButton {
    Left,
    Right,
    Center,
}

/// What moving the pointer means: which button drags, if any does.
#[derive(Debug, Clone, Copy, PartialEq, Eq, Structural)]
pub enum MoveKind {
    Moved,
    LeftDragged,
    RightDragged,
    OtherDragged,
}

/// An event to post on the Mac.
#[derive(Debug, Clone, Copy, PartialEq, Eq)]
pub enum InputAction {
    /// A key goes down or up while these modifiers are in force and these keys
    /// held.
    Key { vk: u16, down: bool, flags: Modifiers, keys: ModifierKeys },
    /// A UTF-16 code unit is typed.
    Unicode { unit: u16 },
    /// The pointer goes to this place of the client's desktop.
    Move { x: u16, y: u16, kind: MoveKind, button: MouseButton },
    /// A button goes down or up where the pointer is.
    Button { button: MouseButton, down: bool, click_count: i64 },
    /// Lines to scroll by.
    Scroll { vertical: i32, horizontal: i32 },
}

/// The last press of a button.
#[derive(Debug, Clone, Copy, PartialEq, Eq, Structural)]
pub struct ClickState {
    pub time_ns: u64,
    pub count: i64,
}

/// How many lines a wheel rotation scrolls by: forty units to a line, rounded
/// toward zero, at most ten lines.
pub open spec fn scroll_lines(rotation: i32) -> int {
    let lines = if rotation >= 0 {
        rotation / 40
    } else {
        -((-rotation) / 40)
    };
    if lines < -10 {
        -10
    } else if lines > 10 {
        10
    } else {
        lines
    }
}

fn wheel_lines(rotation: i32) -> (r: i32)
    ensures
        r == scroll_lines(rotation),
{
    let lines: i64 = if rotation >= 0 {
        rotation as i64 / 40
    } else {
        -((-(rotation as i64)) / 40)
    };
    if lines < -10 {
        -10
    } else if lines > 10 {
        10
    } else {
        lines as i32
    }
}

/// The count that a press reaches: one more than the last press of that button
/// where it came soon enough after it and near enough to it, else one.
pub open spec fn press_count(last: Option<ClickState>, now_ns: u64, near: bool) -> i64 {
    match last {
        Some(prev) => if now_ns - prev.time_ns <= DOUBLE_CLICK_INTERVAL_NS && near {
            prev.count.wrapping_add(1)
        } else {
            1
        },
        None => 1,
    }
}

/// The state of the client's keyboard and mouse.
pub struct MacInputHandler {
    pub desktop_width: u16,
    pub desktop_height: u16,
    /// The display that events go to; `None` is the primary one.
    pub target_display_id: Option<u32>,
    pub keys: ModifierKeys,
    pub left_down: bool,
    pub right_down: bool,
    pub middle_down: bool,
    pub click_left: Option<ClickState>,
    pub click_right: Option<ClickState>,
    pub click_middle: Option<ClickState>,
    pub normal: [u16; 256],
    pub extended: [u16; 256],
}

impl MacInputHandler {
    /// The scancode tables are those of the US ANSI layout.
    pub open spec fn wf(self) -> bool {
        &&& forall|code: u8| #[trigger] self.normal@[code as int] == normal_keycode(code)
        &&& forall|code: u8| #[trigger] self.extended@[code as int] == extended_keycode(code)
    }

    /// Everything but the modifiers is as in `other`.
    pub open spec fn same_mouse(self, other: Self) -> bool {
        &&& self.left_down == other.left_down
        &&& self.right_down == other.right_down
        &&& self.middle_down == other.middle_down
        &&& self.click_left == other.click_left
        &&& self.click_right == other.click_right
        &&& self.click_middle == other.click_middle
    }

    /// The geometry is as in `other`.
    pub open spec fn same_target(self, other: Self) -> bool {
        &&& self.desktop_width == other.desktop_width
        &&& self.desktop_height == other.desktop_height
        &&& self.target_display_id == other.target_display_id
    }

    /// Whether a button is held.
    pub open spec fn is_down(self, button: MouseButton) -> bool {
        match button {
            MouseButton::Left => self.left_down,
            MouseButton::Right => self.right_down,
            MouseButton::Center => self.middle_down,
        }
    }

    /// The last press of a button.
    pub open spec fn last_press(self, button: MouseButton) -> Option<ClickState> {
        match button {
            MouseButton::Left => self.click_left,
            MouseButton::Right => self.click_right,
            MouseButton::Center => self.click_middle,
        }
    }

    /// What a move is while these buttons are held.
    pub open spec fn move_kind(self) -> MoveKind {
        if self.left_down {
            MoveKind::LeftDragged
        } else if self.right_down {
            MoveKind::RightDragged
        } else if self.middle_down {
            MoveKind::OtherDragged
        } else {
            MoveKind::Moved
        }
    }

    /// The button that a move names while these buttons are held.
    pub open spec fn move_button(self) -> MouseButton {
        if self.middle_down {
            MouseButton::Center
        } else if self.right_down {
            MouseButton::Right
        } else {
            MouseButton::Left
        }
    }

    /// Nothing held, nothing clicked.
    pub fn new(desktop_width: u16, desktop_height: u16, target_display_id: Option<u32>) -> (r: Self)
        ensures
            r.wf(),
            r.desktop_width == desktop_width,
            r.desktop_height == desktop_height,
            r.target_display_id == target_display_id,
            forall|vk: u16| !r.keys.holds(vk),
            forall|b: MouseButton| !r.is_down(b) && r.last_press(b) is None,
    {
        MacInputHandler {
            desktop_width,
            desktop_height,
            target_display_id,
            keys: ModifierKeys {
                left_shift: false,
                right_shift: false,
                left_control: false,
                right_control: false,
                left_alternate: false,
                right_alternate: false,
                left_command: false,
                right_command: false,
                caps_lock: false,
            },
            left_down: false,
            right_down: false,
            middle_down: false,
            click_left: None,
            click_right: None,
            click_middle: None,
            normal: build_scancode_normal(),
            extended: build_scancode_extended(),
        }
    }

    /// The macOS key for a scancode, if there is one.
    pub fn scancode_to_cgkeycode(&self, scancode: u8, extended: bool) -> (r: Option<u16>)
        requires
            self.wf(),
        ensures
            r == keycode(scancode, extended),
    {
        let entry: u16 = if extended {
            self.extended[scancode as usize]
        } else {
            self.normal[scancode as usize]
        };
        if entry == NONE {
            None
        } else {
            Some(entry)
        }
    }

    /// A key goes down or up. A modifier key changes what is held before the key
    /// event is made; a key without a macOS equivalent does nothing.
    pub fn key(&mut self, scancode: u8, extended: bool, down: bool) -> (r: Option<InputAction>)
        requires
            old(self).wf(),
        ensures
            final(self).wf(),
            final(self).same_mouse(*old(self)),
            final(self).same_target(*old(self)),
            (r, final(self).keys) == key_effect(old(self).keys, scancode, extended, down),
    {
        match self.scancode_to_cgkeycode(scancode, extended) {
            None => None,
            Some(vk) => {
                self.keys.press_or_release(vk, down);
                Some(InputAction::Key { vk, down, flags: self.keys.flags(), keys: self.keys })
            },
        }
    }

    /// A keyboard event. Typed text has no release on the Mac, so only the press
    /// of a code unit is posted.
    pub fn keyboard(&mut self, event: KeyboardEvent) -> (r: Option<InputAction>)
        requires
            old(self).wf(),
        ensures
            final(self).wf(),
            final(self).same_mouse(*old(self)),
            final(self).same_target(*old(self)),
            (r, final(self).keys) == keyboard_effect(old(self).keys, event),
    {
        match event {
            KeyboardEvent::Pressed { code, extended } => self.key(code, extended, true),
            KeyboardEvent::Released { code, extended } => self.key(code, extended, false),
            KeyboardEvent::UnicodePressed(unit) => Some(InputAction::Unicode { unit }),
            KeyboardEvent::UnicodeReleased(_) => None,
            KeyboardEvent::Synchronize => None,
        }
    }

    /// A button goes down or up. `near` says whether the pointer is within the
    /// click slop of where that button was last pressed.
    pub fn button(&mut self, button: MouseButton, down: bool, now_ns: u64, near: bool) -> (r:
        InputAction)
        ensures
            old(self).wf() ==> final(self).wf(),
            final(self).same_target(*old(self)),
            final(self).keys == old(self).keys,
            final(self).is_down(button) == down,
            forall|b: MouseButton|
                b != button ==> final(self).is_down(b) == old(self).is_down(b)
                    && final(self).last_press(b) == old(self).last_press(b),
            r == (InputAction::Button {
                button,
                down,
                click_count: button_count(old(self).last_press(button), down, now_ns, near),
            }),
            final(self).last_press(button) == press_after(
                old(self).last_press(button),
                down,
                now_ns,
                near,
            ),
    {
        let last: Option<ClickState> = match button {
            MouseButton::Left => self.click_left,
            MouseButton::Right => self.click_right,
            MouseButton::Center => self.click_middle,
        };
        let click_count: i64 = if down {
            match last {
                Some(prev) => {
                    if now_ns.saturating_sub(prev.time_ns) <= DOUBLE_CLICK_INTERVAL_NS && near {
                        prev.count.wrapping_add(1)
                    } else {
                        1
                    }
                },
                None => 1,
            }
        } else {
            match last {
                Some(prev) => prev.count,
                None => 1,
            }
        };
        let kept: Option<ClickState> = if down {
            Some(ClickState { time_ns: now_ns, count: click_count })
        } else {
            last
        };
        match button {
            MouseButton::Left => {
                self.left_down = down;
                self.click_left = kept;
            },
            MouseButton::Right => {
                self.right_down = down;
                self.click_right = kept;
            },
            MouseButton::Center => {
                self.middle_down = down;
                self.click_middle = kept;
            },
        }
        InputAction::Button { button, down, click_count }
    }

    /// A mouse event. The two extra buttons and relative moves are not forwarded.
    /// `near` says whether the pointer is within the click slop of where the
    /// button in question was last pressed.
    pub fn mouse(&mut self, event: MouseEvent, now_ns: u64, near: bool) -> (r: Option<InputAction>)
        ensures
            old(self).wf() ==> final(self).wf(),
            final(self).same_target(*old(self)),
            final(self).keys == old(self).keys,
            match button_event(event) {
                Some((button, down)) => {
                    &&& r == Some(
                        InputAction::Button {
                            button,
                            down,
                            click_count: button_count(
                                old(self).last_press(button),
                                down,
                                now_ns,
                                near,
                            ),
                        },
                    )
                    &&& final(self).is_down(button) == down
                    &&& final(self).last_press(button) == press_after(
                        old(self).last_press(button),
                        down,
                        now_ns,
                        near,
                    )
                    &&& forall|b: MouseButton|
                        b != button ==> final(self).is_down(b) == old(self).is_down(b)
                            && final(self).last_press(b) == old(self).last_press(b)
                },
                None => {
                    &&& final(self).same_mouse(*old(self))
                    &&& r == pointer_action(*old(self), event)
                },
            },
    {
        match event {
            MouseEvent::Move { x, y } => {
                let kind = if self.left_down {
                    MoveKind::LeftDragged
                } else if self.right_down {
                    MoveKind::RightDragged
                } else if self.middle_down {
                    MoveKind::OtherDragged
                } else {
                    MoveKind::Moved
                };
                let button = if self.middle_down {
                    MouseButton::Center
                } else if self.right_down {
                    MouseButton::Right
                } else {
                    MouseButton::Left
                };
                Some(InputAction::Move { x, y, kind, button })
            },
            MouseEvent::LeftPressed => Some(self.button(MouseButton::Left, true, now_ns, near)),
            MouseEvent::LeftReleased => Some(self.button(MouseButton::Left, false, now_ns, near)),
            MouseEvent::RightPressed => Some(self.button(MouseButton::Right, true, now_ns, near)),
            MouseEvent::RightReleased => Some(self.button(MouseButton::Right, false, now_ns, near)),
            MouseEvent::MiddlePressed => Some(self.button(MouseButton::Center, true, now_ns, near)),
            MouseEvent::MiddleReleased => Some(
                self.button(MouseButton::Center, false, now_ns, near),
            ),
            MouseEvent::VerticalScroll { value } => Some(
                InputAction::Scroll { vertical: wheel_lines(value as i32), horizontal: 0 },
            ),
            MouseEvent::Scroll { x, y } => Some(
                InputAction::Scroll { vertical: wheel_lines(y), horizontal: wheel_lines(x) },
            ),
            MouseEvent::Button4Pressed => None,
            MouseEvent::Button4Released => None,
            MouseEvent::Button5Pressed => None,
            MouseEvent::Button5Released => None,
            MouseEvent::RelMove { x: _, y: _ } => None,
        }
    }
}

/// What a mouse event that is none of a button posts.
pub open spec fn pointer_action(h: MacInputHandler, event: MouseEvent) -> Option<InputAction> {
    match event {
        MouseEvent::Move { x, y } => Some(
            InputAction::Move { x, y, kind: h.move_kind(), button: h.move_button() },
        ),
        MouseEvent::VerticalScroll { value } => Some(
            InputAction::Scroll {
                vertical: scroll_lines(value as i32) as i32,
                horizontal: 0,
            },
        ),
        MouseEvent::Scroll { x, y } => Some(
            InputAction::Scroll {
                vertical: scroll_lines(y) as i32,
                horizontal: scroll_lines(x) as i32,
            },
        ),
        _ => None,
    }
}

/// The button that an event presses or releases.
pub open spec fn button_event(event: MouseEvent) -> Option<(MouseButton, bool)> {
    match event {
        MouseEvent::LeftPressed => Some((MouseButton::Left, true)),
        MouseEvent::LeftReleased => Some((MouseButton::Left, false)),
        MouseEvent::RightPressed => Some((MouseButton::Right, true)),
        MouseEvent::RightReleased => Some((MouseButton::Right, false)),
        MouseEvent::MiddlePressed => Some((MouseButton::Center, true)),
        MouseEvent::MiddleReleased => Some((MouseButton::Center, false)),
        _ => None,
    }
}

/// The click count of a button event: a release repeats the count of its press.
pub open spec fn button_count(
    last: Option<ClickState>,
    down: bool,
    now_ns: u64,
    near: bool,
) -> i64 {
    if down {
        press_count(last, now_ns, near)
    } else {
        match last {
            Some(prev) => prev.count,
            None => 1,
        }
    }
}

/// The modifier keys after a key went down or up.
pub open spec fn keys_after_key(
    keys: ModifierKeys,
    scancode: u8,
    extended: bool,
    down: bool,
) -> ModifierKeys {
    match keycode(scancode, extended) {
        Some(vk) => keys.after(vk, down),
        None => keys,
    }
}

/// The modifiers in force after a key went down or up.
pub open spec fn flags_after_key(
    keys: ModifierKeys,
    scancode: u8,
    extended: bool,
    down: bool,
) -> Modifiers {
    keys_after_key(keys, scancode, extended, down).in_force()
}

/// What a key going down or up posts, and the modifier keys afterwards.
pub open spec fn key_effect(keys: ModifierKeys, scancode: u8, extended: bool, down: bool) -> (
    Option<InputAction>,
    ModifierKeys,
) {
    let after = keys_after_key(keys, scancode, extended, down);
    (
        match keycode(scancode, extended) {
            Some(vk) => Some(
                InputAction::Key {
                    vk,
                    down,
                    flags: flags_after_key(keys, scancode, extended, down),
                    keys: after,
                },
            ),
            None => None,
        },
        after,
    )
}

/// What an event of the keyboard posts, and the modifier keys afterwards.
pub open spec fn keyboard_effect(keys: ModifierKeys, event: KeyboardEvent) -> (
    Option<InputAction>,
    ModifierKeys,
) {
    match event {
        KeyboardEvent::Pressed { code, extended } => key_effect(keys, code, extended, true),
        KeyboardEvent::Released { code, extended } => key_effect(keys, code, extended, false),
        KeyboardEvent::UnicodePressed(unit) => (Some(InputAction::Unicode { unit }), keys),
        KeyboardEvent::UnicodeReleased(_) => (None, keys),
        KeyboardEvent::Synchronize => (None, keys),
    }
}

/// The press of a button that is remembered after one of its events.
pub open spec fn press_after(
    last: Option<ClickState>,
    down: bool,
    now_ns: u64,
    near: bool,
) -> Option<ClickState> {
    if down {
        Some(ClickState { time_ns: now_ns, count: press_count(last, now_ns, near) })
    } else {
        last
    }
}

/// A modifier is in force while either of its keys is held: a press puts it in
/// force, and a release ends it only if the key on the other side is not held. No
/// other modifier is touched, and a key that is no modifier touches none.
pub proof fn law_modifier_press_release(
    keys: ModifierKeys,
    scancode: u8,
    extended: bool,
    vk: u16,
    other: u16,
)
    requires
        keycode(scancode, extended) == Some(vk),
        other_side(vk) == Some(other),
    ensures
        modifier_of(vk) is Some,
        modifier_of(other) == modifier_of(vk),
        flags_after_key(keys, scancode, extended, true).held(modifier_of(vk)->0),
        flags_after_key(keys, scancode, extended, false).held(modifier_of(vk)->0) == keys.holds(
            other,
        ),
        forall|n: Modifier, down: bool|
            Some(n) != modifier_of(vk) ==> flags_after_key(keys, scancode, extended, down).held(n)
                == keys.in_force().held(n),
{
}

/// A key that stands for no modifier leaves them all as they are.
pub proof fn law_plain_keys_change_no_modifier(
    keys: ModifierKeys,
    scancode: u8,
    extended: bool,
    down: bool,
)
    requires
        keycode(scancode, extended) matches Some(vk) ==> modifier_of(vk) is None,
    ensures
        keys_after_key(keys, scancode, extended, down) == keys,
        flags_after_key(keys, scancode, extended, down) == keys.in_force(),
{
}

/// Caps lock is a toggle: pressing and releasing its key turns it over, doing so
/// twice brings back what was, and the release alone changes nothing.
pub proof fn law_caps_lock_toggles(keys: ModifierKeys, scancode: u8, extended: bool)
    requires
        keycode(scancode, extended) matches Some(vk) && modifier_of(vk) == Some(
            Modifier::AlphaShift,
        ),
    ensures
        ({
            let pressed = keys_after_key(keys, scancode, extended, true);
            let released = keys_after_key(pressed, scancode, extended, false);
            let again = keys_after_key(
                keys_after_key(released, scancode, extended, true),
                scancode,
                extended,
                false,
            );
            &&& released.in_force().alpha_shift == !keys.in_force().alpha_shift
            &&& released == pressed
            &&& again == keys
        }),
        forall|n: Modifier, down: bool|
            n != Modifier::AlphaShift ==> flags_after_key(keys, scancode, extended, down).held(n)
                == keys.in_force().held(n),
{
}

/// The press and release of a click carry the same count, so that the Mac pairs
/// them.
pub proof fn law_click_pairs_share_a_count(
    last: Option<ClickState>,
    down_ns: u64,
    up_ns: u64,
    near_down: bool,
    near_up: bool,
)
    ensures
        ({
            let count = press_count(last, down_ns, near_down);
            button_count(Some(ClickState { time_ns: down_ns, count }), false, up_ns, near_up)
                == button_count(last, true, down_ns, near_down)
        }),
{
}

/// A quick second press near the first counts two: a double-click.
pub proof fn law_second_quick_press_is_a_double_click(
    last: Option<ClickState>,
    first_ns: u64,
    second_ns: u64,
    near: bool,
)
    requires
        press_count(last, first_ns, near) == 1,
        first_ns <= second_ns <= first_ns + DOUBLE_CLICK_INTERVAL_NS,
    ensures
        press_count(Some(ClickState { time_ns: first_ns, count: 1 }), second_ns, true) == 2,
        press_count(Some(ClickState { time_ns: first_ns, count: 1 }), second_ns, false) == 1,
{
}

/// No two keys of the client press the same key of the Mac.
pub proof fn law_keycodes_are_distinct(a: u8, a_ext: bool, b: u8, b_ext: bool)
    requires
        keycode(a, a_ext) is Some,
        keycode(a, a_ext) == keycode(b, b_ext),
    ensures
        a == b,
        a_ext == b_ext,
{
}

/// A wheel scrolls by whole lines of forty units each, in its own direction, and by ten
/// lines at most. So a notch of 120 units is three lines.
pub proof fn law_wheel_lines(rotation: i32)
    ensures
        -10 <= scroll_lines(rotation) <= 10,
        rotation >= 0 ==> scroll_lines(rotation) >= 0 && (scroll_lines(rotation) == 10
            || rotation < 40 * scroll_lines(rotation) + 40) && 40 * scroll_lines(rotation)
            <= rotation,
        rotation <= 0 ==> scroll_lines(rotation) <= 0 && (scroll_lines(rotation) == -10 || rotation
            > 40 * scroll_lines(rotation) - 40) && 40 * scroll_lines(rotation) >= rotation,
{
}

/// A press counts one more than the last press of the same button where that was at most
/// half a second ago and nearby, and one otherwise, however many came before.
pub proof fn law_presses_are_counted(last: ClickState, now_ns: u64, near: bool)
    requires
        last.count < i64::MAX,
        last.time_ns <= now_ns,
    ensures
        near && now_ns - last.time_ns <= 500_000_000 ==> press_count(Some(last), now_ns, near)
            == last.count + 1,
        !near || now_ns - last.time_ns > 500_000_000 ==> press_count(Some(last), now_ns, near) == 1,
        press_count(None, now_ns, near) == 1,
        button_count(Some(last), true, now_ns, near) == press_count(Some(last), now_ns, near),
        button_count(Some(last), false, now_ns, near) == last.count,
{
}

/// A button event presses or releases the button that it names.
pub proof fn law_button_events()
    ensures
        button_event(MouseEvent::LeftPressed) == Some((MouseButton::Left, true)),
        button_event(MouseEvent::LeftReleased) == Some((MouseButton::Left, false)),
        button_event(MouseEvent::RightPressed) == Some((MouseButton::Right, true)),
        button_event(MouseEvent::RightReleased) == Some((MouseButton::Right, false)),
        button_event(MouseEvent::MiddlePressed) == Some((MouseButton::Center, true)),
        button_event(MouseEvent::MiddleReleased) == Some((MouseButton::Center, false)),
        forall|x: u16, y: u16| #[trigger] button_event(MouseEvent::Move { x, y }) is None,
        forall|value: i16| #[trigger] button_event(MouseEvent::VerticalScroll { value }) is None,
{
}

/// A move drags exactly while a button is held, and names a button that is.
pub proof fn law_moves_drag_with_a_held_button(h: MacInputHandler)
    ensures
        h.move_kind() == MoveKind::Moved <==> !h.left_down && !h.right_down && !h.middle_down,
        h.left_down ==> h.move_kind() == MoveKind::LeftDragged,
        h.right_down && !h.left_down ==> h.move_kind() == MoveKind::RightDragged,
        h.middle_down && !h.left_down && !h.right_down ==> h.move_kind() == MoveKind::OtherDragged,
        h.move_kind() != MoveKind::Moved ==> h.is_down(h.move_button()),
        h.middle_down ==> h.move_button() == MouseButton::Center,
        h.right_down && !h.middle_down ==> h.move_button() == MouseButton::Right,
        !h.right_down && !h.middle_down ==> h.move_button() == MouseButton::Left,
        h.is_down(MouseButton::Left) == h.left_down,
        h.is_down(MouseButton::Right) == h.right_down,
        h.is_down(MouseButton::Center) == h.middle_down,
{
}

/// A move goes to the very place that the client names, and a wheel scrolls along its own
/// axis; the extra buttons and relative moves post nothing.
pub proof fn law_moves_and_wheels(h: MacInputHandler, x: u16, y: u16, dx: i32, dy: i32, value: i16)
    ensures
        pointer_action(h, MouseEvent::Move { x, y }) matches Some(InputAction::Move { x: px, y: py, kind, button })
            && px == x && py == y && kind == h.move_kind() && button == h.move_button(),
        pointer_action(h, MouseEvent::Scroll { x: dx, y: dy }) matches Some(InputAction::Scroll { vertical, horizontal })
            && vertical == scroll_lines(dy) && horizontal == scroll_lines(dx),
        pointer_action(h, MouseEvent::VerticalScroll { value }) matches Some(InputAction::Scroll { vertical, horizontal })
            && vertical == scroll_lines(value as i32) && horizontal == 0,
        pointer_action(h, MouseEvent::Button4Pressed) is None,
        pointer_action(h, MouseEvent::Button4Released) is None,
        pointer_action(h, MouseEvent::Button5Pressed) is None,
        pointer_action(h, MouseEvent::Button5Released) is None,
        pointer_action(h, MouseEvent::RelMove { x: dx, y: dy }) is None,
{
}

/// Each of the eight keys that have a side has a bit of its own, and the bits of the
/// keys that are held are all that there are.
pub proof fn law_sides_have_bits_of_their_own(k: ModifierKeys)
    ensures
        (ModifierKeys { left_control: true, ..k }).side_bits() - (ModifierKeys {
            left_control: false,
            ..k
        }).side_bits() == 0x0001,
        (ModifierKeys { left_shift: true, ..k }).side_bits() - (ModifierKeys {
            left_shift: false,
            ..k
        }).side_bits() == 0x0002,
        (ModifierKeys { right_shift: true, ..k }).side_bits() - (ModifierKeys {
            right_shift: false,
            ..k
        }).side_bits() == 0x0004,
        (ModifierKeys { left_command: true, ..k }).side_bits() - (ModifierKeys {
            left_command: false,
            ..k
        }).side_bits() == 0x0008,
        (ModifierKeys { right_command: true, ..k }).side_bits() - (ModifierKeys {
            right_command: false,
            ..k
        }).side_bits() == 0x0010,
        (ModifierKeys { left_alternate: true, ..k }).side_bits() - (ModifierKeys {
            left_alternate: false,
            ..k
        }).side_bits() == 0x0020,
        (ModifierKeys { right_alternate: true, ..k }).side_bits() - (ModifierKeys {
            right_alternate: false,
            ..k
        }).side_bits() == 0x0040,
        (ModifierKeys { right_control: true, ..k }).side_bits() - (ModifierKeys {
            right_control: false,
            ..k
        }).side_bits() == 0x2000,
        (ModifierKeys { caps_lock: !k.caps_lock, ..k }).side_bits() == k.side_bits(),
        (ModifierKeys {
            left_shift: false,
            right_shift: false,
            left_control: false,
            right_control: false,
            left_alternate: false,
            right_alternate: false,
            left_command: false,
            right_command: false,
            ..k
        }).side_bits() == 0,
{
}

/// A key acts when it goes down and when it comes up. A character acts once, when it
/// goes down, as it is, and changes no modifier; nor does anything else.
pub proof fn law_what_keyboard_events_do(
    keys: ModifierKeys,
    code: u8,
    extended: bool,
    unit: u16,
)
    ensures
        keyboard_effect(keys, KeyboardEvent::Pressed { code, extended }) == key_effect(
            keys,
            code,
            extended,
            true,
        ),
        keyboard_effect(keys, KeyboardEvent::Released { code, extended }) == key_effect(
            keys,
            code,
            extended,
            false,
        ),
        keyboard_effect(keys, KeyboardEvent::UnicodePressed(unit)) == (
            Some(InputAction::Unicode { unit }),
            keys,
        ),
        keyboard_effect(keys, KeyboardEvent::UnicodeReleased(unit)) == (
            None::<InputAction>,
            keys,
        ),
        keyboard_effect(keys, KeyboardEvent::Synchronize) == (None::<InputAction>, keys),
{
}

/// A press is remembered with its own time and count; a release leaves the press that
/// it ends, so that the next press is measured from there.
pub proof fn law_which_press_is_remembered(
    last: Option<ClickState>,
    now_ns: u64,
    near: bool,
)
    ensures
        press_after(last, false, now_ns, near) == last,
        press_after(last, true, now_ns, near) matches Some(p) && p.time_ns == now_ns && p.count
            == button_count(last, true, now_ns, near),
{
}

/// What is said to leave the mouse as it was leaves every button as it was, held or
/// not, and its last press; what leaves the target as it was leaves the desktop's size
/// and its display.
pub proof fn law_what_stays_of_the_input(
    a: MacInputHandler,
    b: MacInputHandler,
    button: MouseButton,
)
    ensures
        a.same_mouse(b) ==> a.is_down(button) == b.is_down(button) && a.last_press(button)
            == b.last_press(button),
        a.is_down(MouseButton::Left) == a.left_down && a.last_press(MouseButton::Left)
            == a.click_left,
        a.is_down(MouseButton::Right) == a.right_down && a.last_press(MouseButton::Right)
            == a.click_right,
        a.is_down(MouseButton::Center) == a.middle_down && a.last_press(MouseButton::Center)
            == a.click_middle,
        a.same_target(b) ==> a.desktop_width == b.desktop_width && a.desktop_height
            == b.desktop_height && a.target_display_id == b.target_display_id,
{
}

} // verus!
