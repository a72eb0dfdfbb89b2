//! The keys of both sides by their names: scancodes of PS/2 Set 1, and virtual
//! keycodes of the Mac's ANSI keyboard. A scancode of an extended key stands behind a
//! prefix, so it may repeat that of a plain one.
//!
//! The laws say which key of the Mac each key of the client is, name by name.

use crate::input;
use vstd::prelude::*;

verus! {

pub const SC_A: u8 = 0x1E;

pub const KVK_ANSI_A: u16 = 0x00;

pub const SC_B: u8 = 0x30;

pub const KVK_ANSI_B: u16 = 0x0B;

pub const SC_C: u8 = 0x2E;

pub const KVK_ANSI_C: u16 = 0x08;

pub const SC_D: u8 = 0x20;

pub const KVK_ANSI_D: u16 = 0x02;

pub const SC_E: u8 = 0x12;

pub const KVK_ANSI_E: u16 = 0x0E;

pub const SC_F: u8 = 0x21;

pub const KVK_ANSI_F: u16 = 0x03;

pub const SC_G: u8 = 0x22;

pub const KVK_ANSI_G: u16 = 0x05;

pub const SC_H: u8 = 0x23;

pub const KVK_ANSI_H: u16 = 0x04;

pub const SC_I: u8 = 0x17;

pub const KVK_ANSI_I: u16 = 0x22;

pub const SC_J: u8 = 0x24;

pub const KVK_ANSI_J: u16 = 0x26;

pub const SC_K: u8 = 0x25;

pub const KVK_ANSI_K: u16 = 0x28;

pub const SC_L: u8 = 0x26;

pub const KVK_ANSI_L: u16 = 0x25;

pub const SC_M: u8 = 0x32;

pub const KVK_ANSI_M: u16 = 0x2E;

pub const SC_N: u8 = 0x31;

pub const KVK_ANSI_N: u16 = 0x2D;

pub const SC_O: u8 = 0x18;

pub const KVK_ANSI_O: u16 = 0x1F;

pub const SC_P: u8 = 0x19;

pub const KVK_ANSI_P: u16 = 0x23;

pub const SC_Q: u8 = 0x10;

pub const KVK_ANSI_Q: u16 = 0x0C;

pub const SC_R: u8 = 0x13;

pub const KVK_ANSI_R: u16 = 0x0F;

pub const SC_S: u8 = 0x1F;

pub const KVK_ANSI_S: u16 = 0x01;

pub const SC_T: u8 = 0x14;

pub const KVK_ANSI_T: u16 = 0x11;

pub const SC_U: u8 = 0x16;

pub const KVK_ANSI_U: u16 = 0x20;

pub const SC_V: u8 = 0x2F;

pub const KVK_ANSI_V: u16 = 0x09;

pub const SC_W: u8 = 0x11;

pub const KVK_ANSI_W: u16 = 0x0D;

pub const SC_X: u8 = 0x2D;

pub const KVK_ANSI_X: u16 = 0x07;

pub const SC_Y: u8 = 0x15;

pub const KVK_ANSI_Y: u16 = 0x10;

pub const SC_Z: u8 = 0x2C;

pub const KVK_ANSI_Z: u16 = 0x06;

pub const SC_0: u8 = 0x0B;

pub const KVK_ANSI_0: u16 = 0x1D;

pub const SC_1: u8 = 0x02;

pub const KVK_ANSI_1: u16 = 0x12;

pub const SC_2: u8 = 0x03;

pub const KVK_ANSI_2: u16 = 0x13;

pub const SC_3: u8 = 0x04;

pub const KVK_ANSI_3: u16 = 0x14;

pub const SC_4: u8 = 0x05;

pub const KVK_ANSI_4: u16 = 0x15;

pub const SC_5: u8 = 0x06;

pub const KVK_ANSI_5: u16 = 0x17;

pub const SC_6: u8 = 0x07;

pub const KVK_ANSI_6: u16 = 0x16;

pub const SC_7: u8 = 0x08;

pub const KVK_ANSI_7: u16 = 0x1A;

pub const SC_8: u8 = 0x09;

pub const KVK_ANSI_8: u16 = 0x1C;

pub const SC_9: u8 = 0x0A;

pub const KVK_ANSI_9: u16 = 0x19;

pub const SC_MINUS: u8 = 0x0C;

pub const KVK_ANSI_MINUS: u16 = 0x1B;

pub const SC_EQUAL: u8 = 0x0D;

pub const KVK_ANSI_EQUAL: u16 = 0x18;

pub const SC_LEFT_BRACKET: u8 = 0x1A;

pub const KVK_ANSI_LEFT_BRACKET: u16 = 0x21;

pub const SC_RIGHT_BRACKET: u8 = 0x1B;

pub const KVK_ANSI_RIGHT_BRACKET: u16 = 0x1E;

pub const SC_SEMICOLON: u8 = 0x27;

pub const KVK_ANSI_SEMICOLON: u16 = 0x29;

pub const SC_QUOTE: u8 = 0x28;

pub const KVK_ANSI_QUOTE: u16 = 0x27;

pub const SC_GRAVE: u8 = 0x29;

pub const KVK_ANSI_GRAVE: u16 = 0x32;

pub const SC_BACKSLASH: u8 = 0x2B;

pub const KVK_ANSI_BACKSLASH: u16 = 0x2A;

pub const SC_COMMA: u8 = 0x33;

pub const KVK_ANSI_COMMA: u16 = 0x2B;

pub const SC_PERIOD: u8 = 0x34;

pub const KVK_ANSI_PERIOD: u16 = 0x2F;

pub const SC_SLASH: u8 = 0x35;

pub const KVK_ANSI_SLASH: u16 = 0x2C;

pub const SC_ESCAPE: u8 = 0x01;

pub const KVK_ESCAPE: u16 = 0x35;

pub const SC_BACKSPACE: u8 = 0x0E;

pub const KVK_DELETE: u16 = 0x33;

pub const SC_TAB: u8 = 0x0F;

pub const KVK_TAB: u16 = 0x30;

pub const SC_ENTER: u8 = 0x1C;

pub const KVK_RETURN: u16 = 0x24;

pub const SC_SPACE: u8 = 0x39;

pub const KVK_SPACE: u16 = 0x31;

pub const SC_LEFT_CTRL: u8 = 0x1D;

pub const KVK_CONTROL: u16 = 0x3B;

pub const SC_LEFT_SHIFT: u8 = 0x2A;

pub const KVK_SHIFT: u16 = 0x38;

pub const SC_RIGHT_SHIFT: u8 = 0x36;

pub const KVK_RIGHT_SHIFT: u16 = 0x3C;

pub const SC_LEFT_ALT: u8 = 0x38;

pub const KVK_OPTION: u16 = 0x3A;

pub const SC_CAPS_LOCK: u8 = 0x3A;

pub const KVK_CAPS_LOCK: u16 = 0x39;

pub const SC_RIGHT_CTRL: u8 = 0x1D;

pub const KVK_RIGHT_CONTROL: u16 = 0x3E;

pub const SC_RIGHT_ALT: u8 = 0x38;

pub const KVK_RIGHT_OPTION: u16 = 0x3D;

pub const SC_LEFT_GUI: u8 = 0x5B;

pub const KVK_COMMAND: u16 = 0x37;

pub const SC_RIGHT_GUI: u8 = 0x5C;

pub const KVK_RIGHT_COMMAND: u16 = 0x36;

pub const SC_F1: u8 = 0x3B;

pub const KVK_F1: u16 = 0x7A;

pub const SC_F2: u8 = 0x3C;

pub const KVK_F2: u16 = 0x78;

pub const SC_F3: u8 = 0x3D;

pub const KVK_F3: u16 = 0x63;

pub const SC_F4: u8 = 0x3E;

pub const KVK_F4: u16 = 0x76;

pub const SC_F5: u8 = 0x3F;

pub const KVK_F5: u16 = 0x60;

pub const SC_F6: u8 = 0x40;

pub const KVK_F6: u16 = 0x61;

pub const SC_F7: u8 = 0x41;

pub const KVK_F7: u16 = 0x62;

pub const SC_F8: u8 = 0x42;

pub const KVK_F8: u16 = 0x64;

pub const SC_F9: u8 = 0x43;

pub const KVK_F9: u16 = 0x65;

pub const SC_F10: u8 = 0x44;

pub const KVK_F10: u16 = 0x6D;

pub const SC_F11: u8 = 0x57;

pub const KVK_F11: u16 = 0x67;

pub const SC_F12: u8 = 0x58;

pub const KVK_F12: u16 = 0x6F;

pub const SC_PAD_MULTIPLY: u8 = 0x37;

pub const KVK_KEYPAD_MULTIPLY: u16 = 0x43;

pub const SC_PAD_7: u8 = 0x47;

pub const KVK_KEYPAD_7: u16 = 0x59;

pub const SC_PAD_8: u8 = 0x48;

pub const KVK_KEYPAD_8: u16 = 0x5B;

pub const SC_PAD_9: u8 = 0x49;

pub const KVK_KEYPAD_9: u16 = 0x5C;

pub const SC_PAD_MINUS: u8 = 0x4A;

pub const KVK_KEYPAD_MINUS: u16 = 0x4E;

pub const SC_PAD_4: u8 = 0x4B;

pub const KVK_KEYPAD_4: u16 = 0x56;

pub const SC_PAD_5: u8 = 0x4C;

pub const KVK_KEYPAD_5: u16 = 0x57;

pub const SC_PAD_6: u8 = 0x4D;

pub const KVK_KEYPAD_6: u16 = 0x58;

pub const SC_PAD_PLUS: u8 = 0x4E;

pub const KVK_KEYPAD_PLUS: u16 = 0x45;

pub const SC_PAD_1: u8 = 0x4F;

pub const KVK_KEYPAD_1: u16 = 0x53;

pub const SC_PAD_2: u8 = 0x50;

pub const KVK_KEYPAD_2: u16 = 0x54;

pub const SC_PAD_3: u8 = 0x51;

pub const KVK_KEYPAD_3: u16 = 0x55;

pub const SC_PAD_0: u8 = 0x52;

pub const KVK_KEYPAD_0: u16 = 0x52;

pub const SC_PAD_DECIMAL: u8 = 0x53;

pub const KVK_KEYPAD_DECIMAL: u16 = 0x41;

pub const SC_PAD_ENTER: u8 = 0x1C;

pub const KVK_KEYPAD_ENTER: u16 = 0x4C;

pub const SC_PAD_DIVIDE: u8 = 0x35;

pub const KVK_KEYPAD_DIVIDE: u16 = 0x4B;

pub const SC_HOME: u8 = 0x47;

pub const KVK_HOME: u16 = 0x73;

pub const SC_UP: u8 = 0x48;

pub const KVK_UP_ARROW: u16 = 0x7E;

pub const SC_PAGE_UP: u8 = 0x49;

pub const KVK_PAGE_UP: u16 = 0x74;

pub const SC_LEFT: u8 = 0x4B;

pub const KVK_LEFT_ARROW: u16 = 0x7B;

pub const SC_RIGHT: u8 = 0x4D;

pub const KVK_RIGHT_ARROW: u16 = 0x7C;

pub const SC_END: u8 = 0x4F;

pub const KVK_END: u16 = 0x77;

pub const SC_DOWN: u8 = 0x50;

pub const KVK_DOWN_ARROW: u16 = 0x7D;

pub const SC_PAGE_DOWN: u8 = 0x51;

pub const KVK_PAGE_DOWN: u16 = 0x79;

pub const SC_INSERT: u8 = 0x52;

pub const KVK_HELP: u16 = 0x72;

pub const SC_DELETE: u8 = 0x53;

pub const KVK_FORWARD_DELETE: u16 = 0x75;

/// Letter keys type their own letters.
pub proof fn law_letter_keys()
    ensures
        input::keycode(SC_A, false) == Some(KVK_ANSI_A),
        input::keycode(SC_B, false) == Some(KVK_ANSI_B),
        input::keycode(SC_C, false) == Some(KVK_ANSI_C),
        input::keycode(SC_D, false) == Some(KVK_ANSI_D),
        input::keycode(SC_E, false) == Some(KVK_ANSI_E),
        input::keycode(SC_F, false) == Some(KVK_ANSI_F),
        input::keycode(SC_G, false) == Some(KVK_ANSI_G),
        input::keycode(SC_H, false) == Some(KVK_ANSI_H),
        input::keycode(SC_I, false) == Some(KVK_ANSI_I),
        input::keycode(SC_J, false) == Some(KVK_ANSI_J),
        input::keycode(SC_K, false) == Some(KVK_ANSI_K),
        input::keycode(SC_L, false) == Some(KVK_ANSI_L),
        input::keycode(SC_M, false) == Some(KVK_ANSI_M),
        input::keycode(SC_N, false) == Some(KVK_ANSI_N),
        input::keycode(SC_O, false) == Some(KVK_ANSI_O),
        input::keycode(SC_P, false) == Some(KVK_ANSI_P),
        input::keycode(SC_Q, false) == Some(KVK_ANSI_Q),
        input::keycode(SC_R, false) == Some(KVK_ANSI_R),
        input::keycode(SC_S, false) == Some(KVK_ANSI_S),
        input::keycode(SC_T, false) == Some(KVK_ANSI_T),
        input::keycode(SC_U, false) == Some(KVK_ANSI_U),
        input::keycode(SC_V, false) == Some(KVK_ANSI_V),
        input::keycode(SC_W, false) == Some(KVK_ANSI_W),
        input::keycode(SC_X, false) == Some(KVK_ANSI_X),
        input::keycode(SC_Y, false) == Some(KVK_ANSI_Y),
        input::keycode(SC_Z, false) == Some(KVK_ANSI_Z),
{
}

/// The keys of the digit row type their own digits.
pub proof fn law_digit_keys()
    ensures
        input::keycode(SC_0, false) == Some(KVK_ANSI_0),
        input::keycode(SC_1, false) == Some(KVK_ANSI_1),
        input::keycode(SC_2, false) == Some(KVK_ANSI_2),
        input::keycode(SC_3, false) == Some(KVK_ANSI_3),
        input::keycode(SC_4, false) == Some(KVK_ANSI_4),
        input::keycode(SC_5, false) == Some(KVK_ANSI_5),
        input::keycode(SC_6, false) == Some(KVK_ANSI_6),
        input::keycode(SC_7, false) == Some(KVK_ANSI_7),
        input::keycode(SC_8, false) == Some(KVK_ANSI_8),
        input::keycode(SC_9, false) == Some(KVK_ANSI_9),
{
}

/// Punctuation keys type what the ANSI layout prints on them.
pub proof fn law_punctuation_keys()
    ensures
        input::keycode(SC_MINUS, false) == Some(KVK_ANSI_MINUS),
        input::keycode(SC_EQUAL, false) == Some(KVK_ANSI_EQUAL),
        input::keycode(SC_LEFT_BRACKET, false) == Some(KVK_ANSI_LEFT_BRACKET),
        input::keycode(SC_RIGHT_BRACKET, false) == Some(KVK_ANSI_RIGHT_BRACKET),
        input::keycode(SC_SEMICOLON, false) == Some(KVK_ANSI_SEMICOLON),
        input::keycode(SC_QUOTE, false) == Some(KVK_ANSI_QUOTE),
        input::keycode(SC_GRAVE, false) == Some(KVK_ANSI_GRAVE),
        input::keycode(SC_BACKSLASH, false) == Some(KVK_ANSI_BACKSLASH),
        input::keycode(SC_COMMA, false) == Some(KVK_ANSI_COMMA),
        input::keycode(SC_PERIOD, false) == Some(KVK_ANSI_PERIOD),
        input::keycode(SC_SLASH, false) == Some(KVK_ANSI_SLASH),
{
}

/// The keys that edit are those of the same use. What a PC calls backspace, a Mac calls
/// delete.
pub proof fn law_editing_keys()
    ensures
        input::keycode(SC_ESCAPE, false) == Some(KVK_ESCAPE),
        input::keycode(SC_BACKSPACE, false) == Some(KVK_DELETE),
        input::keycode(SC_TAB, false) == Some(KVK_TAB),
        input::keycode(SC_ENTER, false) == Some(KVK_RETURN),
        input::keycode(SC_SPACE, false) == Some(KVK_SPACE),
{
}

/// Modifier keys are those of the same side; alt is option, and the key with the logo
/// is command.
pub proof fn law_modifier_keys()
    ensures
        input::keycode(SC_LEFT_CTRL, false) == Some(KVK_CONTROL),
        input::keycode(SC_LEFT_SHIFT, false) == Some(KVK_SHIFT),
        input::keycode(SC_RIGHT_SHIFT, false) == Some(KVK_RIGHT_SHIFT),
        input::keycode(SC_LEFT_ALT, false) == Some(KVK_OPTION),
        input::keycode(SC_CAPS_LOCK, false) == Some(KVK_CAPS_LOCK),
        input::keycode(SC_RIGHT_CTRL, true) == Some(KVK_RIGHT_CONTROL),
        input::keycode(SC_RIGHT_ALT, true) == Some(KVK_RIGHT_OPTION),
        input::keycode(SC_LEFT_GUI, true) == Some(KVK_COMMAND),
        input::keycode(SC_RIGHT_GUI, true) == Some(KVK_RIGHT_COMMAND),
{
}

/// Function keys keep their numbers.
pub proof fn law_function_keys()
    ensures
        input::keycode(SC_F1, false) == Some(KVK_F1),
        input::keycode(SC_F2, false) == Some(KVK_F2),
        input::keycode(SC_F3, false) == Some(KVK_F3),
        input::keycode(SC_F4, false) == Some(KVK_F4),
        input::keycode(SC_F5, false) == Some(KVK_F5),
        input::keycode(SC_F6, false) == Some(KVK_F6),
        input::keycode(SC_F7, false) == Some(KVK_F7),
        input::keycode(SC_F8, false) == Some(KVK_F8),
        input::keycode(SC_F9, false) == Some(KVK_F9),
        input::keycode(SC_F10, false) == Some(KVK_F10),
        input::keycode(SC_F11, false) == Some(KVK_F11),
        input::keycode(SC_F12, false) == Some(KVK_F12),
{
}

/// The keys of the keypad are those of the keypad.
pub proof fn law_keypad_keys()
    ensures
        input::keycode(SC_PAD_MULTIPLY, false) == Some(KVK_KEYPAD_MULTIPLY),
        input::keycode(SC_PAD_7, false) == Some(KVK_KEYPAD_7),
        input::keycode(SC_PAD_8, false) == Some(KVK_KEYPAD_8),
        input::keycode(SC_PAD_9, false) == Some(KVK_KEYPAD_9),
        input::keycode(SC_PAD_MINUS, false) == Some(KVK_KEYPAD_MINUS),
        input::keycode(SC_PAD_4, false) == Some(KVK_KEYPAD_4),
        input::keycode(SC_PAD_5, false) == Some(KVK_KEYPAD_5),
        input::keycode(SC_PAD_6, false) == Some(KVK_KEYPAD_6),
        input::keycode(SC_PAD_PLUS, false) == Some(KVK_KEYPAD_PLUS),
        input::keycode(SC_PAD_1, false) == Some(KVK_KEYPAD_1),
        input::keycode(SC_PAD_2, false) == Some(KVK_KEYPAD_2),
        input::keycode(SC_PAD_3, false) == Some(KVK_KEYPAD_3),
        input::keycode(SC_PAD_0, false) == Some(KVK_KEYPAD_0),
        input::keycode(SC_PAD_DECIMAL, false) == Some(KVK_KEYPAD_DECIMAL),
        input::keycode(SC_PAD_ENTER, true) == Some(KVK_KEYPAD_ENTER),
        input::keycode(SC_PAD_DIVIDE, true) == Some(KVK_KEYPAD_DIVIDE),
{
}

/// Arrows and the block above them move as their names say. A Mac has help where a PC has
/// insert.
pub proof fn law_navigation_keys()
    ensures
        input::keycode(SC_HOME, true) == Some(KVK_HOME),
        input::keycode(SC_UP, true) == Some(KVK_UP_ARROW),
        input::keycode(SC_PAGE_UP, true) == Some(KVK_PAGE_UP),
        input::keycode(SC_LEFT, true) == Some(KVK_LEFT_ARROW),
        input::keycode(SC_RIGHT, true) == Some(KVK_RIGHT_ARROW),
        input::keycode(SC_END, true) == Some(KVK_END),
        input::keycode(SC_DOWN, true) == Some(KVK_DOWN_ARROW),
        input::keycode(SC_PAGE_DOWN, true) == Some(KVK_PAGE_DOWN),
        input::keycode(SC_INSERT, true) == Some(KVK_HELP),
        input::keycode(SC_DELETE, true) == Some(KVK_FORWARD_DELETE),
{
}

/// Nothing else is a key: a scancode is that of a key exactly where the keyboard has
/// one there.
pub proof fn law_no_other_keys(code: u8)
    ensures
        input::keycode(code, false) is Some <==> (SC_ESCAPE <= code <= SC_F10 || SC_PAD_7 <= code
            <= SC_PAD_DECIMAL || code == SC_F11 || code == SC_F12),
        input::keycode(code, true) is Some <==> (code == SC_PAD_ENTER || code == SC_RIGHT_CTRL
            || code == SC_PAD_DIVIDE || code == SC_RIGHT_ALT || SC_HOME <= code <= SC_PAGE_UP
            || code == SC_LEFT || code == SC_RIGHT || SC_END <= code <= SC_DELETE || code
            == SC_LEFT_GUI || code == SC_RIGHT_GUI),
{
}

/// Each modifier key stands for its modifier, on either side, and no other key stands for
/// one.
pub proof fn law_what_modifier_keys_stand_for(vk: u16)
    ensures
        input::modifier_of(vk) == Some(input::Modifier::Shift) <==> (vk == KVK_SHIFT || vk
            == KVK_RIGHT_SHIFT),
        input::modifier_of(vk) == Some(input::Modifier::Control) <==> (vk == KVK_CONTROL || vk
            == KVK_RIGHT_CONTROL),
        input::modifier_of(vk) == Some(input::Modifier::Alternate) <==> (vk == KVK_OPTION || vk
            == KVK_RIGHT_OPTION),
        input::modifier_of(vk) == Some(input::Modifier::Command) <==> (vk == KVK_COMMAND || vk
            == KVK_RIGHT_COMMAND),
        input::modifier_of(vk) == Some(input::Modifier::AlphaShift) <==> vk == KVK_CAPS_LOCK,
{
}

/// Pressing or releasing a key is remembered for that key and that side alone.
pub proof fn law_each_side_by_itself(keys: input::ModifierKeys, vk: u16, down: bool)
    ensures
        ({
            let k = keys.after(vk, down);
            &&& k.left_shift == (if vk == KVK_SHIFT { down } else { keys.left_shift })
            &&& k.right_shift == (if vk == KVK_RIGHT_SHIFT { down } else { keys.right_shift })
            &&& k.left_control == (if vk == KVK_CONTROL { down } else { keys.left_control })
            &&& k.right_control == (if vk == KVK_RIGHT_CONTROL { down } else { keys.right_control })
            &&& k.left_alternate == (if vk == KVK_OPTION { down } else { keys.left_alternate })
            &&& k.right_alternate == (if vk == KVK_RIGHT_OPTION {
                down
            } else {
                keys.right_alternate
            })
            &&& k.left_command == (if vk == KVK_COMMAND { down } else { keys.left_command })
            &&& k.right_command == (if vk == KVK_RIGHT_COMMAND { down } else { keys.right_command })
            &&& k.caps_lock == (if vk == KVK_CAPS_LOCK && down {
                !keys.caps_lock
            } else {
                keys.caps_lock
            })
        }),
        keys.in_force().shift == (keys.left_shift || keys.right_shift),
        keys.in_force().control == (keys.left_control || keys.right_control),
        keys.in_force().alternate == (keys.left_alternate || keys.right_alternate),
        keys.in_force().command == (keys.left_command || keys.right_command),
        keys.in_force().alpha_shift == keys.caps_lock,
{
}

/// A key of the client that the Mac has posts that key, down or up as it went, with the
/// modifiers in force afterwards; one that it has not posts nothing and changes nothing.
pub proof fn law_what_a_key_posts(
    keys: input::ModifierKeys,
    scancode: u8,
    extended: bool,
    down: bool,
    vk: u16,
)
    ensures
        input::keycode(scancode, extended) == Some(vk) ==> ({
            let (action, after) = input::key_effect(keys, scancode, extended, down);
            &&& after == keys.after(vk, down)
            &&& action == Some(
                input::InputAction::Key { vk, down, flags: after.in_force(), keys: after },
            )
        }),
        input::keycode(scancode, extended) is None ==> input::key_effect(
            keys,
            scancode,
            extended,
            down,
        ) == (None::<input::InputAction>, keys),
{
}

} // verus!
