use macrdp::input::{
    modifier_flag, InputAction, KeyboardEvent, MacInputHandler, Modifier, ModifierKeys, Modifiers,
    MouseButton, MouseEvent, MoveKind,
};

const NONE: Modifiers =
    Modifiers { shift: false, control: false, alternate: false, command: false, alpha_shift: false };

const NO_KEYS: ModifierKeys = ModifierKeys {
    left_shift: false,
    right_shift: false,
    left_control: false,
    right_control: false,
    left_alternate: false,
    right_alternate: false,
    left_command: false,
    right_command: false,
    caps_lock: false,
};

fn flags(action: Option<InputAction>) -> Modifiers {
    match action {
        Some(InputAction::Key { flags, .. }) => flags,
        _ => panic!("no key"),
    }
}

fn press(h: &mut MacInputHandler, code: u8, extended: bool) -> Option<InputAction> {
    h.keyboard(KeyboardEvent::Pressed { code, extended })
}

fn release(h: &mut MacInputHandler, code: u8, extended: bool) -> Option<InputAction> {
    h.keyboard(KeyboardEvent::Released { code, extended })
}

#[test]
fn keys_of_the_ansi_layout() {
    let h = MacInputHandler::new(1280, 720, None);
    assert_eq!(h.scancode_to_cgkeycode(0x1E, false), Some(0x00));
    assert_eq!(h.scancode_to_cgkeycode(0x01, false), Some(0x35));
    assert_eq!(h.scancode_to_cgkeycode(0x39, false), Some(0x31));
    assert_eq!(h.scancode_to_cgkeycode(0x5B, true), Some(0x37));
    assert_eq!(h.scancode_to_cgkeycode(0x50, true), Some(0x7D));
    assert_eq!(h.scancode_to_cgkeycode(0x00, false), None);
    assert_eq!(h.scancode_to_cgkeycode(0xff, true), None);
}

#[test]
fn no_two_scancodes_share_a_key() {
    let h = MacInputHandler::new(1, 1, None);
    let mut seen = Vec::new();
    for extended in [false, true] {
        for code in 0..=255u8 {
            if let Some(vk) = h.scancode_to_cgkeycode(code, extended) {
                assert!(!seen.contains(&vk), "{vk:#x} twice");
                seen.push(vk);
            }
        }
    }
    assert!(seen.len() > 80);
}

#[test]
fn modifiers_last_from_press_to_release() {
    let mut h = MacInputHandler::new(1, 1, None);
    let shift = Modifiers { shift: true, ..NONE };
    let left = ModifierKeys { left_shift: true, ..NO_KEYS };
    assert_eq!(
        press(&mut h, 0x2A, false),
        Some(InputAction::Key { vk: 0x38, down: true, flags: shift, keys: left })
    );
    assert_eq!(
        press(&mut h, 0x1E, false),
        Some(InputAction::Key { vk: 0, down: true, flags: shift, keys: left })
    );
    assert_eq!(
        release(&mut h, 0x2A, false),
        Some(InputAction::Key { vk: 0x38, down: false, flags: NONE, keys: NO_KEYS })
    );
    assert_eq!(press(&mut h, 0x00, false), None);
    assert_eq!(h.keys, NO_KEYS);
}

#[test]
fn a_modifier_lasts_while_either_side_is_held() {
    // Left and right keys of shift, control, alternate and command.
    let pairs = [
        ((0x2A, false), (0x36, false), Modifiers { shift: true, ..NONE }),
        ((0x1D, false), (0x1D, true), Modifiers { control: true, ..NONE }),
        ((0x38, false), (0x38, true), Modifiers { alternate: true, ..NONE }),
        ((0x5B, true), (0x5C, true), Modifiers { command: true, ..NONE }),
    ];
    for (a, b, held) in pairs {
        for (first, second) in [(a, b), (b, a)] {
            let mut h = MacInputHandler::new(1, 1, None);
            assert_eq!(flags(press(&mut h, first.0, first.1)), held);
            assert_eq!(flags(press(&mut h, second.0, second.1)), held);
            assert_eq!(flags(release(&mut h, first.0, first.1)), held);
            assert_eq!(flags(release(&mut h, second.0, second.1)), NONE);
        }
    }
    let mut h = MacInputHandler::new(1, 1, None);
    press(&mut h, 0x2A, false);
    press(&mut h, 0x36, false);
    assert_eq!(
        release(&mut h, 0x2A, false),
        Some(InputAction::Key {
            vk: 0x38,
            down: false,
            flags: Modifiers { shift: true, ..NONE },
            keys: ModifierKeys { right_shift: true, ..NO_KEYS },
        })
    );
}

#[test]
fn caps_lock_is_a_toggle() {
    let mut h = MacInputHandler::new(1, 1, None);
    let caps = Modifiers { alpha_shift: true, ..NONE };
    assert_eq!(flags(press(&mut h, 0x3A, false)), caps);
    assert_eq!(flags(release(&mut h, 0x3A, false)), caps);
    assert_eq!(flags(press(&mut h, 0x1E, false)), caps);
    assert_eq!(flags(press(&mut h, 0x3A, false)), NONE);
    assert_eq!(flags(release(&mut h, 0x3A, false)), NONE);
    assert_eq!(h.keys, NO_KEYS);
}

#[test]
fn sides_have_bits_of_their_own() {
    assert_eq!(NO_KEYS.device_bits(), 0);
    assert_eq!(ModifierKeys { caps_lock: true, ..NO_KEYS }.device_bits(), 0);
    assert_eq!(ModifierKeys { left_shift: true, ..NO_KEYS }.device_bits(), 0x2);
    assert_eq!(ModifierKeys { right_shift: true, ..NO_KEYS }.device_bits(), 0x4);
    assert_eq!(ModifierKeys { right_control: true, ..NO_KEYS }.device_bits(), 0x2000);
    let all = ModifierKeys {
        left_shift: true,
        right_shift: true,
        left_control: true,
        right_control: true,
        left_alternate: true,
        right_alternate: true,
        left_command: true,
        right_command: true,
        caps_lock: true,
    };
    assert_eq!(all.device_bits(), 0x207f);
}

#[test]
fn modifier_keys() {
    assert_eq!(modifier_flag(0x38), Some(Modifier::Shift));
    assert_eq!(modifier_flag(0x3C), Some(Modifier::Shift));
    assert_eq!(modifier_flag(0x3B), Some(Modifier::Control));
    assert_eq!(modifier_flag(0x3A), Some(Modifier::Alternate));
    assert_eq!(modifier_flag(0x37), Some(Modifier::Command));
    assert_eq!(modifier_flag(0x39), Some(Modifier::AlphaShift));
    assert_eq!(modifier_flag(0x00), None);
}

#[test]
fn typed_text_has_no_release() {
    let mut h = MacInputHandler::new(1, 1, None);
    assert_eq!(
        h.keyboard(KeyboardEvent::UnicodePressed(0x20ac)),
        Some(InputAction::Unicode { unit: 0x20ac })
    );
    assert_eq!(h.keyboard(KeyboardEvent::UnicodeReleased(0x20ac)), None);
    assert_eq!(h.keyboard(KeyboardEvent::Synchronize), None);
}

fn count(action: Option<InputAction>) -> i64 {
    match action {
        Some(InputAction::Button { click_count, .. }) => click_count,
        _ => panic!("no button"),
    }
}

#[test]
fn clicks_are_counted() {
    const MS: u64 = 1_000_000;
    let mut h = MacInputHandler::new(1, 1, None);
    assert_eq!(count(h.mouse(MouseEvent::LeftPressed, 0, true)), 1);
    assert_eq!(count(h.mouse(MouseEvent::LeftReleased, 50 * MS, true)), 1);
    assert_eq!(count(h.mouse(MouseEvent::LeftPressed, 500 * MS, true)), 2);
    assert_eq!(count(h.mouse(MouseEvent::LeftReleased, 900 * MS, true)), 2);
    assert_eq!(count(h.mouse(MouseEvent::LeftPressed, 1001 * MS, true)), 1);
    assert_eq!(count(h.mouse(MouseEvent::LeftPressed, 1002 * MS, false)), 1);
    assert_eq!(count(h.mouse(MouseEvent::RightPressed, 1003 * MS, true)), 1);
    assert_eq!(count(h.mouse(MouseEvent::MiddleReleased, 1003 * MS, true)), 1);
}

#[test]
fn moves_drag_while_a_button_is_down() {
    let mut h = MacInputHandler::new(100, 100, Some(7));
    let mv = MouseEvent::Move { x: 3, y: 4 };
    assert_eq!(
        h.mouse(mv, 0, false),
        Some(InputAction::Move { x: 3, y: 4, kind: MoveKind::Moved, button: MouseButton::Left })
    );
    h.mouse(MouseEvent::MiddlePressed, 0, false);
    assert_eq!(
        h.mouse(mv, 0, false),
        Some(InputAction::Move {
            x: 3,
            y: 4,
            kind: MoveKind::OtherDragged,
            button: MouseButton::Center
        })
    );
    h.mouse(MouseEvent::LeftPressed, 0, false);
    assert_eq!(
        h.mouse(mv, 0, false),
        Some(InputAction::Move {
            x: 3,
            y: 4,
            kind: MoveKind::LeftDragged,
            button: MouseButton::Center
        })
    );
    assert_eq!(h.target_display_id, Some(7));
}

#[test]
fn wheels_scroll_by_lines() {
    let mut h = MacInputHandler::new(1, 1, None);
    let vertical = |h: &mut MacInputHandler, value: i16| {
        match h.mouse(MouseEvent::VerticalScroll { value }, 0, false) {
            Some(InputAction::Scroll { vertical, horizontal: 0 }) => vertical,
            _ => panic!("no scroll"),
        }
    };
    assert_eq!(vertical(&mut h, 120), 3);
    assert_eq!(vertical(&mut h, -120), -3);
    assert_eq!(vertical(&mut h, 39), 0);
    assert_eq!(vertical(&mut h, -39), 0);
    assert_eq!(vertical(&mut h, i16::MAX), 10);
    assert_eq!(vertical(&mut h, i16::MIN), -10);
    assert_eq!(
        h.mouse(MouseEvent::Scroll { x: 80, y: i32::MIN }, 0, false),
        Some(InputAction::Scroll { vertical: -10, horizontal: 2 })
    );
}

#[test]
fn events_that_are_not_forwarded() {
    let mut h = MacInputHandler::new(1, 1, None);
    for e in [
        MouseEvent::Button4Pressed,
        MouseEvent::Button4Released,
        MouseEvent::Button5Pressed,
        MouseEvent::Button5Released,
        MouseEvent::RelMove { x: 1, y: 1 },
    ] {
        assert_eq!(h.mouse(e, 0, true), None);
    }
}
