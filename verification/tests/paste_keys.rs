use quickclipboard_core::keyboard::{
    conflicting_modifiers, parse_shortcut_key_vk, paste_chord, set_trigger_key_from_shortcut, set_trigger_key_raw,
    stuck_modifiers, take_trigger_key, vk_from_upper_key, ModifierState, TriggerKeyState,
};

#[test]
fn shortcut_last_key_is_parsed() {
    assert_eq!(parse_shortcut_key_vk("Ctrl+Shift+V"), Some(0x56));
    assert_eq!(parse_shortcut_key_vk("Alt+ 7 "), Some(0x37));
    assert_eq!(parse_shortcut_key_vk("Ctrl+v"), None);
    assert_eq!(parse_shortcut_key_vk("Ctrl+"), None);
    assert_eq!(parse_shortcut_key_vk(""), None);
    assert_eq!(parse_shortcut_key_vk("Shift+Insert"), Some(0x2D));
    assert_eq!(parse_shortcut_key_vk("Ctrl+f1"), Some(0x70));
    assert_eq!(parse_shortcut_key_vk("F24"), Some(0x87));
    assert_eq!(parse_shortcut_key_vk("F25"), None);
    assert_eq!(parse_shortcut_key_vk("F0"), None);
    assert_eq!(parse_shortcut_key_vk("Ctrl+Space"), None);
    assert_eq!(parse_shortcut_key_vk("Ctrl+é"), None);
}

#[test]
fn uppercased_names_map_to_codes() {
    assert_eq!(vk_from_upper_key("INSERT"), Some(0x2D));
    assert_eq!(vk_from_upper_key("F+3"), Some(0x72));
    assert_eq!(vk_from_upper_key("F-3"), None);
    assert_eq!(vk_from_upper_key("F"), None);
    assert_eq!(vk_from_upper_key("F012"), Some(0x7B));
}

#[test]
fn trigger_key_is_taken_once() {
    let mut state = TriggerKeyState { current: None };
    set_trigger_key_from_shortcut(&mut state, "Ctrl+Q");
    assert_eq!(state.current, Some(0x51));
    set_trigger_key_from_shortcut(&mut state, "Ctrl+?");
    assert_eq!(state.current, Some(0x51));
    set_trigger_key_raw(&mut state, 0x20);
    assert_eq!(take_trigger_key(&mut state), Some(0x20));
    assert_eq!(take_trigger_key(&mut state), None);
}

#[test]
fn paste_chord_follows_mode() {
    assert_eq!(paste_chord("ctrl_v"), (0x11, 0x56, false));
    assert_eq!(paste_chord("shift_insert"), (0x10, 0x2D, true));
}

#[test]
fn modifier_release_lists() {
    let all = ModifierState { ctrl: true, shift: true, alt: true, lwin: true, rwin: false };
    assert_eq!(conflicting_modifiers(&all), vec![0x11, 0x10, 0x5B]);
    let physical = ModifierState { ctrl: false, shift: true, alt: false, lwin: true, rwin: false };
    assert_eq!(stuck_modifiers(&all, &physical), vec![0x11, 0x12]);
    assert_eq!(
        all.entries(),
        vec![(0x11, true), (0x10, true), (0x12, true), (0x5B, true), (0x5C, false)]
    );
}
