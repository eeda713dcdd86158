use styx::keymap::{
    evdev_to_macos, is_modifier, macos_to_evdev, present_code, KEY_LEFT_ALT, KEY_LEFT_CTRL,
    KEY_LEFT_META, KEY_LEFT_SHIFT, KEY_M, KEY_RIGHT_ALT, KEY_RIGHT_CTRL, KEY_RIGHT_META,
    KEY_RIGHT_SHIFT, MODIFIER_KEYS, NO_CODE,
};

#[test]
fn common_keys_map() {
    // A key: evdev 30, macOS 0x00
    assert_eq!(evdev_to_macos(30), Some(0x00));
    // S key: evdev 31, macOS 0x01
    assert_eq!(evdev_to_macos(31), Some(0x01));
    // D key: evdev 32, macOS 0x02
    assert_eq!(evdev_to_macos(32), Some(0x02));
    // Space: evdev 57, macOS 0x31
    assert_eq!(evdev_to_macos(57), Some(0x31));
    // Return: evdev 28, macOS 0x24
    assert_eq!(evdev_to_macos(28), Some(0x24));
    // Escape: evdev 1, macOS 0x35
    assert_eq!(evdev_to_macos(1), Some(0x35));
    // Tab: evdev 15, macOS 0x30
    assert_eq!(evdev_to_macos(15), Some(0x30));
    // Backspace: evdev 14, macOS 0x33
    assert_eq!(evdev_to_macos(14), Some(0x33));
}

#[test]
fn modifier_keys_map() {
    assert!(evdev_to_macos(KEY_LEFT_SHIFT as u16).is_some());
    assert!(evdev_to_macos(KEY_LEFT_CTRL as u16).is_some());
    assert!(evdev_to_macos(KEY_LEFT_ALT as u16).is_some());
    assert!(evdev_to_macos(KEY_LEFT_META as u16).is_some());
    assert!(evdev_to_macos(KEY_RIGHT_SHIFT as u16).is_some());
    assert!(evdev_to_macos(KEY_RIGHT_CTRL as u16).is_some());
    assert!(evdev_to_macos(KEY_RIGHT_ALT as u16).is_some());
}

#[test]
fn f_keys_map() {
    // F1: evdev 59, macOS 0x7A
    assert_eq!(evdev_to_macos(59), Some(0x7A));
    // F12: evdev 88, macOS 0x6F
    assert_eq!(evdev_to_macos(88), Some(0x6F));
}

#[test]
fn arrow_keys_map() {
    // Up: evdev 103, macOS 0x7E
    assert_eq!(evdev_to_macos(103), Some(0x7E));
    // Down: evdev 108, macOS 0x7D
    assert_eq!(evdev_to_macos(108), Some(0x7D));
    // Left: evdev 105, macOS 0x7B
    assert_eq!(evdev_to_macos(105), Some(0x7B));
    // Right: evdev 106, macOS 0x7C
    assert_eq!(evdev_to_macos(106), Some(0x7C));
}

#[test]
fn number_keys_map() {
    // 1 key: evdev 2
    assert!(evdev_to_macos(2).is_some());
    // 0 key: evdev 11
    assert!(evdev_to_macos(11).is_some());
}

#[test]
fn round_trip() {
    for evdev_code in 1u16..128 {
        if let Some(mac) = evdev_to_macos(evdev_code) {
            if let Some(back) = macos_to_evdev(mac) {
                assert_eq!(
                    back, evdev_code,
                    "round-trip failed: evdev {evdev_code} -> mac {mac} -> evdev {back}"
                );
            }
        }
    }
}

#[test]
fn unmapped_returns_none() {
    // Code 0 is EV_SYN, not a real key.
    assert_eq!(evdev_to_macos(0), None);
}

#[test]
fn is_modifier_works() {
    assert!(is_modifier(KEY_LEFT_SHIFT));
    assert!(is_modifier(KEY_RIGHT_CTRL));
    assert!(!is_modifier(30)); // 'A' key
}

#[test]
fn every_code_round_trips() {
    let mut mapped = 0;
    for code in 0..=u16::MAX {
        if let Some(mac) = evdev_to_macos(code) {
            assert_ne!(mac, NO_CODE);
            assert_eq!(macos_to_evdev(mac), Some(code));
            mapped += 1;
        }
        if code != NO_CODE {
            if let Some(evdev) = macos_to_evdev(code) {
                assert_eq!(evdev_to_macos(evdev), Some(code));
            }
        }
    }
    assert!(mapped > 100);
}

#[test]
fn the_absent_mac_code_finds_a_key_without_one() {
    let evdev = macos_to_evdev(NO_CODE).unwrap();
    assert_eq!(evdev_to_macos(evdev), None);
}

#[test]
fn codes_without_a_key_map_to_none() {
    assert_eq!(evdev_to_macos(0xFFFF), None);
    assert_eq!(macos_to_evdev(0x1234), None);
}

#[test]
fn absent_codes_are_dropped() {
    assert_eq!(present_code(Some(7)), Some(7));
    assert_eq!(present_code(Some(0xFFFF)), None);
    assert_eq!(present_code(None), None);
}

#[test]
fn exactly_the_eight_modifiers_are_modifiers() {
    let listed = [29, 42, 56, 125, 97, 54, 100, 126];
    assert_eq!(MODIFIER_KEYS.to_vec(), listed.to_vec());
    for code in 0..1000u32 {
        assert_eq!(is_modifier(code), listed.contains(&code));
    }
    assert!(!is_modifier(KEY_M));
    assert!(is_modifier(KEY_RIGHT_META));
}
