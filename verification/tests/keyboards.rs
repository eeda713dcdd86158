use styx::keyboards::{detect_keyboard, enumerate_keyboards, is_keyboard_name, node_path};

fn names(list: &[&str]) -> Vec<Vec<u8>> {
    list.iter().map(|n| n.as_bytes().to_vec()).collect()
}

#[test]
fn keyboards_are_known_by_name() {
    assert!(is_keyboard_name(&b"usb-Logitech_Keyboard-event-kbd".to_vec()));
    assert!(!is_keyboard_name(&b"usb-Logitech_Keyboard-if01-event-kbd".to_vec()));
    assert!(!is_keyboard_name(&b"usb-Logitech_Mouse-event-mouse".to_vec()));
    assert!(!is_keyboard_name(&b"usb-Logitech_Keyboard-kbd".to_vec()));
    assert!(!is_keyboard_name(&Vec::new()));
}

#[test]
fn names_need_not_be_text() {
    let mut name = vec![0xff, 0xfe];
    name.extend_from_slice(b"event-kbd");
    assert!(is_keyboard_name(&name));
}

#[test]
fn paths_lie_under_by_id() {
    assert_eq!(node_path(&b"x-event-kbd".to_vec()), b"/dev/input/by-id/x-event-kbd".to_vec());
}

#[test]
fn keyboards_are_listed_in_order() {
    let listed = names(&["b-event-kbd", "c-event-mouse", "a-event-kbd", "a-if02-event-kbd"]);
    assert_eq!(
        enumerate_keyboards(&listed),
        names(&["/dev/input/by-id/a-event-kbd", "/dev/input/by-id/b-event-kbd"])
    );
    assert!(enumerate_keyboards(&Vec::new()).is_empty());
}

#[test]
fn the_listing_order_does_not_matter() {
    let one = names(&["b-event-kbd", "a-event-kbd", "ab-event-kbd", "x"]);
    let other = names(&["x", "ab-event-kbd", "b-event-kbd", "a-event-kbd"]);
    assert_eq!(enumerate_keyboards(&one), enumerate_keyboards(&other));
}

#[test]
fn the_first_keyboard_is_detected() {
    let listed = names(&["b-event-kbd", "mouse", "a-event-kbd"]);
    assert_eq!(detect_keyboard(&listed), Ok(b"/dev/input/by-id/a-event-kbd".to_vec()));
}

#[test]
fn no_keyboard_is_an_error() {
    assert_eq!(
        detect_keyboard(&names(&["mouse"])),
        Err("no keyboard found in /dev/input/by-id/; set keyboard_device in config".to_string())
    );
}
