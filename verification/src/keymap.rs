//! Translation between evdev scancodes and macOS virtual key codes.
use keycode::{KeyMap, KeyMapping};
use vstd::prelude::*;

verus! {

/// evdev scancode of the left control key.
pub const KEY_LEFT_CTRL: u32 = 29;

/// evdev scancode of the left shift key.
pub const KEY_LEFT_SHIFT: u32 = 42;

/// evdev scancode of the left alt key.
pub const KEY_LEFT_ALT: u32 = 56;

/// evdev scancode of the left meta (Super) key.
pub const KEY_LEFT_META: u32 = 125;

/// evdev scancode of the right control key.
pub const KEY_RIGHT_CTRL: u32 = 97;

/// evdev scancode of the right shift key.
pub const KEY_RIGHT_SHIFT: u32 = 54;

/// evdev scancode of the right alt key.
pub const KEY_RIGHT_ALT: u32 = 100;

/// evdev scancode of the right meta (Super) key.
pub const KEY_RIGHT_META: u32 = 126;

/// evdev scancode of the M key.
pub const KEY_M: u32 = 50;

/// Every modifier scancode.
pub const MODIFIER_KEYS: [u32; 8] = [
    KEY_LEFT_CTRL,
    KEY_LEFT_SHIFT,
    KEY_LEFT_ALT,
    KEY_LEFT_META,
    KEY_RIGHT_CTRL,
    KEY_RIGHT_SHIFT,
    KEY_RIGHT_ALT,
    KEY_RIGHT_META,
];

/// The code that the key table gives to a key that a platform does not have.
pub const NO_CODE: u16 = 0xFFFF;

/// The scancodes that count as modifiers.
pub open spec fn modifier(code: u32) -> bool {
    MODIFIER_KEYS@.contains(code)
}

/// Whether `evdev_code` is the scancode of a modifier key.
pub fn is_modifier(evdev_code: u32) -> (b: bool)
    ensures
        b == modifier(evdev_code),
{
    let mut i: usize = 0;
    while i < MODIFIER_KEYS.len()
        invariant
            i <= MODIFIER_KEYS@.len(),
            forall|j: int| 0 <= j < i ==> MODIFIER_KEYS@[j] != evdev_code,
        decreases MODIFIER_KEYS@.len() - i,
    {
        if MODIFIER_KEYS[i] == evdev_code {
            return true;
        }
        i += 1;
    }
    false
}

/// A key named by its code on one of the two platforms.
#[derive(Debug, Clone, Copy, PartialEq, Eq, Structural)]
pub enum Key {
    Evdev(u16),
    Mac(u16),
}

/// The row of the key table found for a code: the row's evdev code and its macOS code,
/// in this order. `by_mac` tells whether `code` is looked for among the macOS codes or
/// among the evdev codes. Nothing rests on it for a row looked for by the macOS code
/// `NO_CODE`, which many rows share.
pub uninterp spec fn key_row(by_mac: bool, code: u16) -> Option<(u16, u16)>;

/// Looks a key up with `KeyMap::from_key_mapping` of the keycode crate and hands out the
/// row's evdev and macOS codes.
///
/// The table has no two rows with the same macOS code other than `NO_CODE`, and no two
/// with the same evdev code other than 0; the rows of evdev code 0 have no macOS code.
/// So a row is found again by each of its codes, `NO_CODE` aside. Which of the rows
/// without a macOS code is found by `NO_CODE` differs from one build of the crate to the
/// next; that one is found, and that it has no macOS code, holds of all of them.
#[verifier::external_body]
fn find_row(key: Key) -> (row: Option<(u16, u16)>)
    ensures
        key != Key::Mac(NO_CODE) ==> row == (match key {
            Key::Evdev(code) => key_row(false, code),
            Key::Mac(code) => key_row(true, code),
        }),
        key == Key::Mac(NO_CODE) ==> row is Some,
        row matches Some((evdev, mac)) ==> {
            &&& key matches Key::Evdev(code) ==> evdev == code
            &&& key matches Key::Mac(code) ==> mac == code
            &&& evdev != NO_CODE
            &&& key_row(false, evdev) == Some((evdev, mac))
            &&& mac != NO_CODE ==> key_row(true, mac) == Some((evdev, mac))
        },
{
    let mapping = match key {
        Key::Evdev(code) => KeyMapping::Evdev(code),
        Key::Mac(code) => KeyMapping::Mac(code),
    };
    match KeyMap::from_key_mapping(mapping) {
        Ok(row) => Some((row.evdev, row.mac)),
        Err(()) => None,
    }
}

/// The code, unless it stands for a key that the platform does not have.
pub open spec fn present(code: Option<u16>) -> Option<u16> {
    match code {
        Some(c) if c != NO_CODE => Some(c),
        _ => None,
    }
}

/// Drops the code of a key that the platform does not have.
pub fn present_code(code: Option<u16>) -> (r: Option<u16>)
    ensures
        r == present(code),
{
    match code {
        Some(c) => if c != NO_CODE {
            Some(c)
        } else {
            None
        },
        None => None,
    }
}

/// The macOS code of the row that the table has for an evdev code.
pub open spec fn macos_of(evdev_code: u16) -> Option<u16> {
    match key_row(false, evdev_code) {
        Some((_, mac)) => present(Some(mac)),
        None => None,
    }
}

/// The evdev code of the row that the table has for a macOS code other than `NO_CODE`.
pub open spec fn evdev_of(mac_code: u16) -> Option<u16> {
    match key_row(true, mac_code) {
        Some((evdev, _)) => present(Some(evdev)),
        None => None,
    }
}

/// The macOS code of the key with the given evdev scancode, if there is such a key and
/// macOS has it.
pub fn evdev_to_macos(evdev_code: u16) -> (r: Option<u16>)
    ensures
        r == macos_of(evdev_code),
        r matches Some(mac) ==> mac != NO_CODE && evdev_of(mac) == Some(evdev_code),
{
    match find_row(Key::Evdev(evdev_code)) {
        Some((_, mac)) => present_code(Some(mac)),
        None => None,
    }
}

/// The evdev scancode of the key with the given macOS code. For `NO_CODE` this is the
/// scancode of some key that macOS does not have.
pub fn macos_to_evdev(mac_code: u16) -> (r: Option<u16>)
    ensures
        mac_code != NO_CODE ==> r == evdev_of(mac_code),
        r matches Some(evdev) ==> evdev != NO_CODE && macos_of(evdev) == present(Some(mac_code)),
        mac_code == NO_CODE ==> r is Some,
{
    match find_row(Key::Mac(mac_code)) {
        Some((evdev, _)) => present_code(Some(evdev)),
        None => None,
    }
}

/// The modifiers are control, shift, alt and meta, left and right, and no other keys.
pub proof fn modifiers_are_these(code: u32)
    ensures
        modifier(code) <==> code == 29 || code == 97 || code == 42 || code == 54 || code == 56
            || code == 100 || code == 125 || code == 126,
{
    let keys = MODIFIER_KEYS@;
    assert(keys[0] == 29 && keys[1] == 42 && keys[2] == 56 && keys[3] == 125);
    assert(keys[4] == 97 && keys[5] == 54 && keys[6] == 100 && keys[7] == 126);
    assert(keys.len() == 8);
}

/// A key has the macOS code of its row, and the other way round, unless the row has none.
pub proof fn rows_map_both_ways(evdev: u16, mac: u16)
    ensures
        key_row(false, evdev) is None ==> macos_of(evdev) is None,
        key_row(true, mac) is None ==> evdev_of(mac) is None,
        key_row(false, evdev) matches Some((_, m)) ==> (m != 0xFFFF ==> macos_of(evdev) == Some(m))
            && (m == 0xFFFF ==> macos_of(evdev) is None),
        key_row(true, mac) matches Some((e, _)) ==> (e != 0xFFFF ==> evdev_of(mac) == Some(e)) && (e
            == 0xFFFF ==> evdev_of(mac) is None),
{
}

} // verus!
