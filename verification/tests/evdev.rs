use styx::evdev::{
    synth_keys, DrainResult, EvdevCapture, EvdevError, Fetch, KeySet, NextStep, RawEvent,
    ReadyKind, EV_KEY,
};
use styx::event::Event;

const A: u16 = 30;
const SHIFT: u16 = 42;
const SUPER: u16 = 125;
const M: u16 = 50;

fn key(code: u16, value: i32) -> RawEvent {
    RawEvent { kind: EV_KEY, code, value }
}

fn press(code: u16) -> Event {
    Event::KeyPress { code: code as u32 }
}

fn lift(code: u16) -> Event {
    Event::KeyRelease { code: code as u32 }
}

fn paths(list: &[&str]) -> Vec<Vec<u8>> {
    list.iter().map(|p| p.as_bytes().to_vec()).collect()
}

fn open() -> EvdevCapture {
    EvdevCapture::open(&paths(&["/k1", "/k2"]), &vec![true, true]).ok().unwrap()
}

fn keys(codes: &[u16]) -> Option<KeySet> {
    Some(KeySet::from_codes(&codes.to_vec()))
}

fn translated(capture: &mut EvdevCapture, events: &[RawEvent]) -> Vec<Event> {
    let mut out = Vec::new();
    for event in events {
        capture.translate(*event, &mut out);
    }
    out
}

#[test]
fn keys_are_pressed_and_released() {
    let mut capture = open();
    let out = translated(&mut capture, &[key(A, 1), key(SHIFT, 1), key(A, 0)]);
    assert_eq!(out, vec![press(A), press(SHIFT), lift(A)]);
    assert_eq!(capture.release_all(), vec![lift(SHIFT)]);
    assert_eq!(capture.release_all(), vec![]);
}

#[test]
fn repeats_are_presses_but_for_modifiers() {
    let mut capture = open();
    let out = translated(&mut capture, &[key(A, 1), key(A, 2), key(SHIFT, 1), key(SHIFT, 2)]);
    assert_eq!(out, vec![press(A), press(A), press(SHIFT)]);
}

#[test]
fn other_events_are_dropped() {
    let mut capture = open();
    let other = RawEvent { kind: 2, code: A, value: 1 };
    let sync = RawEvent { kind: 0, code: 0, value: 0 };
    assert_eq!(translated(&mut capture, &[other, sync, key(A, 3), key(A, -1)]), vec![]);
}

#[test]
fn the_escape_chord_is_swallowed() {
    let mut capture = open();
    let out = translated(
        &mut capture,
        &[key(SUPER, 1), key(M, 1), key(M, 2), key(M, 2), key(M, 0), key(SUPER, 0)],
    );
    assert_eq!(out, vec![press(SUPER), lift(SUPER)]);
    assert!(capture.take_escape_signal());
    assert!(!capture.take_escape_signal());
}

#[test]
fn m_alone_is_an_ordinary_key() {
    let mut capture = open();
    let out = translated(&mut capture, &[key(M, 1), key(M, 2), key(M, 0)]);
    assert_eq!(out, vec![press(M), press(M), lift(M)]);
    assert!(!capture.take_escape_signal());
}

#[test]
fn the_other_super_key_counts_too() {
    let mut capture = open();
    assert_eq!(translated(&mut capture, &[key(126, 1), key(M, 1)]), vec![press(126)]);
    assert!(capture.take_escape_signal());
}

#[test]
fn nothing_is_left_down() {
    let mut capture = open();
    let typed = [key(A, 1), key(31, 1), key(32, 1), key(31, 0), key(SHIFT, 1), key(A, 2)];
    let mut down = std::collections::HashSet::new();
    let mut out = translated(&mut capture, &typed);
    out.extend(capture.release_all());
    for event in out {
        match event {
            Event::KeyPress { code } => {
                down.insert(code);
            }
            Event::KeyRelease { code } => {
                down.remove(&code);
            }
            _ => unreachable!(),
        }
    }
    assert!(down.is_empty());
}

#[test]
fn a_key_that_was_down_before_is_held_once_it_repeats() {
    let mut capture = open();
    assert_eq!(translated(&mut capture, &[key(A, 2)]), vec![press(A)]);
    assert_eq!(capture.release_all(), vec![lift(A)]);
    assert_eq!(translated(&mut capture, &[key(A, 2), key(A, 0)]), vec![press(A), lift(A)]);
    assert_eq!(capture.release_all(), vec![]);
    // Held on two keyboards, let go on one.
    let out = translated(&mut capture, &[key(A, 1), key(A, 1), key(A, 0), key(A, 2)]);
    assert_eq!(out, vec![press(A), press(A), lift(A), press(A)]);
    assert_eq!(capture.release_all(), vec![lift(A)]);
    // A swallowed repeat is not held.
    assert_eq!(translated(&mut capture, &[key(SHIFT, 2)]), vec![]);
    assert_eq!(capture.release_all(), vec![]);
}

#[test]
fn draining_gathers_all_reads() {
    let mut capture = open();
    let fetches = vec![
        Fetch::Events(vec![key(A, 1)]),
        Fetch::Events(vec![key(A, 0), key(31, 1)]),
        Fetch::WouldBlock,
    ];
    assert_eq!(
        capture.drain_device(&fetches),
        DrainResult::Events(vec![press(A), lift(A), press(31)])
    );
    assert_eq!(capture.drain_device(&vec![Fetch::WouldBlock]), DrainResult::Empty);
}

#[test]
fn a_failed_read_drops_what_was_read() {
    let mut capture = open();
    let fetches = vec![Fetch::Events(vec![key(A, 1)]), Fetch::Failed];
    assert_eq!(capture.drain_device(&fetches), DrainResult::Gone);
    assert_eq!(capture.release_all(), vec![]);
}

#[test]
fn wakeups_deliver_wait_rescan_or_lose() {
    let mut capture = open();
    assert_eq!(capture.next_events(ReadyKind::Inotify, &vec![]), NextStep::Rescan);
    assert_eq!(
        capture.next_events(ReadyKind::Device(0), &vec![Fetch::Events(vec![key(A, 1)])]),
        NextStep::Deliver(vec![press(A)])
    );
    assert_eq!(
        capture.next_events(ReadyKind::Device(0), &vec![Fetch::WouldBlock]),
        NextStep::Wait
    );
    assert_eq!(capture.next_events(ReadyKind::Device(0), &vec![Fetch::Failed]), NextStep::Wait);
    assert_eq!(capture.devices().clone(), paths(&["/k2"]));
    assert_eq!(capture.next_events(ReadyKind::Device(0), &vec![Fetch::Failed]), NextStep::Lost);
    assert!(capture.devices().is_empty());
}

#[test]
fn the_first_ready_source_wins() {
    let capture = open();
    assert_eq!(capture.wait_ready(&vec![true, true], true), Some(ReadyKind::Device(0)));
    assert_eq!(capture.wait_ready(&vec![false, true], true), Some(ReadyKind::Device(1)));
    assert_eq!(capture.wait_ready(&vec![false, false], true), Some(ReadyKind::Inotify));
    assert_eq!(capture.wait_ready(&vec![false, false], false), None);
}

#[test]
fn some_keyboard_must_open() {
    let listed = paths(&["/k1", "/k2", "/k3"]);
    let capture = EvdevCapture::open(&listed, &vec![false, true, true]).ok().unwrap();
    assert_eq!(capture.devices().clone(), paths(&["/k2", "/k3"]));
    let error = EvdevCapture::open(&listed, &vec![false, false, false]).err().unwrap();
    assert_eq!(error, EvdevError::NoneOpened);
    assert_eq!(error.message(), "no keyboard devices could be opened");
}

#[test]
fn some_keyboard_must_be_grabbed() {
    let mut capture = open();
    let error = capture.grab(&vec![None, None], &vec![false, false]).err().unwrap();
    assert_eq!(error, EvdevError::NoneGrabbed);
    assert_eq!(error.message(), "failed to grab any keyboard device");
    assert!(!capture.rescanned(&vec![], &vec![]));
    assert_eq!(capture.grab(&vec![None, None], &vec![false, true]), Ok(()));
    assert!(capture.rescanned(&vec![], &vec![]));
}

#[test]
fn keys_let_go_during_the_grab_are_stale() {
    let mut capture = open();
    capture.grab(&vec![keys(&[A, SHIFT]), keys(&[31])], &vec![true, true]).unwrap();
    let mut stale = capture.ungrab(&vec![keys(&[SHIFT]), None]);
    stale.sort();
    assert_eq!(stale, vec![A as u32, 31]);
    assert!(!capture.rescanned(&vec![], &vec![]));
    assert!(capture.ungrab(&vec![None, None]).is_empty());
}

#[test]
fn a_second_grab_changes_nothing() {
    let mut capture = open();
    capture.grab(&vec![keys(&[A]), None], &vec![true, true]).unwrap();
    assert_eq!(capture.grab(&vec![keys(&[31]), None], &vec![false, false]), Ok(()));
    assert_eq!(capture.ungrab(&vec![None, None]), vec![A as u32]);
}

#[test]
fn a_grab_forgets_the_escape_chord() {
    let mut capture = open();
    translated(&mut capture, &[key(SUPER, 1), key(M, 1)]);
    capture.grab(&vec![None], &vec![true]).unwrap();
    assert!(!capture.take_escape_signal());
}

#[test]
fn held_modifiers_are_found_on_any_keyboard() {
    let capture = open();
    let mut held = capture.held_modifiers(&vec![keys(&[A, SHIFT]), None, keys(&[SHIFT, 29])]);
    held.sort();
    assert_eq!(held, vec![29, SHIFT as u32]);
}

#[test]
fn new_keyboards_are_found_once() {
    let mut capture = open();
    let found = paths(&["/k0", "/k1", "/k3"]);
    let new = capture.rescan(&found);
    assert_eq!(new, paths(&["/k0", "/k3"]));
    assert!(!capture.rescanned(&new, &vec![true, true]));
    assert!(capture.rescan(&found).is_empty());
    assert_eq!(capture.devices().clone(), paths(&["/k1", "/k2", "/k0", "/k3"]));
}

#[test]
fn keyboards_that_cannot_be_opened_are_tried_again() {
    let mut capture = open();
    let found = paths(&["/k0", "/k1", "/k3", "/k4"]);
    let new = capture.rescan(&found);
    assert_eq!(new, paths(&["/k0", "/k3", "/k4"]));
    capture.rescanned(&new, &vec![true, false, true]);
    assert_eq!(capture.devices().clone(), paths(&["/k1", "/k2", "/k0", "/k4"]));
    let new = capture.rescan(&found);
    assert_eq!(new, paths(&["/k3"]));
    capture.rescanned(&new, &vec![false]);
    assert_eq!(capture.devices().clone(), paths(&["/k1", "/k2", "/k0", "/k4"]));
}

#[test]
fn keyboards_opened_during_a_grab_are_grabbed() {
    let mut capture = open();
    capture.grab(&vec![None, None], &vec![true, true]).unwrap();
    assert!(capture.rescanned(&paths(&["/k3"]), &vec![true]));
}

#[test]
fn keys_whose_press_was_sent_are_held() {
    let mut capture = open();
    capture.hold(&vec![125]);
    assert_eq!(translated(&mut capture, &[key(M, 1)]), vec![]);
    assert!(capture.take_escape_signal());
    assert_eq!(capture.release_all(), vec![lift(SUPER)]);
}

#[test]
fn key_sets_hold_their_codes() {
    let set = KeySet::from_codes(&vec![200, 30, 0x2ff, 30]);
    assert_eq!(set.codes(), vec![30, 200, 0x2ff]);
    assert!(KeySet::from_codes(&Vec::new()).codes().is_empty());
}

#[test]
fn the_synthetic_keyboard_has_all_keys() {
    let set = synth_keys(&vec![keys(&[1, 2]), None, keys(&[2, 300])]);
    assert_eq!(set.codes(), vec![1, 2, 300]);
}
