use styx::capture::{Capture, OutputInfo, OutputUpdate, PointerEvent};
use styx::config::HeartbeatConfig;
use styx::evdev::{EvdevCapture, Fetch, KeySet, RawEvent, ReadyKind, EV_KEY};
use styx::event::{CaptureEvent, Event};
use styx::geometry::Edge;
use styx::session::{
    cooldown_ms, preferred_content, within_cap, Beat, BeginStep, Course, Escape, GrabStep,
    KeyboardStep, Received, Session, Trouble, MS,
};
use styx::wire::{encode, Message};

const NOW: u64 = 10_000 * MS;

fn pointer() -> Capture {
    let mut info = OutputInfo::new();
    info.update(OutputUpdate::Name("DP-1".to_string()));
    info.update(OutputUpdate::LogicalSize { width: 1920, height: 1080 });
    Capture::new(&vec!["DP-1".to_string()], &vec![info], Edge::Left, true).ok().unwrap()
}

fn keyboards() -> EvdevCapture {
    EvdevCapture::open(&vec![b"/k1".to_vec()], &vec![true]).ok().unwrap()
}

fn session() -> Session {
    Session::new(pointer(), keyboards(), HeartbeatConfig::default())
}

fn keys(codes: &[u16]) -> Vec<Option<KeySet>> {
    vec![Some(KeySet::from_codes(&codes.to_vec()))]
}

fn key(code: u16, value: i32) -> RawEvent {
    RawEvent { kind: EV_KEY, code, value }
}

fn cross(session: &mut Session, at: u64) {
    let enter = PointerEvent::Enter { window: Some(0), surface_x: 0, surface_y: 0 };
    session.pointer_event(enter, at);
    assert!(matches!(session.poll_event(), Some(CaptureEvent::Begin { .. })));
}

fn capturing() -> Session {
    let mut session = session();
    cross(&mut session, NOW);
    assert_eq!(session.begin(NOW), BeginStep::Grab);
    let step = session.grabbed(5, 9, &vec![None], &vec![true], &vec![None]);
    assert!(matches!(step, GrabStep::Active(_)));
    session
}

fn typed(session: &mut Session, events: Vec<RawEvent>) -> KeyboardStep {
    session.keyboard_ready(ReadyKind::Device(0), &vec![Fetch::Events(events)])
}

/// Whether a crossing just before a time is refused, on the session's side and at the edge
/// windows.
fn refuses_until(session: &mut Session, until: u64) -> bool {
    let enter = PointerEvent::Enter { window: Some(0), surface_x: 0, surface_y: 0 };
    session.pointer_event(enter, until - 1);
    session.poll_event().is_none() && matches!(session.begin(until - 1), BeginStep::Refuse(_))
}

#[test]
fn capture_begins_with_the_held_modifiers() {
    let mut session = session();
    cross(&mut session, NOW);
    assert_eq!(session.begin(NOW), BeginStep::Grab);
    let GrabStep::Active(events) =
        session.grabbed(5, 9, &keys(&[30, 42]), &vec![true], &keys(&[30, 42]))
    else {
        panic!("not active");
    };
    assert_eq!(
        events,
        vec![
            Event::KeyPress { code: 42 },
            Event::CaptureBegin { from_bottom: 5, source_height: 9 }
        ]
    );
    assert!(session.is_capturing());
    assert_eq!(session.heartbeat_ms(), 1000);
    // The modifier is held from then on.
    assert_eq!(
        session.release_capture(),
        Some(vec![Event::KeyRelease { code: 42 }, Event::CaptureEnd])
    );
}

#[test]
fn a_failed_grab_loses_the_keyboard() {
    let mut session = session();
    cross(&mut session, NOW);
    session.begin(NOW);
    let GrabStep::Failed(work) = session.grabbed(5, 9, &vec![None], &vec![false], &vec![None])
    else {
        panic!("active");
    };
    assert_eq!(work.window, Some(0));
    assert!(!session.is_capturing() && !session.has_keyboard());
    cross(&mut session, NOW);
    assert!(matches!(session.begin(NOW), BeginStep::Refuse(_)));
    session.keyboard_recovered(keyboards());
    cross(&mut session, NOW);
    assert_eq!(session.begin(NOW), BeginStep::Grab);
}

#[test]
fn crossing_again_is_ignored() {
    let mut session = capturing();
    assert_eq!(session.begin(NOW), BeginStep::Ignore);
    assert!(session.is_capturing());
}

#[test]
fn crossing_pauses_after_connecting() {
    let mut session = session();
    session.connected(NOW);
    cross(&mut session, NOW);
    assert!(matches!(session.begin(NOW + 500 * MS - 1), BeginStep::Refuse(_)));
    cross(&mut session, NOW);
    assert_eq!(session.begin(NOW + 500 * MS), BeginStep::Grab);
}

#[test]
fn crossing_pauses_after_coming_back() {
    let mut session = capturing();
    session.release_capture();
    session.capture_released(&vec![None]);
    session.returned(NOW);
    assert_eq!(session.heartbeat_ms(), 5000);
    cross(&mut session, NOW);
    assert!(matches!(session.begin(NOW + 100 * MS - 1), BeginStep::Refuse(_)));
    cross(&mut session, NOW);
    assert_eq!(session.begin(NOW + 100 * MS), BeginStep::Grab);
}

#[test]
fn the_end_of_capture_releases_held_keys() {
    let mut session = capturing();
    let KeyboardStep::Send(events) = typed(&mut session, vec![key(30, 1), key(31, 1), key(31, 0)])
    else {
        panic!("nothing sent");
    };
    assert_eq!(events.len(), 3);
    assert_eq!(
        session.release_capture(),
        Some(vec![Event::KeyRelease { code: 30 }, Event::CaptureEnd])
    );
    assert_eq!(session.release_capture(), None);
    let (stale, work) = session.capture_released(&vec![None]);
    assert!(stale.is_empty());
    assert!(work.unlock && work.window == Some(0));
    assert!(!session.is_capturing());
    assert!(!session.rescanned(&vec![], &vec![]));
}

#[test]
fn keys_let_go_meanwhile_are_released_locally() {
    let mut session = session();
    cross(&mut session, NOW);
    session.begin(NOW);
    session.grabbed(5, 9, &keys(&[30, 42]), &vec![true], &vec![None]);
    session.release_capture();
    let (stale, _) = session.capture_released(&keys(&[42]));
    assert_eq!(stale, vec![30]);
}

#[test]
fn input_is_sent_only_while_capturing() {
    let motion = || Event::MouseMotion { dx: 1, dy: 2 };
    assert_eq!(session().input(motion()), None);
    assert_eq!(capturing().input(motion()), Some(motion()));
}

#[test]
fn cooldowns_climb_the_ladder() {
    assert_eq!(cooldown_ms(1), 300);
    assert_eq!(cooldown_ms(2), 1_000);
    assert_eq!(cooldown_ms(4), 1_000);
    assert_eq!(cooldown_ms(5), 5_000);
    assert_eq!(cooldown_ms(20), 5_000);
    assert_eq!(cooldown_ms(21), 30_000);
    assert_eq!(cooldown_ms(u32::MAX), 30_000);
}

#[test]
fn quick_releases_lengthen_the_cooldown() {
    let mut session = session();
    let mut now = NOW;
    for (i, expected) in [300, 1_000, 1_000, 1_000, 5_000].into_iter().enumerate() {
        session.back_off(now);
        assert_eq!(session.force_release_streak(), i as u32 + 1);
        assert!(refuses_until(&mut session, now + expected * MS));
        now += 999 * MS;
    }
    now += MS;
    session.back_off(now);
    assert_eq!(session.force_release_streak(), 1);
    assert!(refuses_until(&mut session, now + 300 * MS));
}

#[test]
fn long_streaks_wait_thirty_seconds() {
    let mut session = session();
    for _ in 0..21 {
        session.back_off(NOW);
    }
    assert!(refuses_until(&mut session, NOW + 30_000 * MS));
}

#[test]
fn a_lost_pointer_does_not_cross_until_the_cooldown_is_over() {
    let mut session = capturing();
    session.release_capture();
    session.capture_released(&vec![None]);
    session.back_off(NOW);
    let enter = PointerEvent::Enter { window: Some(0), surface_x: 0, surface_y: 0 };
    session.pointer_event(enter, NOW + 300 * MS - 1);
    assert_eq!(session.poll_event(), None);
    cross(&mut session, NOW + 300 * MS);
    assert_eq!(session.begin(NOW + 300 * MS), BeginStep::Grab);
}

#[test]
fn losing_the_last_keyboard_ends_capture() {
    let mut session = capturing();
    typed(&mut session, vec![key(30, 1)]);
    let step = session.keyboard_ready(ReadyKind::Device(0), &vec![Fetch::Failed]);
    let KeyboardStep::Lost(events) = step else {
        panic!("not lost");
    };
    assert_eq!(events, vec![Event::KeyRelease { code: 30 }, Event::CaptureEnd]);
    assert!(!session.is_capturing() && !session.has_keyboard());
}

#[test]
fn other_wakeups_wait_or_rescan() {
    let mut session = capturing();
    assert!(matches!(typed(&mut session, vec![]), KeyboardStep::Wait));
    let step = session.keyboard_ready(ReadyKind::Inotify, &vec![]);
    assert!(matches!(step, KeyboardStep::Rescan));
    session.rescanned(&vec![b"/k2".to_vec()], &vec![true]);
    let step = session.keyboard_ready(ReadyKind::Device(0), &vec![Fetch::Failed]);
    assert!(matches!(step, KeyboardStep::Wait));
    assert!(session.is_capturing());
}

#[test]
fn the_escape_chord_ends_capture() {
    let mut session = capturing();
    assert!(matches!(session.escape(), Escape::Nothing));
    typed(&mut session, vec![key(125, 1), key(50, 1)]);
    let Escape::Toggle(Some(events)) = session.escape() else {
        panic!("no toggle");
    };
    assert_eq!(events, vec![Event::KeyRelease { code: 125 }, Event::CaptureEnd]);
    assert!(matches!(session.escape(), Escape::Nothing));
}

#[test]
fn a_return_ends_capture_and_teaches_the_height() {
    let mut session = capturing();
    let event = Event::ReturnToSender { from_bottom: 400, source_height: 256 * 900 };
    let Received::Return { release, from_bottom } = session.received(event, 0) else {
        panic!("no return");
    };
    assert_eq!(release, Some(vec![Event::CaptureEnd]));
    assert_eq!(from_bottom, 400);
    session.capture_released(&vec![None]);
    // The edge is 1080 pixels long: its upper 180 pixels have no counterpart.
    let enter = |y: i32| PointerEvent::Enter { window: Some(0), surface_x: 0, surface_y: 256 * y };
    session.pointer_event(enter(179), NOW);
    assert_eq!(session.poll_event(), None);
    session.pointer_event(enter(180), NOW);
    assert_eq!(
        session.poll_event(),
        Some(CaptureEvent::Begin { from_bottom: 256 * 900, source_height: 256 * 1080 })
    );
}

#[test]
fn a_return_without_capture_releases_nothing() {
    let event = Event::ReturnToSender { from_bottom: 1, source_height: 2 };
    let Received::Return { release, .. } = session().received(event, 0) else {
        panic!("no return");
    };
    assert_eq!(release, None);
}

#[test]
fn clipboard_content_is_written() {
    let mut session = session();
    let text = Event::ClipboardData { text: "hi".to_string() };
    assert!(matches!(session.received(text, 1), Received::WriteText(t) if t == "hi"));
    let image = Event::ClipboardImage { format: "image/png".to_string(), data: vec![1] };
    assert!(matches!(
        session.received(image, 2),
        Received::WriteImage { format, data } if format == "image/png" && data == vec![1]
    ));
    let html = |plain: &str| Event::ClipboardHtml {
        html: "<p>a &amp; b</p>".to_string(),
        plain: plain.to_string(),
    };
    assert!(matches!(session.received(html("plain"), 3), Received::WriteText(t) if t == "plain"));
    assert!(matches!(session.received(html(""), 4), Received::WriteText(t) if t == "a & b"));
    assert!(matches!(session.received(Event::Heartbeat, 5), Received::Nothing));
    assert_eq!(session.offer_clipboard(Event::ClipboardData { text: String::new() }, 4), None);
}

#[test]
fn content_is_neither_resent_nor_echoed() {
    let mut session = session();
    let content = || Event::ClipboardData { text: "hi".to_string() };
    assert_eq!(session.offer_clipboard(content(), 7), Some(content()));
    assert_eq!(session.offer_clipboard(content(), 7), None);
    session.received(content(), 8);
    assert_eq!(session.offer_clipboard(content(), 8), None);
    assert_eq!(session.offer_clipboard(content(), 7), Some(content()));
}

#[test]
fn the_richest_content_wins() {
    let image = || Some(("image/png".to_string(), vec![1]));
    let html = || Some(("<b>".to_string(), "b".to_string()));
    let text = || Some("t".to_string());
    assert!(matches!(
        preferred_content(image(), html(), text()),
        Some(Event::ClipboardImage { .. })
    ));
    assert!(matches!(
        preferred_content(None, html(), text()),
        Some(Event::ClipboardHtml { .. })
    ));
    assert!(matches!(
        preferred_content(None, None, text()),
        Some(Event::ClipboardData { .. })
    ));
    assert_eq!(preferred_content(None, None, None), None);
}

#[test]
fn content_is_capped() {
    let text = |n: usize| Event::ClipboardData { text: "x".repeat(n) };
    assert!(within_cap(&text(0x10_0000)));
    assert!(!within_cap(&text(0x10_0001)));
    let accents = Event::ClipboardData { text: "é".repeat(0x8_0001) };
    assert!(!within_cap(&accents));
    let image = |n: usize| Event::ClipboardImage { format: String::new(), data: vec![0; n] };
    assert!(within_cap(&image(0x200_0000 - 7)));
    assert!(!within_cap(&image(0x200_0000 - 6)));
    let sent = |n: usize| Message::ClipboardImage { format: String::new(), data: vec![0; n] };
    assert!(encode(&sent(0x200_0000 - 7)).is_some());
    assert!(encode(&sent(0x200_0000 - 6)).is_none());
    let html = |n: usize| Event::ClipboardHtml { html: "h".repeat(n), plain: "p".to_string() };
    assert!(within_cap(&html(0x200_0000 - 10)));
    assert!(!within_cap(&html(0x200_0000 - 9)));
}

#[test]
fn three_unanswered_heartbeats_kill_the_connection() {
    let mut session = capturing();
    for _ in 0..3 {
        assert!(matches!(session.heartbeat_due(), Beat::Send));
    }
    assert!(session.is_capturing());
    let Beat::Dead(Some(events), course) = session.heartbeat_due() else {
        panic!("alive");
    };
    assert_eq!(events, vec![Event::CaptureEnd]);
    assert_eq!(course, Course::HangUp { pause_ms: 1_000 });
    assert!(!session.is_capturing());
}

#[test]
fn an_answer_keeps_the_connection_alive() {
    let mut session = session();
    for _ in 0..100 {
        assert!(matches!(session.heartbeat_due(), Beat::Send));
        session.received(Event::HeartbeatAck, 0);
    }
    for _ in 0..3 {
        session.heartbeat_due();
    }
    session.connected(NOW);
    for _ in 0..3 {
        assert!(matches!(session.heartbeat_due(), Beat::Send));
    }
    assert!(matches!(session.heartbeat_due(), Beat::Dead(None, _)));
}

#[test]
fn no_heartbeat_may_be_missed_at_a_threshold_of_none() {
    let heartbeat =
        HeartbeatConfig { active_interval_ms: 1, idle_interval_ms: 2, miss_threshold: 0 };
    let mut session = Session::new(pointer(), keyboards(), heartbeat);
    assert!(matches!(session.heartbeat_due(), Beat::Dead(None, _)));
}

#[test]
fn trouble_ends_capture_and_sets_the_course() {
    let courses = [
        (Trouble::NotSent, Course::Reconnect),
        (Trouble::NotReceived, Course::HangUp { pause_ms: 1_000 }),
        (Trouble::HeartbeatsMissed, Course::HangUp { pause_ms: 1_000 }),
        (Trouble::CompositorLost, Course::Exit { clean: false }),
        (Trouble::Terminated, Course::Exit { clean: true }),
    ];
    for (trouble, course) in courses {
        let mut session = capturing();
        typed(&mut session, vec![key(30, 1)]);
        let events = vec![Event::KeyRelease { code: 30 }, Event::CaptureEnd];
        assert_eq!(session.trouble(trouble), (Some(events), course));
        assert!(!session.is_capturing());
        session.capture_released(&vec![None]);
        assert_eq!(session.trouble(trouble), (None, course));
    }
}

#[test]
fn super_held_across_the_crossing_counts_for_the_chord() {
    let mut session = session();
    cross(&mut session, NOW);
    session.begin(NOW);
    session.grabbed(5, 9, &keys(&[125]), &vec![true], &keys(&[125]));
    assert!(matches!(typed(&mut session, vec![key(50, 1)]), KeyboardStep::Wait));
    let Escape::Toggle(Some(events)) = session.escape() else {
        panic!("no toggle");
    };
    assert_eq!(events, vec![Event::KeyRelease { code: 125 }, Event::CaptureEnd]);
}

#[test]
fn a_modifier_that_was_down_at_the_crossing_is_released_when_it_is_let_go() {
    let mut session = session();
    cross(&mut session, NOW);
    session.begin(NOW);
    session.grabbed(5, 9, &keys(&[42]), &vec![true], &keys(&[42]));
    let KeyboardStep::Send(events) = typed(&mut session, vec![key(42, 0)]) else {
        panic!("nothing sent");
    };
    assert_eq!(events, vec![Event::KeyRelease { code: 42 }]);
    assert_eq!(session.release_capture(), Some(vec![Event::CaptureEnd]));
}

#[test]
fn heartbeats_are_frequent_only_while_capturing() {
    let mut session = session();
    assert_eq!(session.heartbeat_ms(), 5000);
    session.connected(0);
    assert_eq!(session.heartbeat_ms(), 5000);
    // A failed grab.
    cross(&mut session, NOW);
    assert_eq!(session.begin(NOW), BeginStep::Grab);
    session.grabbed(5, 9, &vec![None], &vec![false], &vec![None]);
    assert_eq!(session.heartbeat_ms(), 5000);
    // A release by the compositor.
    let mut session = capturing();
    assert_eq!(session.heartbeat_ms(), 1000);
    session.release_capture();
    session.capture_released(&vec![None]);
    session.back_off(NOW);
    assert_eq!(session.heartbeat_ms(), 5000);
    // A lost keyboard.
    let mut session = capturing();
    session.keyboard_ready(ReadyKind::Device(0), &vec![Fetch::Failed]);
    assert_eq!(session.heartbeat_ms(), 5000);
    // The escape chord.
    let mut session = capturing();
    typed(&mut session, vec![key(125, 1), key(50, 1)]);
    assert_eq!(session.heartbeat_ms(), 1000);
    session.escape();
    assert_eq!(session.heartbeat_ms(), 5000);
    // A return.
    let mut session = capturing();
    session.received(Event::ReturnToSender { from_bottom: 1, source_height: 2 }, 0);
    session.capture_released(&vec![None]);
    session.returned(NOW);
    assert_eq!(session.heartbeat_ms(), 5000);
}
