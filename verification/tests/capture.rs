use styx::capture::{
    draw_surface, find_output, output_bind_version, seat_work, surface_layout, Capture,
    CaptureError, GrabWork, OutputInfo, OutputUpdate, PointerEvent, PointerWork, SeatWork, SurfaceLayout,
    UngrabWork,
};
use styx::event::{CaptureEvent, Event};
use styx::geometry::{return_point, Edge, MonitorGeometry};

const SECOND: u64 = 1_000_000_000;

fn output(name: &str, description: &str, x: i32, y: i32, width: i32, height: i32) -> OutputInfo {
    let mut info = OutputInfo::new();
    info.update(OutputUpdate::Name(name.to_string()));
    info.update(OutputUpdate::Description(description.to_string()));
    info.update(OutputUpdate::LogicalPosition { x, y });
    info.update(OutputUpdate::LogicalSize { width, height });
    info.update(OutputUpdate::Other);
    info
}

fn outputs() -> Vec<OutputInfo> {
    vec![
        output("HDMI-A-1", "Dell Inc. U2720Q", 0, 0, 1920, 1080),
        output("DP-1", "LG Display", 0, 1080, 2560, 1440),
    ]
}

fn capture(edge: Edge) -> Capture {
    let monitors = vec!["HDMI-A-1".to_string(), "LG".to_string()];
    Capture::new(&monitors, &outputs(), edge, true).ok().unwrap()
}

/// Whether the pointer is grabbed: what letting it go would undo.
fn is_grabbed(capture: &mut Capture) -> bool {
    capture.release().unlock
}

fn enter(window: usize, x: i32, y: i32) -> PointerEvent {
    PointerEvent::Enter { window: Some(window), surface_x: 256 * x, surface_y: 256 * y }
}

#[test]
fn outputs_are_told_piece_by_piece() {
    let fresh = OutputInfo::new();
    assert_eq!(fresh.name, "");
    assert_eq!(fresh.geometry, MonitorGeometry { x: 0, y: 0, width: 0, height: 0 });
    let info = output("DP-1", "LG", 1, 2, 3, 4);
    assert_eq!(info.name, "DP-1");
    assert_eq!(info.description, "LG");
    assert_eq!(info.geometry, MonitorGeometry { x: 1, y: 2, width: 3, height: 4 });
}

#[test]
fn outputs_are_found_by_name_and_description() {
    let all = outputs();
    assert_eq!(find_output(&all, &"DP-1".to_string()), Some(1));
    assert_eq!(find_output(&all, &"U2720Q".to_string()), Some(0));
    assert_eq!(find_output(&all, &"D".to_string()), Some(0));
    assert_eq!(find_output(&all, &"DP".to_string()), None);
}

#[test]
fn a_name_wins_over_a_description() {
    let all = vec![
        output("DP-10", "Dell (DP-10)", 0, 0, 100, 100),
        output("DP-1", "LG (DP-1)", 0, 100, 100, 100),
        output("DP-2", "DP-1", 0, 200, 100, 100),
    ];
    assert_eq!(find_output(&all, &"DP-1".to_string()), Some(1));
    let capture = Capture::new(&vec!["DP-1".to_string()], &all, Edge::Left, true).ok().unwrap();
    assert_eq!(capture.targets().clone(), vec![1]);
}

#[test]
fn only_outputs_are_bound() {
    assert_eq!(output_bind_version("wl_output", 3), Some(3));
    assert_eq!(output_bind_version("wl_output", 9), Some(4));
    assert_eq!(output_bind_version("wl_seat", 3), None);
}

#[test]
fn capture_without_monitors_is_refused() {
    let error = Capture::new(&Vec::new(), &outputs(), Edge::Left, true).err().unwrap();
    assert_eq!(error, CaptureError::NoMonitors);
    assert_eq!(error.message(), "no monitors configured for capture");
}

#[test]
fn capture_on_an_unknown_monitor_is_refused() {
    let monitors = vec!["DP-1".to_string(), "DP-7".to_string(), "DP-8".to_string()];
    let error = Capture::new(&monitors, &outputs(), Edge::Left, true).err().unwrap();
    assert_eq!(error, CaptureError::MonitorNotFound("DP-7".to_string()));
    assert_eq!(error.message(), "monitor 'DP-7' not found");
}

#[test]
fn windows_stand_on_the_monitors_in_their_order() {
    let monitors = vec!["LG".to_string(), "HDMI-A-1".to_string()];
    let capture = Capture::new(&monitors, &outputs(), Edge::Left, false).ok().unwrap();
    assert_eq!(capture.targets().clone(), vec![1, 0]);
    assert_eq!(capture.windows()[0], outputs()[1].geometry);
}

#[test]
fn surfaces_are_one_pixel_wide() {
    let geometry = MonitorGeometry { x: 5, y: 6, width: 1920, height: 1080 };
    assert_eq!(
        surface_layout(&geometry, Edge::Left),
        SurfaceLayout { width: 1, height: 1080, stride: 4, pool_size: 4320 }
    );
    assert_eq!(
        surface_layout(&geometry, Edge::Bottom),
        SurfaceLayout { width: 1920, height: 1, stride: 7680, pool_size: 7680 }
    );
}

#[test]
fn surfaces_are_clear_unless_debugged() {
    assert_eq!(draw_surface(1, 3, false), vec![0, 0, 0]);
    assert_eq!(draw_surface(2, 1, true), vec![0xff11d116, 0xff11d116]);
    assert_eq!(draw_surface(0, 5, true), Vec::<u32>::new());
}

#[test]
fn an_entry_grabs_and_reports_the_crossing() {
    let mut capture = capture(Edge::Left);
    let work = capture.pointer_event(enter(1, 0, 100), 0);
    assert_eq!(
        work,
        PointerWork::Grab(GrabWork { window: 1, lock: true, relative: true, inhibit: true })
    );
    // The edge ends at 2520; the pointer is at 1180.
    assert_eq!(
        capture.poll_event(),
        Some(CaptureEvent::Begin { from_bottom: 256 * 1340, source_height: 256 * 2520 })
    );
    assert_eq!(capture.poll_event(), None);
    assert!(is_grabbed(&mut capture));
}

#[test]
fn a_second_entry_creates_nothing_again() {
    let mut capture = capture(Edge::Left);
    capture.pointer_event(enter(1, 0, 100), 0);
    assert_eq!(
        capture.pointer_event(enter(0, 0, 100), 0),
        PointerWork::Grab(GrabWork { window: 0, lock: false, relative: false, inhibit: false })
    );
    assert_eq!(capture.release().window, Some(0));
}

#[test]
fn horizontal_edges_measure_from_the_right() {
    let mut capture = capture(Edge::Top);
    capture.pointer_event(enter(0, 1000, 0), 0);
    assert_eq!(
        capture.poll_event(),
        Some(CaptureEvent::Begin { from_bottom: 256 * 1560, source_height: 256 * 2560 })
    );
}

#[test]
fn fractions_of_pixels_are_kept() {
    let mut capture = capture(Edge::Left);
    let event = PointerEvent::Enter { window: Some(1), surface_x: 0, surface_y: 25_601 };
    capture.pointer_event(event, 0);
    assert_eq!(
        capture.poll_event(),
        Some(CaptureEvent::Begin { from_bottom: 256 * 1340 - 1, source_height: 256 * 2520 })
    );
}

#[test]
fn entries_of_other_surfaces_are_ignored() {
    let mut capture = capture(Edge::Left);
    let event = PointerEvent::Enter { window: None, surface_x: 0, surface_y: 0 };
    assert_eq!(capture.pointer_event(event, 0), PointerWork::Nothing);
    assert_eq!(capture.poll_event(), None);
}

#[test]
fn crossing_above_the_other_machine_is_blocked() {
    let mut capture = capture(Edge::Left);
    capture.set_max_from_bottom(256 * 1340);
    assert_eq!(capture.pointer_event(enter(1, 0, 99), 0), PointerWork::Nothing);
    assert_eq!(capture.poll_event(), None);
    assert!(!is_grabbed(&mut capture));
    assert_ne!(capture.pointer_event(enter(1, 0, 100), 0), PointerWork::Nothing);
    assert!(is_grabbed(&mut capture));
}

#[test]
fn suppressed_entries_are_absorbed() {
    let mut capture = capture(Edge::Left);
    capture.pointer_event(enter(0, 0, 1), 0);
    capture.poll_event();
    assert_eq!(
        capture.suppress_grab_until(5 * SECOND),
        UngrabWork { window: Some(0), unlock: true, unrelative: true, uninhibit: true }
    );
    assert_eq!(capture.pointer_event(enter(0, 0, 1), 5 * SECOND - 1), PointerWork::Nothing);
    assert_eq!(capture.poll_event(), None);
    assert!(!is_grabbed(&mut capture));
    assert_ne!(capture.pointer_event(enter(0, 0, 1), 5 * SECOND), PointerWork::Nothing);
    // The suppression is over for good.
    assert_ne!(capture.pointer_event(enter(0, 0, 1), 0), PointerWork::Nothing);
}

#[test]
fn a_lost_grab_is_reported_and_undone() {
    let mut capture = capture(Edge::Left);
    capture.pointer_event(enter(0, 0, 1), 0);
    capture.poll_event();
    assert_eq!(
        capture.pointer_event(PointerEvent::Leave, 0),
        PointerWork::Ungrab(UngrabWork {
            window: Some(0),
            unlock: true,
            unrelative: true,
            uninhibit: true
        })
    );
    assert_eq!(capture.poll_event(), Some(CaptureEvent::Released));
    assert_eq!(
        capture.pointer_event(PointerEvent::Leave, 0),
        PointerWork::Ungrab(UngrabWork {
            window: None,
            unlock: false,
            unrelative: false,
            uninhibit: false
        })
    );
    assert_eq!(capture.poll_event(), None);
}

#[test]
fn a_release_is_not_reported() {
    let mut capture = capture(Edge::Left);
    capture.pointer_event(enter(0, 0, 1), 0);
    capture.poll_event();
    assert!(capture.release().unlock);
    assert_eq!(capture.poll_event(), None);
    assert_eq!(
        capture.release(),
        UngrabWork { window: None, unlock: false, unrelative: false, uninhibit: false }
    );
}

#[test]
fn shortcuts_are_inhibited_only_where_they_can_be() {
    let monitors = vec!["DP-1".to_string()];
    let mut capture = Capture::new(&monitors, &outputs(), Edge::Left, false).ok().unwrap();
    assert_eq!(
        capture.pointer_event(enter(0, 0, 1), 0),
        PointerWork::Grab(GrabWork { window: 0, lock: true, relative: true, inhibit: false })
    );
    assert!(!capture.release().uninhibit);
}

#[test]
fn input_is_reported_while_grabbed() {
    let mut capture = capture(Edge::Left);
    capture.pointer_event(enter(0, 0, 1), 0);
    capture.poll_event();
    capture.relative_motion(256, -512);
    capture.pointer_event(PointerEvent::Button { button: 272, state: 1 }, 0);
    capture.pointer_event(PointerEvent::Axis { axis: 0, value: 2560 }, 0);
    capture.pointer_event(PointerEvent::Other, 0);
    assert_eq!(
        capture.poll_event(),
        Some(CaptureEvent::Input(Event::MouseMotion { dx: 256, dy: -512 }))
    );
    assert_eq!(
        capture.poll_event(),
        Some(CaptureEvent::Input(Event::MouseButton { button: 272, state: 1 }))
    );
    assert_eq!(
        capture.poll_event(),
        Some(CaptureEvent::Input(Event::MouseScroll { axis: 0, value: 2560 }))
    );
    assert_eq!(capture.poll_event(), None);
}

#[test]
fn input_is_not_reported_otherwise() {
    let mut capture = capture(Edge::Left);
    capture.relative_motion(1, 1);
    capture.pointer_event(PointerEvent::Button { button: 272, state: 1 }, 0);
    capture.pointer_event(PointerEvent::Axis { axis: 0, value: 2560 }, 0);
    capture.pointer_event(PointerEvent::AxisValue120 { axis: 0, value120: 120 }, 0);
    assert_eq!(capture.poll_event(), None);
}

#[test]
fn a_discrete_step_is_reported_once() {
    let mut capture = capture(Edge::Left);
    capture.pointer_event(enter(0, 0, 1), 0);
    capture.poll_event();
    capture.pointer_event(PointerEvent::AxisValue120 { axis: 1, value120: -120 }, 0);
    capture.pointer_event(PointerEvent::Axis { axis: 1, value: -3840 }, 0);
    capture.pointer_event(PointerEvent::Axis { axis: 1, value: -100 }, 0);
    assert_eq!(
        capture.poll_event(),
        Some(CaptureEvent::Input(Event::MouseScroll { axis: 1, value: -120 * 256 }))
    );
    assert_eq!(
        capture.poll_event(),
        Some(CaptureEvent::Input(Event::MouseScroll { axis: 1, value: -100 }))
    );
    assert_eq!(capture.poll_event(), None);
}

#[test]
fn wide_numbers_are_cut_to_a_byte() {
    let mut capture = capture(Edge::Left);
    capture.pointer_event(enter(0, 0, 1), 0);
    capture.poll_event();
    capture.pointer_event(PointerEvent::Button { button: 1, state: 0x101 }, 0);
    capture.pointer_event(PointerEvent::Axis { axis: 0x102, value: 1 }, 0);
    assert_eq!(
        capture.poll_event(),
        Some(CaptureEvent::Input(Event::MouseButton { button: 1, state: 1 }))
    );
    assert_eq!(
        capture.poll_event(),
        Some(CaptureEvent::Input(Event::MouseScroll { axis: 2, value: 1 }))
    );
}

#[test]
fn a_new_pointer_replaces_the_old_one() {
    assert_eq!(
        seat_work(true, false, true),
        SeatWork { release_pointer: false, get_pointer: false, get_keyboard: true }
    );
    assert_eq!(
        seat_work(false, true, false),
        SeatWork { release_pointer: false, get_pointer: true, get_keyboard: false }
    );
    assert_eq!(
        seat_work(true, true, true),
        SeatWork { release_pointer: true, get_pointer: true, get_keyboard: true }
    );
}

#[test]
fn the_way_back_meets_the_way_out() {
    for (window, pixel) in [(0, 0), (0, 1079), (1, 0), (1, 700), (1, 1439)] {
        let mut capture = capture(Edge::Left);
        capture.pointer_event(enter(window, 0, pixel), 0);
        let Some(CaptureEvent::Begin { from_bottom, .. }) = capture.poll_event() else {
            panic!("no crossing");
        };
        let back = return_point(capture.windows(), Edge::Left, (from_bottom / 256) as i32);
        assert_eq!(back, Some((2, capture.windows()[window].y + pixel)));
    }
}
