use styx::geometry::{
    can_return, combined_span, return_point, turned, Anchor, Edge, MonitorGeometry,
};

fn monitor(x: i32, y: i32, width: i32, height: i32) -> MonitorGeometry {
    MonitorGeometry { x, y, width, height }
}

#[test]
fn surfaces_are_anchored_to_all_sides_but_the_opposite_one() {
    assert_eq!(
        Edge::Left.anchor(),
        Anchor { top: true, bottom: true, left: true, right: false }
    );
    assert_eq!(
        Edge::Right.anchor(),
        Anchor { top: true, bottom: true, left: false, right: true }
    );
    assert_eq!(
        Edge::Top.anchor(),
        Anchor { top: true, bottom: false, left: true, right: true }
    );
    assert_eq!(
        Edge::Bottom.anchor(),
        Anchor { top: false, bottom: true, left: true, right: true }
    );
}

#[test]
fn spans_unite() {
    let stacked = vec![monitor(0, 0, 1920, 1080), monitor(100, 1080, 2560, 1440)];
    assert_eq!(combined_span(&stacked, Edge::Left), Some((0, 2520)));
    assert_eq!(combined_span(&stacked, Edge::Top), Some((0, 2660)));
    let apart = vec![monitor(0, 500, 10, 100), monitor(0, -200, 10, 100)];
    assert_eq!(combined_span(&apart, Edge::Right), Some((-200, 600)));
    assert_eq!(combined_span(&Vec::new(), Edge::Left), None);
}

#[test]
fn a_span_is_that_of_some_monitors() {
    let one = vec![monitor(3, 4, 50, 60)];
    assert_eq!(combined_span(&one, Edge::Bottom), Some((3, 53)));
    assert_eq!(combined_span(&one, Edge::Right), Some((4, 64)));
}

#[test]
fn the_cursor_returns_at_the_same_distance_from_the_bottom() {
    // A portrait monitor of 1920 pixels; the top of a display of 956 points is about
    // halfway up.
    let portrait = vec![monitor(0, 0, 1080, 1920)];
    assert_eq!(return_point(&portrait, Edge::Left, 956), Some((2, 964)));
    assert_eq!(return_point(&portrait, Edge::Right, 956), Some((1078, 964)));
    assert_eq!(return_point(&portrait, Edge::Left, 1), Some((2, 1919)));
}

#[test]
fn the_bottom_returns_to_the_bottom() {
    let portrait = vec![monitor(0, 0, 1080, 1920)];
    assert_eq!(return_point(&portrait, Edge::Left, 0), Some((2, 1919)));
    assert_eq!(return_point(&portrait, Edge::Left, -5), Some((2, 1919)));
}

#[test]
fn beyond_the_top_returns_to_the_top() {
    let portrait = vec![monitor(0, 100, 1080, 1920)];
    assert_eq!(return_point(&portrait, Edge::Left, 1920), Some((2, 100)));
    assert_eq!(return_point(&portrait, Edge::Left, 5000), Some((2, 100)));
}

#[test]
fn horizontal_edges_align_at_the_right() {
    let wide = vec![monitor(10, 20, 2000, 1000)];
    assert_eq!(return_point(&wide, Edge::Top, 500), Some((1510, 22)));
    assert_eq!(return_point(&wide, Edge::Bottom, 500), Some((1510, 1018)));
}

#[test]
fn the_cursor_lands_on_the_monitor_that_covers_the_place() {
    let stacked = vec![monitor(0, 0, 1920, 1080), monitor(100, 1080, 2560, 1440)];
    // The far end is 2520.
    assert_eq!(return_point(&stacked, Edge::Left, 1440), Some((102, 1080)));
    assert_eq!(return_point(&stacked, Edge::Left, 1441), Some((2, 1079)));
}

#[test]
fn in_a_gap_the_nearest_middle_wins() {
    let apart = vec![monitor(0, 0, 100, 100), monitor(500, 300, 100, 100)];
    // The far end is 400; 250 pixels up is 150: 100 from the first middle, 200 from the
    // second.
    assert_eq!(return_point(&apart, Edge::Left, 250), Some((2, 99)));
    assert_eq!(return_point(&apart, Edge::Left, 150), Some((502, 300)));
    // Halfway, the first one wins.
    assert_eq!(return_point(&apart, Edge::Left, 200), Some((2, 99)));
}

#[test]
fn there_is_no_way_back_without_monitors() {
    assert_eq!(return_point(&Vec::new(), Edge::Left, 10), None);
}

#[test]
fn overlapping_monitors_give_the_first() {
    let mirrored = vec![monitor(0, 0, 100, 100), monitor(900, 0, 100, 100)];
    assert_eq!(return_point(&mirrored, Edge::Left, 50), Some((2, 50)));
}

#[test]
fn quarter_turns_swap_width_and_height() {
    for transform in [0, 2, 4, 6] {
        assert_eq!(turned(1920, 1080, transform), (1920, 1080));
    }
    for transform in [1, 3, 5, 7] {
        assert_eq!(turned(1920, 1080, transform), (1080, 1920));
    }
}

#[test]
fn the_cursor_returns_only_where_there_is_room() {
    assert!(can_return(&Vec::new(), Edge::Left, 10));
    assert!(can_return(&vec![monitor(0, 0, 0, 100)], Edge::Left, 10));
    assert!(!can_return(&vec![monitor(0, 0, 100, 0)], Edge::Left, 10));
    assert!(!can_return(&vec![monitor(i32::MAX, 0, 100, 100)], Edge::Left, 10));
    assert!(!can_return(&vec![monitor(0, i32::MAX, 100, 100)], Edge::Left, 10));
    // The cursor lands on the second monitor.
    let flat = vec![monitor(0, 0, 100, 0), monitor(0, 0, 100, 100)];
    assert!(can_return(&flat, Edge::Left, 10));
}

#[test]
fn ends_are_checked_along_the_edge() {
    assert!(monitor(i32::MAX, 0, 1, 100).ends_in_range(Edge::Left));
    assert!(!monitor(i32::MAX, 0, 1, 100).ends_in_range(Edge::Top));
    assert!(!monitor(0, i32::MIN, 1, -1).ends_in_range(Edge::Right));
}
