//! Screen edges, the span that several monitors share along an edge, and the place at
//! which the cursor comes back.
use vstd::prelude::*;

verus! {

/// The side of the monitors at which the pointer crosses over.
#[derive(Debug, Clone, Copy, PartialEq, Eq, Structural)]
pub enum Edge {
    Left,
    Right,
    Top,
    Bottom,
}

/// The sides of an output that a layer surface is anchored to.
#[derive(Debug, Clone, Copy, PartialEq, Eq, Structural)]
pub struct Anchor {
    pub top: bool,
    pub bottom: bool,
    pub left: bool,
    pub right: bool,
}

/// Position and size of a monitor in logical coordinates.
#[derive(Debug, Clone, Copy, PartialEq, Eq, Structural)]
pub struct MonitorGeometry {
    pub x: i32,
    pub y: i32,
    pub width: i32,
    pub height: i32,
}

impl Edge {
    /// Left and right edges run down the screen, top and bottom edges across it.
    pub open spec fn is_vertical(self) -> bool {
        self is Left || self is Right
    }

    /// A surface along an edge is anchored to every side but the opposite one.
    pub fn anchor(&self) -> (a: Anchor)
        ensures
            a.left == (*self != Edge::Right),
            a.right == (*self != Edge::Left),
            a.top == (*self != Edge::Bottom),
            a.bottom == (*self != Edge::Top),
    {
        match self {
            Edge::Left => Anchor { top: true, bottom: true, left: true, right: false },
            Edge::Right => Anchor { top: true, bottom: true, left: false, right: true },
            Edge::Top => Anchor { top: true, bottom: false, left: true, right: true },
            Edge::Bottom => Anchor { top: false, bottom: true, left: true, right: true },
        }
    }
}

impl MonitorGeometry {
    /// Where the monitor starts, along the edge.
    pub open spec fn start(self, edge: Edge) -> int {
        if edge.is_vertical() {
            self.y as int
        } else {
            self.x as int
        }
    }

    /// How far the monitor reaches, along the edge.
    pub open spec fn extent(self, edge: Edge) -> int {
        if edge.is_vertical() {
            self.height as int
        } else {
            self.width as int
        }
    }

    /// Where the monitor ends, along the edge: the first coordinate past it.
    pub open spec fn end(self, edge: Edge) -> int {
        self.start(edge) + self.extent(edge)
    }

    /// The monitor's end is a coordinate.
    pub open spec fn end_fits(self, edge: Edge) -> bool {
        i32::MIN <= self.end(edge) <= i32::MAX
    }

    /// Whether a coordinate along the edge lies on the monitor.
    pub open spec fn covers(self, edge: Edge, at: int) -> bool {
        self.start(edge) <= at < self.end(edge)
    }

    /// The monitor's middle, along the edge.
    pub open spec fn middle(self, edge: Edge) -> int {
        self.start(edge) + half(self.extent(edge))
    }

    /// How far a coordinate along the edge is from the monitor's middle.
    pub open spec fn distance(self, edge: Edge, at: int) -> int {
        if self.middle(edge) >= at {
            self.middle(edge) - at
        } else {
            at - self.middle(edge)
        }
    }

    /// `start`, computed.
    pub fn start_along(&self, edge: Edge) -> (r: i32)
        ensures
            r == self.start(edge),
    {
        match edge {
            Edge::Left | Edge::Right => self.y,
            Edge::Top | Edge::Bottom => self.x,
        }
    }

    /// `extent`, computed.
    pub fn extent_along(&self, edge: Edge) -> (r: i32)
        ensures
            r == self.extent(edge),
    {
        match edge {
            Edge::Left | Edge::Right => self.height,
            Edge::Top | Edge::Bottom => self.width,
        }
    }

    /// `end_fits`, computed.
    pub fn ends_in_range(&self, edge: Edge) -> (b: bool)
        ensures
            b == self.end_fits(edge),
    {
        let end: i64 = self.start_along(edge) as i64 + self.extent_along(edge) as i64;
        end >= i32::MIN as i64 && end <= i32::MAX as i64
    }
}

/// The width and the height of a monitor as it is turned. Its transform counts quarter turns,
/// and from four on they are mirrored.
pub fn turned(width: i32, height: i32, transform: u32) -> (size: (i32, i32))
    ensures
        size == (if transform % 2 == 1 {
            (height, width)
        } else {
            (width, height)
        }),
{
    if transform % 2 == 1 {
        (height, width)
    } else {
        (width, height)
    }
}

/// Half of a length, rounded towards zero.
pub open spec fn half(n: int) -> int {
    if n >= 0 {
        n / 2
    } else {
        -((-n) / 2)
    }
}

/// The least start of any of the monitors, along the edge.
pub open spec fn near_end(monitors: Seq<MonitorGeometry>, edge: Edge) -> int
    decreases monitors.len(),
{
    if monitors.len() <= 1 {
        monitors[0].start(edge)
    } else {
        let rest = near_end(monitors.drop_last(), edge);
        if monitors.last().start(edge) < rest {
            monitors.last().start(edge)
        } else {
            rest
        }
    }
}

/// The greatest end of any of the monitors, along the edge.
pub open spec fn far_end(monitors: Seq<MonitorGeometry>, edge: Edge) -> int
    decreases monitors.len(),
{
    if monitors.len() <= 1 {
        monitors[0].end(edge)
    } else {
        let rest = far_end(monitors.drop_last(), edge);
        if monitors.last().end(edge) > rest {
            monitors.last().end(edge)
        } else {
            rest
        }
    }
}

/// The combined span of monitors is the least one that holds them all: it starts where
/// some monitor starts and ends where some monitor ends, and no monitor reaches out of it.
pub proof fn combined_span_is_tight(monitors: Seq<MonitorGeometry>, edge: Edge)
    requires
        monitors.len() > 0,
    ensures
        forall|i: int|
            0 <= i < monitors.len() ==> near_end(monitors, edge)
                <= #[trigger] monitors[i].start(edge) && monitors[i].end(edge) <= far_end(
                monitors,
                edge,
            ),
        exists|i: int|
            0 <= i < monitors.len() && #[trigger] monitors[i].start(edge) == near_end(
                monitors,
                edge,
            ),
        exists|i: int|
            0 <= i < monitors.len() && #[trigger] monitors[i].end(edge) == far_end(monitors, edge),
    decreases monitors.len(),
{
    if monitors.len() == 1 {
        assert(monitors[0].start(edge) == near_end(monitors, edge));
        assert(monitors[0].end(edge) == far_end(monitors, edge));
    } else {
        let rest = monitors.drop_last();
        combined_span_is_tight(rest, edge);
        let last = monitors.len() - 1;
        let s = choose|i: int|
            0 <= i < rest.len() && #[trigger] rest[i].start(edge) == near_end(rest, edge);
        let e = choose|i: int|
            0 <= i < rest.len() && #[trigger] rest[i].end(edge) == far_end(rest, edge);
        assert(monitors[s] == rest[s] && monitors[e] == rest[e]);
        assert(monitors[s].start(edge) == near_end(monitors, edge) || monitors[last].start(edge)
            == near_end(monitors, edge));
        assert(monitors[e].end(edge) == far_end(monitors, edge) || monitors[last].end(edge)
            == far_end(monitors, edge));
        assert forall|i: int| 0 <= i < monitors.len() implies near_end(monitors, edge)
            <= #[trigger] monitors[i].start(edge) && monitors[i].end(edge) <= far_end(
            monitors,
            edge,
        ) by {
            if i < last {
                assert(monitors[i] == rest[i]);
                assert(near_end(rest, edge) <= rest[i].start(edge));
            }
        }
    }
}

/// The union of the spans that the monitors have along the edge, as its start and its
/// end: the vertical span for left and right edges, the horizontal one for top and bottom
/// edges. There is none of no monitors.
pub fn combined_span(monitors: &Vec<MonitorGeometry>, edge: Edge) -> (span: Option<(i32, i32)>)
    requires
        forall|i: int| 0 <= i < monitors@.len() ==> (#[trigger] monitors@[i]).end_fits(edge),
    ensures
        span is None <==> monitors@.len() == 0,
        span matches Some((start, end)) ==> start == near_end(monitors@, edge) && end == far_end(
            monitors@,
            edge,
        ),
{
    if monitors.len() == 0 {
        return None;
    }
    let mut low: i32 = monitors[0].start_along(edge);
    assert(monitors@[0].end_fits(edge));
    let mut high: i32 = low + monitors[0].extent_along(edge);
    let mut i: usize = 1;
    assert(monitors@.take(1) =~= seq![monitors@[0]]);
    while i < monitors.len()
        invariant
            1 <= i <= monitors@.len(),
            forall|i: int| 0 <= i < monitors@.len() ==> (#[trigger] monitors@[i]).end_fits(edge),
            low == near_end(monitors@.take(i as int), edge),
            high == far_end(monitors@.take(i as int), edge),
        decreases monitors@.len() - i,
    {
        let a: i32 = monitors[i].start_along(edge);
        assert(monitors@[i as int].end_fits(edge));
        let b: i32 = a + monitors[i].extent_along(edge);
        assert(monitors@.take(i + 1).drop_last() =~= monitors@.take(i as int));
        if a < low {
            low = a;
        }
        if b > high {
            high = b;
        }
        i += 1;
    }
    assert(monitors@.take(i as int) =~= monitors@);
    Some((low, high))
}

/// How far inside the monitor, from the crossing edge, the cursor is put back.
pub const EDGE_INSET: i32 = 2;

/// Whether monitor `i` is the one on which a coordinate along the edge lands: the first
/// that covers it, and where none does, the first of those whose middle is nearest.
pub open spec fn lands_on(monitors: Seq<MonitorGeometry>, edge: Edge, at: int, i: int) -> bool {
    &&& 0 <= i < monitors.len()
    &&& if exists|k: int| 0 <= k < monitors.len() && (#[trigger] monitors[k]).covers(edge, at) {
        &&& monitors[i].covers(edge, at)
        &&& forall|k: int| 0 <= k < i ==> !(#[trigger] monitors[k]).covers(edge, at)
    } else {
        &&& forall|k: int|
            0 <= k < monitors.len() ==> monitors[i].distance(edge, at)
                <= (#[trigger] monitors[k]).distance(edge, at)
        &&& forall|k: int|
            0 <= k < i ==> monitors[i].distance(edge, at) < (#[trigger] monitors[k]).distance(
                edge,
                at,
            )
    }
}

impl MonitorGeometry {
    /// The coordinate along the edge that is nearest to `at` on the monitor.
    pub open spec fn clamped(self, edge: Edge, at: int) -> int {
        if at < self.start(edge) {
            self.start(edge)
        } else if at > self.end(edge) - 1 {
            self.end(edge) - 1
        } else {
            at
        }
    }

    /// The coordinate across the edge at which the cursor is put back.
    pub open spec fn inset(self, edge: Edge) -> int {
        match edge {
            Edge::Left => self.x + EDGE_INSET,
            Edge::Right => self.x + self.width - EDGE_INSET,
            Edge::Top => self.y + EDGE_INSET,
            Edge::Bottom => self.y + self.height - EDGE_INSET,
        }
    }

    /// The point at which the cursor is put back on this monitor.
    pub open spec fn landing(self, edge: Edge, at: int) -> (int, int) {
        if edge.is_vertical() {
            (self.inset(edge), self.clamped(edge, at))
        } else {
            (self.clamped(edge, at), self.inset(edge))
        }
    }

    /// The cursor can be put on the monitor: there is a coordinate along the edge on it,
    /// and the coordinate across the edge is one.
    pub open spec fn can_hold_cursor(self, edge: Edge) -> bool {
        &&& self.extent(edge) >= 1
        &&& i32::MIN <= self.inset(edge) <= i32::MAX
    }
}

/// The monitor on which a coordinate along the edge lands.
fn landing_monitor(monitors: &Vec<MonitorGeometry>, edge: Edge, at: i64) -> (r: usize)
    requires
        monitors@.len() > 0,
        -0x1_0000_0000 <= at <= 0x1_0000_0000,
        forall|i: int| 0 <= i < monitors@.len() ==> (#[trigger] monitors@[i]).end_fits(edge),
    ensures
        lands_on(monitors@, edge, at as int, r as int),
{
    let mut i: usize = 0;
    while i < monitors.len()
        invariant
            i <= monitors@.len(),
            forall|k: int| 0 <= k < i ==> !(#[trigger] monitors@[k]).covers(edge, at as int),
            forall|i: int| 0 <= i < monitors@.len() ==> (#[trigger] monitors@[i]).end_fits(edge),
        decreases monitors@.len() - i,
    {
        let start: i64 = monitors[i].start_along(edge) as i64;
        let end: i64 = start + monitors[i].extent_along(edge) as i64;
        if start <= at && at < end {
            assert(monitors@[i as int].covers(edge, at as int));
            return i;
        }
        i += 1;
    }
    let mut best: usize = 0;
    let mut best_distance: i64 = middle_distance(&monitors[0], edge, at);
    let mut j: usize = 1;
    while j < monitors.len()
        invariant
            1 <= j <= monitors@.len(),
            0 <= best < j,
            -0x1_0000_0000 <= at <= 0x1_0000_0000,
            best_distance == monitors@[best as int].distance(edge, at as int),
            forall|k: int|
                0 <= k < j ==> best_distance <= (#[trigger] monitors@[k]).distance(edge, at as int),
            forall|k: int|
                0 <= k < best ==> best_distance < (#[trigger] monitors@[k]).distance(
                    edge,
                    at as int,
                ),
        decreases monitors@.len() - j,
    {
        let distance: i64 = middle_distance(&monitors[j], edge, at);
        if distance < best_distance {
            best = j;
            best_distance = distance;
        }
        j += 1;
    }
    best
}

/// How far a coordinate along the edge is from the monitor's middle.
fn middle_distance(monitor: &MonitorGeometry, edge: Edge, at: i64) -> (r: i64)
    requires
        -0x1_0000_0000 <= at <= 0x1_0000_0000,
    ensures
        r == monitor.distance(edge, at as int),
{
    let extent: i64 = monitor.extent_along(edge) as i64;
    let half_extent: i64 = if extent >= 0 {
        extent / 2
    } else {
        -((-extent) / 2)
    };
    let middle: i64 = monitor.start_along(edge) as i64 + half_extent;
    if middle >= at {
        middle - at
    } else {
        at - middle
    }
}

/// Whether the cursor can come back: every monitor ends at a coordinate, and the one on which
/// the cursor lands, if there is one, can hold it.
pub fn can_return(monitors: &Vec<MonitorGeometry>, edge: Edge, from_bottom: i32) -> (b: bool)
    ensures
        b == {
            &&& forall|i: int| 0 <= i < monitors@.len() ==> (#[trigger] monitors@[i]).end_fits(edge)
            &&& forall|i: int| #[trigger]
                lands_on(monitors@, edge, far_end(monitors@, edge) - from_bottom, i)
                    ==> monitors@[i].can_hold_cursor(edge)
        },
{
    let mut i: usize = 0;
    while i < monitors.len()
        invariant
            i <= monitors@.len(),
            forall|k: int| 0 <= k < i ==> (#[trigger] monitors@[k]).end_fits(edge),
        decreases monitors@.len() - i,
    {
        if !monitors[i].ends_in_range(edge) {
            assert(!monitors@[i as int].end_fits(edge));
            return false;
        }
        i += 1;
    }
    let far: i64 = match combined_span(monitors, edge) {
        Some((_, end)) => end as i64,
        None => return true,
    };
    let at: i64 = far - from_bottom as i64;
    let landing: usize = landing_monitor(monitors, edge, at);
    let monitor: MonitorGeometry = monitors[landing];
    let across: i64 = inset_across(&monitor, edge);
    proof {
        assert forall|i: int| #[trigger] lands_on(monitors@, edge, at as int, i) implies i
            == landing by {
            landing_monitor_is_unique(monitors@, edge, at as int, i, landing as int);
        }
    }
    monitor.extent_along(edge) >= 1 && across >= i32::MIN as i64 && across <= i32::MAX as i64
}

/// The coordinate across the edge at which the cursor is put back.
fn inset_across(monitor: &MonitorGeometry, edge: Edge) -> (across: i64)
    ensures
        across == monitor.inset(edge),
{
    match edge {
        Edge::Left => monitor.x as i64 + EDGE_INSET as i64,
        Edge::Right => monitor.x as i64 + monitor.width as i64 - EDGE_INSET as i64,
        Edge::Top => monitor.y as i64 + EDGE_INSET as i64,
        Edge::Bottom => monitor.y as i64 + monitor.height as i64 - EDGE_INSET as i64,
    }
}

/// The point at which the cursor comes back when the other machine reports it
/// `from_bottom` pixels from the far end of its own edge. Both edges are aligned at their
/// far ends (the bottom of left and right edges, the right of top and bottom edges), and
/// pixels map one to one. There is no such point without monitors.
pub fn return_point(monitors: &Vec<MonitorGeometry>, edge: Edge, from_bottom: i32) -> (point: Option<
    (i32, i32),
>)
    requires
        forall|i: int| 0 <= i < monitors@.len() ==> (#[trigger] monitors@[i]).end_fits(edge),
        forall|i: int| #[trigger]
            lands_on(monitors@, edge, far_end(monitors@, edge) - from_bottom, i)
                ==> monitors@[i].can_hold_cursor(edge),
    ensures
        point is None <==> monitors@.len() == 0,
        point matches Some((x, y)) ==> exists|i: int| #[trigger]
            lands_on(monitors@, edge, far_end(monitors@, edge) - from_bottom, i) && (
            x as int,
            y as int,
        ) == monitors@[i].landing(edge, far_end(monitors@, edge) - from_bottom),
        point matches Some((x, y)) ==> forall|k: int|
            0 <= k < monitors@.len() && (#[trigger] monitors@[k]).covers(
                edge,
                far_end(monitors@, edge) - from_bottom,
            ) ==> from_bottom == far_end(monitors@, edge) - (if edge is Left || edge is Right {
                y
            } else {
                x
            }),
{
    let far: i64 = match combined_span(monitors, edge) {
        Some((_, end)) => end as i64,
        None => return None,
    };
    let at: i64 = far - from_bottom as i64;
    let i: usize = landing_monitor(monitors, edge, at);
    let monitor: MonitorGeometry = monitors[i];
    assert(monitor.end_fits(edge));
    let start: i64 = monitor.start_along(edge) as i64;
    let last: i64 = start + monitor.extent_along(edge) as i64 - 1;
    let along: i32 = if at < start {
        start as i32
    } else if at > last {
        last as i32
    } else {
        at as i32
    };
    let across: i64 = inset_across(&monitor, edge);
    match edge {
        Edge::Left | Edge::Right => Some((across as i32, along)),
        Edge::Top | Edge::Bottom => Some((along, across as i32)),
    }
}

/// A coordinate along the edge lands on exactly one monitor.
pub proof fn landing_monitor_is_unique(
    monitors: Seq<MonitorGeometry>,
    edge: Edge,
    at: int,
    i: int,
    j: int,
)
    requires
        lands_on(monitors, edge, at, i),
        lands_on(monitors, edge, at, j),
    ensures
        i == j,
{
    let low = monitors[if i < j { i } else { j }];
    let high = monitors[if i < j { j } else { i }];
    if i != j {
        if low.covers(edge, at) {
            assert(false);
        } else {
            assert(high.distance(edge, at) < low.distance(edge, at));
        }
    }
}

/// Wherever the cursor comes back, it comes back on the monitor it lands on, and where
/// that monitor covers the coordinate, at exactly that coordinate.
pub proof fn cursor_lands_on_its_monitor(
    monitors: Seq<MonitorGeometry>,
    edge: Edge,
    at: int,
    i: int,
)
    requires
        lands_on(monitors, edge, at, i),
        monitors[i].can_hold_cursor(edge),
    ensures
        monitors[i].covers(edge, monitors[i].clamped(edge, at)),
        (exists|k: int| 0 <= k < monitors.len() && (#[trigger] monitors[k]).covers(edge, at))
            ==> monitors[i].clamped(edge, at) == at,
{
}

/// On a single monitor the far end maps to the far end, the pixels of the monitor map one
/// to one, and what lies beyond its near end maps to its near end.
pub proof fn single_monitor_maps_from_the_far_end(
    monitor: MonitorGeometry,
    edge: Edge,
    from_bottom: int,
)
    requires
        monitor.extent(edge) >= 1,
    ensures
        far_end(seq![monitor], edge) == monitor.end(edge),
        from_bottom <= 1 ==> monitor.clamped(edge, monitor.end(edge) - from_bottom) == monitor.end(
            edge,
        ) - 1,
        1 <= from_bottom <= monitor.extent(edge) ==> monitor.clamped(
            edge,
            monitor.end(edge) - from_bottom,
        ) == monitor.end(edge) - from_bottom,
        from_bottom >= monitor.extent(edge) ==> monitor.clamped(
            edge,
            monitor.end(edge) - from_bottom,
        ) == monitor.start(edge),
{
}

/// Left and right edges run down the screen and top and bottom edges across it: along an edge, a
/// monitor covers the rows, or the columns, that it has pixels in, and no others.
pub proof fn edges_run_along_rows_or_columns(m: MonitorGeometry, edge: Edge, at: int)
    ensures
        edge is Left || edge is Right ==> {
            &&& m.covers(edge, at) <==> m.y <= at < m.y + m.height
            &&& m.start(edge) == m.y
            &&& m.end(edge) == m.y + m.height
        },
        edge is Top || edge is Bottom ==> {
            &&& m.covers(edge, at) <==> m.x <= at < m.x + m.width
            &&& m.start(edge) == m.x
            &&& m.end(edge) == m.x + m.width
        },
{
}

/// Opposite edges measure the same coordinates: the mapping along the edge does not depend on
/// the side of the screen.
pub proof fn opposite_edges_measure_alike(monitors: Seq<MonitorGeometry>, at: int, i: int)
    requires
        monitors.len() > 0,
    ensures
        near_end(monitors, Edge::Left) == near_end(monitors, Edge::Right),
        far_end(monitors, Edge::Left) == far_end(monitors, Edge::Right),
        near_end(monitors, Edge::Top) == near_end(monitors, Edge::Bottom),
        far_end(monitors, Edge::Top) == far_end(monitors, Edge::Bottom),
        lands_on(monitors, Edge::Left, at, i) <==> lands_on(monitors, Edge::Right, at, i),
        lands_on(monitors, Edge::Top, at, i) <==> lands_on(monitors, Edge::Bottom, at, i),
    decreases monitors.len(),
{
    if monitors.len() > 1 {
        opposite_edges_measure_alike(monitors.drop_last(), at, i);
    }
    assert forall|k: int| 0 <= k < monitors.len() implies {
        let m = #[trigger] monitors[k];
        &&& m.covers(Edge::Left, at) == m.covers(Edge::Right, at)
        &&& m.covers(Edge::Top, at) == m.covers(Edge::Bottom, at)
        &&& m.distance(Edge::Left, at) == m.distance(Edge::Right, at)
        &&& m.distance(Edge::Top, at) == m.distance(Edge::Bottom, at)
    } by {}
}

/// The cursor comes back on the monitor that it lands on, in both coordinates, exactly two
/// pixels from the side at which it crossed. Along the edge it is at the given place where
/// the monitor has it, and else at the monitor's nearest row or column.
pub proof fn cursor_returns_just_inside_the_edge(m: MonitorGeometry, edge: Edge, at: int)
    requires
        edge is Left || edge is Right ==> m.height >= 1,
        edge is Top || edge is Bottom ==> m.width >= 1,
    ensures
        ({
            let (px, py) = m.landing(edge, at);
            &&& edge is Left ==> px - m.x == 2
            &&& edge is Right ==> m.x + m.width - px == 2
            &&& edge is Top ==> py - m.y == 2
            &&& edge is Bottom ==> m.y + m.height - py == 2
            &&& edge is Left && m.width > 2 ==> m.x <= px < m.x + m.width
            &&& edge is Right && m.width >= 2 ==> m.x <= px < m.x + m.width
            &&& edge is Top && m.height > 2 ==> m.y <= py < m.y + m.height
            &&& edge is Bottom && m.height >= 2 ==> m.y <= py < m.y + m.height
            &&& edge is Left || edge is Right ==> {
                &&& m.y <= py < m.y + m.height
                &&& forall|row: int|
                    m.y <= row < m.y + m.height ==> #[trigger] apart(py, at) <= #[trigger] apart(
                        row,
                        at,
                    )
            }
            &&& edge is Top || edge is Bottom ==> {
                &&& m.x <= px < m.x + m.width
                &&& forall|column: int|
                    m.x <= column < m.x + m.width ==> #[trigger] apart(px, at)
                        <= #[trigger] apart(column, at)
            }
        }),
{
}

/// How far two coordinates are apart.
pub open spec fn apart(a: int, b: int) -> int {
    if a <= b {
        b - a
    } else {
        a - b
    }
}

/// The cursor lands on a monitor that has the place, if there is one. In a gap it lands on a
/// monitor whose middle is no further off than that of any other. Of several, the first one
/// wins.
pub proof fn cursor_lands_where_it_belongs(
    monitors: Seq<MonitorGeometry>,
    edge: Edge,
    at: int,
    i: int,
    k: int,
)
    requires
        lands_on(monitors, edge, at, i),
        0 <= k < monitors.len(),
        forall|j: int| 0 <= j < monitors.len() ==> (#[trigger] monitors[j]).width >= 0,
        forall|j: int| 0 <= j < monitors.len() ==> (#[trigger] monitors[j]).height >= 0,
    ensures
        0 <= i < monitors.len(),
        ({
            let (one, other) = (monitors[i], monitors[k]);
            let (start, length, start_k, length_k) = if edge is Left || edge is Right {
                (one.y, one.height, other.y, other.height)
            } else {
                (one.x, one.width, other.x, other.width)
            };
            let here = start <= at < start + length;
            let there = start_k <= at < start_k + length_k;
            let off = apart(start + length / 2, at);
            let off_k = apart(start_k + length_k / 2, at);
            &&& there ==> here
            &&& there ==> i <= k
            &&& !here ==> off <= off_k
            &&& !here && off == off_k ==> i <= k
        }),
{
    assert(monitors[k].covers(edge, at) ==> monitors[i].covers(edge, at));
    if !monitors[i].covers(edge, at) {
        assert(monitors[i].distance(edge, at) <= monitors[k].distance(edge, at));
    }
    assert(half(monitors[i].extent(edge)) == monitors[i].extent(edge) / 2);
    assert(half(monitors[k].extent(edge)) == monitors[k].extent(edge) / 2);
}

/// A monitor's end is in range, and the cursor can be put on it, exactly if the coordinates
/// that come of it are numbers of 32 bits, and there is a row or a column to put it on.
pub proof fn only_machine_limits_keep_the_cursor_out(m: MonitorGeometry, edge: Edge)
    ensures
        edge is Left || edge is Right ==> {
            &&& m.end_fits(edge) <==> -0x8000_0000 <= m.y + m.height <= 0x7FFF_FFFF
            &&& m.can_hold_cursor(edge) <==> m.height >= 1 && (edge is Left ==> m.x + 2
                <= 0x7FFF_FFFF) && (edge is Right ==> -0x8000_0000 <= m.x + m.width - 2
                <= 0x7FFF_FFFF)
        },
        edge is Top || edge is Bottom ==> {
            &&& m.end_fits(edge) <==> -0x8000_0000 <= m.x + m.width <= 0x7FFF_FFFF
            &&& m.can_hold_cursor(edge) <==> m.width >= 1 && (edge is Top ==> m.y + 2
                <= 0x7FFF_FFFF) && (edge is Bottom ==> -0x8000_0000 <= m.y + m.height - 2
                <= 0x7FFF_FFFF)
        },
{
}

} // verus!
