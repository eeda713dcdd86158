//! Pointer capture at the screen edge: the edge surfaces, the pointer grab, and the events
//! that come of them.
use std::collections::VecDeque;

use vstd::prelude::*;

use crate::event::{CaptureEvent, Event};
use crate::geometry::{
    combined_span, combined_span_is_tight, far_end, lands_on, near_end, Edge, MonitorGeometry,
};
use crate::text::{contains, contains_chars, same_text};

verus! {

/// How many of the compositor's units make a pixel.
pub const UNITS_PER_PIXEL: i64 = 256;

/// What the compositor told of an output.
#[derive(Debug, PartialEq, Eq)]
pub struct OutputInfo {
    pub name: String,
    pub description: String,
    pub geometry: MonitorGeometry,
}

/// One thing that the compositor tells of an output.
#[derive(Debug, PartialEq, Eq)]
pub enum OutputUpdate {
    Name(String),
    Description(String),
    LogicalPosition { x: i32, y: i32 },
    LogicalSize { width: i32, height: i32 },
    Other,
}

impl OutputInfo {
    /// An output of which nothing is known yet.
    pub fn new() -> (info: OutputInfo)
        ensures
            info.name@ == Seq::<char>::empty(),
            info.description@ == Seq::<char>::empty(),
            info.geometry == (MonitorGeometry { x: 0, y: 0, width: 0, height: 0 }),
    {
        OutputInfo {
            name: String::new(),
            description: String::new(),
            geometry: MonitorGeometry { x: 0, y: 0, width: 0, height: 0 },
        }
    }

    /// Takes in what the compositor tells of the output.
    pub fn update(&mut self, update: OutputUpdate)
        ensures
            *final(self) == (match update {
                OutputUpdate::Name(name) => OutputInfo { name, ..*old(self) },
                OutputUpdate::Description(description) => OutputInfo { description, ..*old(self) },
                OutputUpdate::LogicalPosition { x, y } => OutputInfo {
                    geometry: MonitorGeometry { x, y, ..old(self).geometry },
                    ..*old(self)
                },
                OutputUpdate::LogicalSize { width, height } => OutputInfo {
                    geometry: MonitorGeometry { width, height, ..old(self).geometry },
                    ..*old(self)
                },
                OutputUpdate::Other => *old(self),
            }),
    {
        match update {
            OutputUpdate::Name(name) => {
                self.name = name;
            },
            OutputUpdate::Description(description) => {
                self.description = description;
            },
            OutputUpdate::LogicalPosition { x, y } => {
                self.geometry.x = x;
                self.geometry.y = y;
            },
            OutputUpdate::LogicalSize { width, height } => {
                self.geometry.width = width;
                self.geometry.height = height;
            },
            OutputUpdate::Other => {},
        }
    }
}

/// Whether some output has a name.
pub open spec fn is_named(outputs: Seq<OutputInfo>, name: Seq<char>) -> bool {
    exists|k: int| 0 <= k < outputs.len() && (#[trigger] outputs[k]).name@ == name
}

/// Whether output `j` is the one that a configured monitor name means: the first that has
/// this name, and where none has it, the first whose description holds it.
pub open spec fn first_meant(outputs: Seq<OutputInfo>, name: Seq<char>, j: int) -> bool {
    &&& 0 <= j < outputs.len()
    &&& if is_named(outputs, name) {
        &&& outputs[j].name@ == name
        &&& forall|k: int| 0 <= k < j ==> (#[trigger] outputs[k]).name@ != name
    } else {
        &&& contains(outputs[j].description@, name)
        &&& forall|k: int| 0 <= k < j ==> !contains((#[trigger] outputs[k]).description@, name)
    }
}

/// Whether a configured monitor name means some output.
pub open spec fn is_found(outputs: Seq<OutputInfo>, name: Seq<char>) -> bool {
    exists|j: int| first_meant(outputs, name, j)
}

/// The output that a configured monitor name means.
pub fn find_output(outputs: &Vec<OutputInfo>, name: &String) -> (found: Option<usize>)
    ensures
        match found {
            Some(j) => first_meant(outputs@, name@, j as int),
            None => !is_found(outputs@, name@),
        },
{
    let mut i: usize = 0;
    while i < outputs.len()
        invariant
            i <= outputs@.len(),
            forall|k: int| 0 <= k < i ==> (#[trigger] outputs@[k]).name@ != name@,
        decreases outputs@.len() - i,
    {
        if outputs[i].name == *name {
            assert(is_named(outputs@, name@));
            return Some(i);
        }
        i += 1;
    }
    assert(!is_named(outputs@, name@));
    let mut j: usize = 0;
    while j < outputs.len()
        invariant
            j <= outputs@.len(),
            !is_named(outputs@, name@),
            forall|k: int|
                0 <= k < j ==> !contains((#[trigger] outputs@[k]).description@, name@),
        decreases outputs@.len() - j,
    {
        if contains_chars(outputs[j].description.as_str(), name.as_str()) {
            return Some(j);
        }
        j += 1;
    }
    None
}

/// A configured monitor name means one output at most, and the output that has the name if
/// there is one, whatever the descriptions of the others hold.
pub proof fn a_name_means_its_output(outputs: Seq<OutputInfo>, name: Seq<char>, i: int, j: int)
    requires
        first_meant(outputs, name, i),
        first_meant(outputs, name, j),
    ensures
        i == j,
        is_named(outputs, name) ==> outputs[i].name@ == name,
{
    let low = outputs[if i < j { i } else { j }];
    if i != j {
        assert(low.name@ == name || contains(low.description@, name));
    }
}

/// The protocol version to bind an announced global with, if it is an output.
pub fn output_bind_version(interface: &str, version: u32) -> (bind: Option<u32>)
    ensures
        bind == (if interface@ == "wl_output"@ {
            Some(if version < 4 {
                version
            } else {
                4
            })
        } else {
            None
        }),
        bind matches Some(v) ==> v <= 4 && v <= version && (v == 4 || v == version),
{
    if same_text(interface, "wl_output") {
        if version < 4 {
            Some(version)
        } else {
            Some(4)
        }
    } else {
        None
    }
}

/// Why pointer capture cannot be set up.
#[derive(Debug, PartialEq, Eq)]
pub enum CaptureError {
    /// No monitors are configured.
    NoMonitors,
    /// No output is meant by this configured name.
    MonitorNotFound(String),
}

impl CaptureError {
    /// The error in words.
    pub fn message(&self) -> (text: String)
        ensures
            text@ == (match *self {
                CaptureError::NoMonitors => "no monitors configured for capture"@,
                CaptureError::MonitorNotFound(name) => "monitor '"@ + name@ + "' not found"@,
            }),
    {
        match self {
            CaptureError::NoMonitors => "no monitors configured for capture".to_owned(),
            CaptureError::MonitorNotFound(name) => "monitor '".to_owned().concat(
                name.as_str(),
            ).concat("' not found"),
        }
    }
}

/// Measures of the buffer behind an edge surface.
#[derive(Debug, Clone, Copy, PartialEq, Eq, Structural)]
pub struct SurfaceLayout {
    pub width: u32,
    pub height: u32,
    /// Bytes from one row of pixels to the next.
    pub stride: i32,
    /// Bytes of the whole buffer.
    pub pool_size: i32,
}

/// The measures of the surface along a monitor's edge: one pixel wide, and as long as the
/// monitor.
pub fn surface_layout(geometry: &MonitorGeometry, edge: Edge) -> (layout: SurfaceLayout)
    requires
        0 <= geometry.extent(edge) < 0x4000_0000,
    ensures
        layout.width == (if edge.is_vertical() {
            1
        } else {
            geometry.width as int
        }),
        layout.height == (if edge.is_vertical() {
            geometry.height as int
        } else {
            1
        }),
        layout.stride == (layout.width * 4) as i32,
        layout.pool_size == (layout.width * layout.height * 4) as i32,
        edge is Left || edge is Right ==> layout.stride == 4,
        edge is Top || edge is Bottom ==> layout.stride == layout.pool_size,
        (edge is Left || edge is Right) && geometry.height < 0x2000_0000 ==> layout.pool_size == 4
            * geometry.height,
        (edge is Top || edge is Bottom) && geometry.width < 0x2000_0000 ==> layout.pool_size == 4
            * geometry.width,
{
    let length: u32 = geometry.extent_along(edge) as u32;
    let bytes: u32 = length * 4;
    match edge {
        Edge::Left | Edge::Right => SurfaceLayout {
            width: 1,
            height: length,
            stride: 4,
            pool_size: bytes as i32,
        },
        Edge::Top | Edge::Bottom => SurfaceLayout {
            width: length,
            height: 1,
            stride: bytes as i32,
            pool_size: bytes as i32,
        },
    }
}

/// The pixel of surfaces made visible for debugging.
pub const DEBUG_PIXEL: u32 = 0xff11_d116;

/// The pixel of invisible surfaces.
pub const CLEAR_PIXEL: u32 = 0;

/// The pixels of a surface: fully transparent, unless it is to be seen for debugging.
pub fn draw_surface(width: u32, height: u32, debug: bool) -> (pixels: Vec<u32>)
    requires
        width * height <= u32::MAX,
    ensures
        pixels@ == Seq::new(
            (width * height) as nat,
            |i: int|
                if debug {
                    DEBUG_PIXEL
                } else {
                    CLEAR_PIXEL
                },
        ),
{
    let pixel: u32 = if debug {
        DEBUG_PIXEL
    } else {
        CLEAR_PIXEL
    };
    let count: u32 = width * height;
    let mut pixels: Vec<u32> = Vec::new();
    let mut i: u32 = 0;
    while i < count
        invariant
            i <= count,
            pixels@ == Seq::new(i as nat, |k: int| pixel),
        decreases count - i,
    {
        pixels.push(pixel);
        i += 1;
        assert(pixels@ =~= Seq::new(i as nat, |k: int| pixel));
    }
    assert(pixels@ =~= Seq::new(
        (width * height) as nat,
        |i: int|
            if debug {
                DEBUG_PIXEL
            } else {
                CLEAR_PIXEL
            },
    ));
    pixels
}

/// What the seat reports of the pointer. Coordinates and scroll values count the
/// compositor's units; times are nanoseconds on one clock.
#[derive(Debug, Clone, Copy, PartialEq, Eq, Structural)]
pub enum PointerEvent {
    /// The pointer entered a surface: that of an edge window, or another one.
    Enter { window: Option<usize>, surface_x: i32, surface_y: i32 },
    Leave,
    Button { button: u32, state: u32 },
    Axis { axis: u32, value: i32 },
    AxisValue120 { axis: u32, value120: i32 },
    Other,
}

/// What taking the pointer grab takes: which window to give the keyboard, and which of
/// pointer lock, relative pointer and shortcut inhibitor to create.
#[derive(Debug, Clone, Copy, PartialEq, Eq, Structural)]
pub struct GrabWork {
    pub window: usize,
    pub lock: bool,
    pub relative: bool,
    pub inhibit: bool,
}

/// What letting the pointer go takes: which window to take the keyboard from, and which of
/// pointer lock, relative pointer and shortcut inhibitor to destroy.
#[derive(Debug, Clone, Copy, PartialEq, Eq, Structural)]
pub struct UngrabWork {
    pub window: Option<usize>,
    pub unlock: bool,
    pub unrelative: bool,
    pub uninhibit: bool,
}

/// What a pointer event asks for.
#[derive(Debug, Clone, Copy, PartialEq, Eq, Structural)]
pub enum PointerWork {
    Nothing,
    Grab(GrabWork),
    Ungrab(UngrabWork),
}

/// What a change of the seat's capabilities asks for.
#[derive(Debug, Clone, Copy, PartialEq, Eq, Structural)]
pub struct SeatWork {
    pub release_pointer: bool,
    pub get_pointer: bool,
    pub get_keyboard: bool,
}

/// The state of pointer capture.
#[verifier::ext_equal]
pub struct CaptureState {
    /// The crossing edge.
    pub edge: Edge,
    /// The monitors that have an edge window.
    pub windows: Seq<MonitorGeometry>,
    /// The output that each edge window is on.
    pub targets: Seq<usize>,
    /// Whether shortcuts can be inhibited.
    pub can_inhibit: bool,
    /// Whether there is a pointer lock.
    pub pointer_lock: bool,
    /// Whether there is a relative pointer.
    pub rel_pointer: bool,
    /// Whether there is a shortcut inhibitor.
    pub shortcut_inhibitor: bool,
    /// The window at which the pointer is grabbed.
    pub active_window: Option<usize>,
    /// Whether the pointer is grabbed.
    pub focused: bool,
    /// Events not yet handed out, oldest first.
    pub pending: Seq<CaptureEvent>,
    /// Whether a discrete scroll step awaits its continuous twin.
    pub scroll_discrete_pending: bool,
    /// How far from the far end of the edge the pointer crosses, at most.
    pub max_from_bottom: Option<i64>,
    /// Until when the pointer does not cross.
    pub grab_suppressed_until: Option<u64>,
}

impl CaptureState {
    /// What holds of every state: there are edge windows, on monitors that end at a
    /// coordinate; and the pointer is grabbed at a window exactly while there are a pointer
    /// lock and a relative pointer, and a shortcut inhibitor where there can be one.
    pub open spec fn wf(self) -> bool {
        &&& self.windows.len() > 0
        &&& self.targets.len() == self.windows.len()
        &&& forall|i: int|
            0 <= i < self.windows.len() ==> (#[trigger] self.windows[i]).end_fits(self.edge)
        &&& self.active_window matches Some(w) ==> w < self.windows.len()
        &&& self.focused == self.active_window is Some
        &&& self.pointer_lock == self.focused
        &&& self.rel_pointer == self.focused
        &&& self.shortcut_inhibitor == (self.focused && self.can_inhibit)
    }

    /// The state with the pointer grabbed at a window.
    pub open spec fn grabbed(self, window: usize) -> CaptureState {
        CaptureState {
            pointer_lock: true,
            rel_pointer: true,
            shortcut_inhibitor: self.shortcut_inhibitor || self.can_inhibit,
            active_window: Some(window),
            focused: true,
            ..self
        }
    }

    /// The state with the pointer let go.
    pub open spec fn ungrabbed(self) -> CaptureState {
        CaptureState {
            pointer_lock: false,
            rel_pointer: false,
            shortcut_inhibitor: false,
            active_window: None,
            focused: false,
            ..self
        }
    }

    /// What there is to undo when the pointer is let go.
    pub open spec fn to_undo(self) -> UngrabWork {
        UngrabWork {
            window: self.active_window,
            unlock: self.pointer_lock,
            unrelative: self.rel_pointer,
            uninhibit: self.shortcut_inhibitor,
        }
    }

    /// The state with one more event to hand out.
    pub open spec fn with_event(self, event: CaptureEvent) -> CaptureState {
        CaptureState { pending: self.pending.push(event), ..self }
    }

    /// Whether crossing is suppressed at the given time.
    pub open spec fn suppressed(self, now: u64) -> bool {
        self.grab_suppressed_until matches Some(deadline) && now < deadline
    }

    /// The length of the combined edge, in units.
    pub open spec fn edge_length(self) -> int {
        UNITS_PER_PIXEL * (far_end(self.windows, self.edge) - near_end(self.windows, self.edge))
    }

    /// How far a point of a window's surface is from the far end of the combined edge, in
    /// units.
    pub open spec fn from_far_end(self, window: int, surface_x: i32, surface_y: i32) -> int {
        UNITS_PER_PIXEL * far_end(self.windows, self.edge) - (UNITS_PER_PIXEL
            * self.windows[window].start(self.edge) + if self.edge.is_vertical() {
            surface_y
        } else {
            surface_x
        })
    }

    /// Whether the pointer does not cross at this distance from the far end, as the other
    /// machine has no place that corresponds to it.
    pub open spec fn blocked(self, from_bottom: int) -> bool {
        self.max_from_bottom matches Some(max) && from_bottom > max
    }

    /// The state after the pointer entered a surface.
    pub open spec fn entered(
        self,
        window: Option<usize>,
        surface_x: i32,
        surface_y: i32,
        now: u64,
    ) -> CaptureState {
        match window {
            None => self,
            Some(w) => if self.suppressed(now) {
                self
            } else {
                let open = CaptureState { grab_suppressed_until: None, ..self };
                let from_bottom = self.from_far_end(w as int, surface_x, surface_y);
                if self.blocked(from_bottom) {
                    open
                } else {
                    open.grabbed(w).with_event(
                        CaptureEvent::Begin {
                            from_bottom: from_bottom as i64,
                            source_height: self.edge_length() as i64,
                        },
                    )
                }
            },
        }
    }

    /// The state after a pointer event.
    pub open spec fn after(self, event: PointerEvent, now: u64) -> CaptureState {
        match event {
            PointerEvent::Enter { window, surface_x, surface_y } => self.entered(
                window,
                surface_x,
                surface_y,
                now,
            ),
            PointerEvent::Leave => if self.pointer_lock {
                self.ungrabbed().with_event(CaptureEvent::Released)
            } else {
                self.ungrabbed()
            },
            PointerEvent::Button { button, state } => if self.focused {
                self.with_event(
                    CaptureEvent::Input(Event::MouseButton { button, state: state as u8 }),
                )
            } else {
                self
            },
            PointerEvent::Axis { axis, value } => if self.focused && !self.scroll_discrete_pending {
                self.with_event(
                    CaptureEvent::Input(
                        Event::MouseScroll { axis: axis as u8, value: value as i64 },
                    ),
                )
            } else {
                CaptureState { scroll_discrete_pending: false, ..self }
            },
            PointerEvent::AxisValue120 { axis, value120 } => if self.focused {
                CaptureState { scroll_discrete_pending: true, ..self }.with_event(
                    CaptureEvent::Input(
                        Event::MouseScroll {
                            axis: axis as u8,
                            value: (value120 * UNITS_PER_PIXEL) as i64,
                        },
                    ),
                )
            } else {
                self
            },
            PointerEvent::Other => self,
        }
    }

    /// What a pointer event asks for.
    pub open spec fn work(self, event: PointerEvent, now: u64) -> PointerWork {
        match event {
            PointerEvent::Enter { window: Some(w), surface_x, surface_y } => if !self.suppressed(
                now,
            ) && !self.blocked(self.from_far_end(w as int, surface_x, surface_y)) {
                PointerWork::Grab(
                    GrabWork {
                        window: w,
                        lock: !self.pointer_lock,
                        relative: !self.rel_pointer,
                        inhibit: self.can_inhibit && !self.shortcut_inhibitor,
                    },
                )
            } else {
                PointerWork::Nothing
            },
            PointerEvent::Leave => PointerWork::Ungrab(self.to_undo()),
            _ => PointerWork::Nothing,
        }
    }
}

/// Pointer capture at the screen edge.
pub struct Capture {
    edge: Edge,
    windows: Vec<MonitorGeometry>,
    targets: Vec<usize>,
    can_inhibit: bool,
    pointer_lock: bool,
    rel_pointer: bool,
    shortcut_inhibitor: bool,
    active_window: Option<usize>,
    focused: bool,
    pending_events: VecDeque<CaptureEvent>,
    scroll_discrete_pending: bool,
    max_from_bottom: Option<i64>,
    grab_suppressed_until: Option<u64>,
}

impl View for Capture {
    type V = CaptureState;

    closed spec fn view(&self) -> CaptureState {
        CaptureState {
            edge: self.edge,
            windows: self.windows@,
            targets: self.targets@,
            can_inhibit: self.can_inhibit,
            pointer_lock: self.pointer_lock,
            rel_pointer: self.rel_pointer,
            shortcut_inhibitor: self.shortcut_inhibitor,
            active_window: self.active_window,
            focused: self.focused,
            pending: self.pending_events@,
            scroll_discrete_pending: self.scroll_discrete_pending,
            max_from_bottom: self.max_from_bottom,
            grab_suppressed_until: self.grab_suppressed_until,
        }
    }
}

/// Whether every configured monitor name means some output.
pub open spec fn all_found(monitors: Seq<String>, outputs: Seq<OutputInfo>) -> bool {
    forall|i: int| 0 <= i < monitors.len() ==> is_found(outputs, (#[trigger] monitors[i])@)
}

impl Capture {
    /// Sets capture up along one edge of the configured monitors: one edge window on the
    /// output that each name means, and no grab.
    pub fn new(
        monitors: &Vec<String>,
        outputs: &Vec<OutputInfo>,
        edge: Edge,
        can_inhibit: bool,
    ) -> (r: Result<Capture, CaptureError>)
        requires
            all_found(monitors@, outputs@) ==> forall|i: int, j: int|
                0 <= i < monitors@.len() && #[trigger] first_meant(outputs@, monitors@[i]@, j)
                    ==> outputs@[j].geometry.end_fits(edge),
        ensures
            match r {
                Ok(capture) => {
                    &&& monitors@.len() > 0
                    &&& capture@.wf()
                    &&& capture@.windows.len() == monitors@.len()
                    &&& forall|i: int|
                        0 <= i < monitors@.len() ==> {
                            let j = #[trigger] capture@.targets[i] as int;
                            first_meant(outputs@, monitors@[i]@, j) && capture@.windows[i]
                                == outputs@[j].geometry
                        }
                    &&& capture@ == (CaptureState {
                        edge,
                        windows: capture@.windows,
                        targets: capture@.targets,
                        can_inhibit,
                        pointer_lock: false,
                        rel_pointer: false,
                        shortcut_inhibitor: false,
                        active_window: None,
                        focused: false,
                        pending: seq![],
                        scroll_discrete_pending: false,
                        max_from_bottom: None,
                        grab_suppressed_until: None,
                    })
                },
                Err(CaptureError::NoMonitors) => monitors@.len() == 0,
                Err(CaptureError::MonitorNotFound(name)) => exists|i: int|
                    {
                        &&& 0 <= i < monitors@.len()
                        &&& (#[trigger] monitors@[i])@ == name@
                        &&& !is_found(outputs@, name@)
                        &&& forall|k: int|
                            0 <= k < i ==> is_found(outputs@, (#[trigger] monitors@[k])@)
                    },
            },
    {
        if monitors.len() == 0 {
            return Err(CaptureError::NoMonitors);
        }
        let mut windows: Vec<MonitorGeometry> = Vec::new();
        let mut targets: Vec<usize> = Vec::new();
        let mut i: usize = 0;
        while i < monitors.len()
            invariant
                i <= monitors@.len(),
                windows@.len() == i,
                targets@.len() == i,
                forall|k: int|
                    0 <= k < i ==> {
                        let j = #[trigger] targets@[k] as int;
                        first_meant(outputs@, monitors@[k]@, j) && windows@[k]
                            == outputs@[j].geometry
                    },
            decreases monitors@.len() - i,
        {
            match find_output(outputs, &monitors[i]) {
                Some(j) => {
                    windows.push(outputs[j].geometry);
                    targets.push(j);
                },
                None => {
                    let name: String = monitors[i].clone();
                    assert forall|k: int| 0 <= k < i implies is_found(
                        outputs@,
                        (#[trigger] monitors@[k])@,
                    ) by {
                        assert(first_meant(outputs@, monitors@[k]@, targets@[k] as int));
                    }
                    assert(monitors@[i as int]@ == name@);
                    return Err(CaptureError::MonitorNotFound(name));
                },
            }
            i += 1;
        }
        assert(all_found(monitors@, outputs@)) by {
            assert forall|k: int| 0 <= k < monitors@.len() implies is_found(
                outputs@,
                (#[trigger] monitors@[k])@,
            ) by {
                assert(first_meant(outputs@, monitors@[k]@, targets@[k] as int));
            }
        }
        assert forall|k: int| 0 <= k < windows@.len() implies (#[trigger] windows@[k]).end_fits(
            edge,
        ) by {
            assert(first_meant(outputs@, monitors@[k]@, targets@[k] as int));
        }
        Ok(
            Capture {
                edge,
                windows,
                targets,
                can_inhibit,
                pointer_lock: false,
                rel_pointer: false,
                shortcut_inhibitor: false,
                active_window: None,
                focused: false,
                pending_events: VecDeque::new(),
                scroll_discrete_pending: false,
                max_from_bottom: None,
                grab_suppressed_until: None,
            },
        )
    }

    /// The monitors that have an edge window.
    pub fn windows(&self) -> (windows: &Vec<MonitorGeometry>)
        ensures
            windows@ == self@.windows,
    {
        &self.windows
    }

    /// The output that each edge window is on.
    pub fn targets(&self) -> (targets: &Vec<usize>)
        ensures
            targets@ == self@.targets,
    {
        &self.targets
    }

    /// Sets how far from the far end of the edge the pointer crosses, at most: the length
    /// of the other machine's edge. Crossing further off is blocked from then on.
    pub fn set_max_from_bottom(&mut self, max: i64)
        ensures
            final(self)@ == (CaptureState { max_from_bottom: Some(max), ..old(self)@ }),
            old(self)@.wf() ==> final(self)@.wf(),
    {
        self.max_from_bottom = Some(max);
    }

    /// Grabs the pointer at a window, creating what is not there yet.
    fn grab(&mut self, window: usize) -> (work: GrabWork)
        ensures
            final(self)@ == old(self)@.grabbed(window),
            work == (GrabWork {
                window,
                lock: !old(self)@.pointer_lock,
                relative: !old(self)@.rel_pointer,
                inhibit: old(self)@.can_inhibit && !old(self)@.shortcut_inhibitor,
            }),
    {
        let work: GrabWork = GrabWork {
            window,
            lock: !self.pointer_lock,
            relative: !self.rel_pointer,
            inhibit: self.can_inhibit && !self.shortcut_inhibitor,
        };
        self.pointer_lock = true;
        self.rel_pointer = true;
        if self.can_inhibit {
            self.shortcut_inhibitor = true;
        }
        self.active_window = Some(window);
        self.focused = true;
        work
    }

    /// Ends capture: lets the pointer go. A second time there is nothing to undo.
    pub fn release(&mut self) -> (work: UngrabWork)
        ensures
            final(self)@ == old(self)@.ungrabbed(),
            old(self)@.wf() ==> final(self)@.wf(),
            work == old(self)@.to_undo(),
            final(self)@.to_undo() == (UngrabWork {
                window: None,
                unlock: false,
                unrelative: false,
                uninhibit: false,
            }),
    {
        let work: UngrabWork = UngrabWork {
            window: self.active_window,
            unlock: self.pointer_lock,
            unrelative: self.rel_pointer,
            uninhibit: self.shortcut_inhibitor,
        };
        self.active_window = None;
        self.pointer_lock = false;
        self.rel_pointer = false;
        self.shortcut_inhibitor = false;
        self.focused = false;
        work
    }

    /// Lets the pointer go and keeps it from crossing until `deadline`. Until then, when
    /// the pointer enters an edge surface nothing is grabbed and nothing is reported, which
    /// keeps the compositor from dragging capture into a loop of grabs and releases. The
    /// first entry past the deadline ends the suppression.
    pub fn suppress_grab_until(&mut self, deadline: u64) -> (work: UngrabWork)
        ensures
            final(self)@ == (CaptureState {
                grab_suppressed_until: Some(deadline),
                ..old(self)@.ungrabbed()
            }),
            old(self)@.wf() ==> final(self)@.wf(),
            work == old(self)@.to_undo(),
    {
        let work: UngrabWork = self.release();
        self.grab_suppressed_until = Some(deadline);
        work
    }

    /// Hands out the oldest event that was not handed out yet.
    pub fn poll_event(&mut self) -> (event: Option<CaptureEvent>)
        ensures
            match event {
                Some(e) => {
                    &&& old(self)@.pending.len() > 0
                    &&& e == old(self)@.pending[0]
                    &&& final(self)@ == (CaptureState {
                        pending: old(self)@.pending.skip(1),
                        ..old(self)@
                    })
                },
                None => old(self)@.pending.len() == 0 && final(self)@ == old(self)@,
            },
            old(self)@.wf() ==> final(self)@.wf(),
    {
        let event: Option<CaptureEvent> = self.pending_events.pop_front();
        assert(event is Some ==> self@.pending =~= old(self)@.pending.skip(1));
        event
    }

    /// Takes in a pointer event.
    pub fn pointer_event(&mut self, event: PointerEvent, now: u64) -> (work: PointerWork)
        requires
            old(self)@.wf(),
            event matches PointerEvent::Enter { window: Some(w), .. } ==> w < old(
                self,
            )@.windows.len(),
        ensures
            final(self)@.wf(),
            final(self)@ == old(self)@.after(event, now),
            work == old(self)@.work(event, now),
    {
        match event {
            PointerEvent::Enter { window, surface_x, surface_y } => {
                let w: usize = match window {
                    Some(w) => w,
                    None => return PointerWork::Nothing,
                };
                if let Some(deadline) = self.grab_suppressed_until {
                    if now < deadline {
                        return PointerWork::Nothing;
                    }
                    self.grab_suppressed_until = None;
                }
                let (start, end) = match combined_span(&self.windows, self.edge) {
                    Some(span) => span,
                    None => return PointerWork::Nothing,
                };
                let source_height: i64 = UNITS_PER_PIXEL * (end as i64 - start as i64);
                let along: i32 = match self.edge {
                    Edge::Left | Edge::Right => surface_y,
                    Edge::Top | Edge::Bottom => surface_x,
                };
                let window_start: i64 = self.windows[w].start_along(self.edge) as i64;
                let from_bottom: i64 = UNITS_PER_PIXEL * end as i64 - (UNITS_PER_PIXEL
                    * window_start + along as i64);
                if let Some(max) = self.max_from_bottom {
                    if from_bottom > max {
                        return PointerWork::Nothing;
                    }
                }
                let work: GrabWork = self.grab(w);
                self.pending_events.push_back(CaptureEvent::Begin { from_bottom, source_height });
                PointerWork::Grab(work)
            },
            PointerEvent::Leave => {
                let was_locked: bool = self.pointer_lock;
                let work: UngrabWork = self.release();
                if was_locked {
                    self.pending_events.push_back(CaptureEvent::Released);
                }
                PointerWork::Ungrab(work)
            },
            PointerEvent::Button { button, state } => {
                if self.focused {
                    self.pending_events.push_back(
                        CaptureEvent::Input(
                            Event::MouseButton {
                                button,
                                state: #[verifier::truncate]
                                (state as u8),
                            },
                        ),
                    );
                }
                PointerWork::Nothing
            },
            PointerEvent::Axis { axis, value } => {
                if self.focused && !self.scroll_discrete_pending {
                    self.pending_events.push_back(
                        CaptureEvent::Input(
                            Event::MouseScroll {
                                axis: #[verifier::truncate]
                                (axis as u8),
                                value: value as i64,
                            },
                        ),
                    );
                } else {
                    self.scroll_discrete_pending = false;
                }
                PointerWork::Nothing
            },
            PointerEvent::AxisValue120 { axis, value120 } => {
                if self.focused {
                    self.scroll_discrete_pending = true;
                    self.pending_events.push_back(
                        CaptureEvent::Input(
                            Event::MouseScroll {
                                axis: #[verifier::truncate]
                                (axis as u8),
                                value: value120 as i64 * UNITS_PER_PIXEL,
                            },
                        ),
                    );
                }
                PointerWork::Nothing
            },
            PointerEvent::Other => PointerWork::Nothing,
        }
    }

    /// Takes in relative motion of the pointer.
    pub fn relative_motion(&mut self, dx: i32, dy: i32)
        ensures
            final(self)@ == (if old(self)@.focused {
                old(self)@.with_event(CaptureEvent::Input(Event::MouseMotion { dx, dy }))
            } else {
                old(self)@
            }),
            final(self)@.pending == old(self)@.pending + (if old(self)@.focused {
                seq![CaptureEvent::Input(Event::MouseMotion { dx, dy })]
            } else {
                seq![]
            }),
            old(self)@.wf() ==> final(self)@.wf(),
    {
        if self.focused {
            self.pending_events.push_back(CaptureEvent::Input(Event::MouseMotion { dx, dy }));
        }
    }
}

/// What the seat's capabilities ask for: a pointer replaces the one held before.
pub fn seat_work(has_pointer: bool, pointer: bool, keyboard: bool) -> (work: SeatWork)
    ensures
        work == (SeatWork {
            release_pointer: pointer && has_pointer,
            get_pointer: pointer,
            get_keyboard: keyboard,
        }),
{
    SeatWork {
        release_pointer: pointer && has_pointer,
        get_pointer: pointer,
        get_keyboard: keyboard,
    }
}

/// While crossing is suppressed, an entry changes nothing and asks for nothing, whatever
/// surface was entered and wherever.
pub proof fn suppressed_entry_is_ignored(
    state: CaptureState,
    window: Option<usize>,
    surface_x: i32,
    surface_y: i32,
    now: u64,
)
    requires
        state.suppressed(now),
    ensures
        ({
            let enter = PointerEvent::Enter { window, surface_x, surface_y };
            state.after(enter, now) == state && state.work(enter, now) == PointerWork::Nothing
        }),
{
}

/// An entry at an edge window grabs the pointer and reports the crossing exactly where
/// crossing is neither suppressed nor blocked; and where it is blocked, the pointer stays
/// as it was.
pub proof fn entry_crosses_unless_blocked(
    state: CaptureState,
    window: usize,
    surface_x: i32,
    surface_y: i32,
    now: u64,
)
    requires
        state.wf(),
        window < state.windows.len(),
    ensures
        ({
            let enter = PointerEvent::Enter { window: Some(window), surface_x, surface_y };
            let after = state.after(enter, now);
            if state.suppressed(now) || state.blocked(
                state.from_far_end(window as int, surface_x, surface_y),
            ) {
                &&& after.pending == state.pending
                &&& after.active_window == state.active_window
                &&& after.focused == state.focused
                &&& state.work(enter, now) == PointerWork::Nothing
            } else {
                &&& after.pending.len() == state.pending.len() + 1
                &&& after.pending.last() is Begin
                &&& after.active_window == Some(window)
                &&& after.focused
                &&& state.work(enter, now) is Grab
            }
        }),
{
}

/// Letting the pointer go undoes grabbing it, down to the objects that the grab created.
pub proof fn release_undoes_grab(state: CaptureState, window: usize)
    requires
        state.wf(),
        !state.focused,
        window < state.windows.len(),
    ensures
        state.grabbed(window).wf(),
        state.grabbed(window).ungrabbed() == state,
        state.grabbed(window).to_undo() == (UngrabWork {
            window: Some(window),
            unlock: true,
            unrelative: true,
            uninhibit: state.can_inhibit,
        }),
{
}

/// Letting the pointer go leaves nothing to undo: a second time asks for nothing and changes
/// nothing. The edge windows, the events not yet handed out, the limit of crossing and its
/// suppression stay as they are.
pub proof fn second_release_asks_for_nothing(state: CaptureState)
    ensures
        ({
            let after = state.ungrabbed();
            &&& after.to_undo() == (UngrabWork {
                window: None,
                unlock: false,
                unrelative: false,
                uninhibit: false,
            })
            &&& after.ungrabbed() == after
            &&& after.windows == state.windows
            &&& after.targets == state.targets
            &&& after.pending == state.pending
            &&& after.max_from_bottom == state.max_from_bottom
            &&& after.grab_suppressed_until == state.grab_suppressed_until
        }),
{
}

/// Pointer input is reported only while the pointer is grabbed.
pub proof fn only_a_grabbed_pointer_is_reported(
    state: CaptureState,
    event: PointerEvent,
    now: u64,
)
    requires
        state.wf(),
        !state.focused,
        !(event is Enter),
    ensures
        state.after(event, now).pending == state.pending,
        !state.after(event, now).focused,
{
}

/// The compositor's taking the pointer back is reported once: while the pointer is
/// grabbed, and not again.
pub proof fn lost_grab_is_reported_once(state: CaptureState, now: u64, later: u64)
    requires
        state.wf(),
        state.focused,
    ensures
        ({
            let left = state.after(PointerEvent::Leave, now);
            &&& left.pending == state.pending.push(CaptureEvent::Released)
            &&& !left.focused
            &&& left.after(PointerEvent::Leave, later) == left
        }),
{
}

/// A discrete scroll step is reported once: the continuous value that comes with it is
/// dropped, and the continuous values after that are reported again.
pub proof fn discrete_step_is_reported_once(
    state: CaptureState,
    axis: u32,
    value120: i32,
    value: i32,
    now: u64,
)
    requires
        state.wf(),
        state.focused,
    ensures
        ({
            let stepped = state.after(PointerEvent::AxisValue120 { axis, value120 }, now);
            let twin = stepped.after(PointerEvent::Axis { axis, value }, now);
            let next = twin.after(PointerEvent::Axis { axis, value }, now);
            &&& stepped.pending.len() == state.pending.len() + 1
            &&& twin.pending == stepped.pending
            &&& next.pending.len() == twin.pending.len() + 1
        }),
{
}

/// A crossing is reported with its distance from the far end of the combined edge and with the
/// length of that edge, at whatever edge, and goes ahead exactly where that distance is within
/// the limit, if there is one.
///
/// `far` is the greatest end of any window along the edge, and `near` the least start.
pub proof fn crossing_is_reported_from_the_far_end(
    state: CaptureState,
    window: usize,
    surface_x: i32,
    surface_y: i32,
    now: u64,
    near: int,
    far: int,
)
    requires
        state.wf(),
        window < state.windows.len(),
        state.grab_suppressed_until matches Some(until) ==> until <= now,
        forall|k: int|
            0 <= k < state.windows.len() ==> {
                let m = #[trigger] state.windows[k];
                if state.edge is Left || state.edge is Right {
                    near <= m.y && m.y + m.height <= far
                } else {
                    near <= m.x && m.x + m.width <= far
                }
            },
        exists|k: int|
            0 <= k < state.windows.len() && near == (if state.edge is Left || state.edge is Right {
                (#[trigger] state.windows[k]).y
            } else {
                state.windows[k].x
            }),
        exists|k: int|
            0 <= k < state.windows.len() && far == (if state.edge is Left || state.edge is Right {
                (#[trigger] state.windows[k]).y + state.windows[k].height
            } else {
                state.windows[k].x + state.windows[k].width
            }),
    ensures
        ({
            let enter = PointerEvent::Enter { window: Some(window), surface_x, surface_y };
            let after = state.after(enter, now);
            let at = match state.edge {
                Edge::Left | Edge::Right => 256 * state.windows[window as int].y + surface_y,
                Edge::Top | Edge::Bottom => 256 * state.windows[window as int].x + surface_x,
            };
            let too_far = state.max_from_bottom matches Some(max) && 256 * far - at > max;
            &&& after.grab_suppressed_until is None
            &&& after.edge == state.edge
            &&& after.windows == state.windows
            &&& after.targets == state.targets
            &&& after.can_inhibit == state.can_inhibit
            &&& after.scroll_discrete_pending == state.scroll_discrete_pending
            &&& after.max_from_bottom == state.max_from_bottom
            &&& too_far ==> {
                &&& after.pending == state.pending
                &&& after.focused == state.focused
                &&& after.active_window == state.active_window
                &&& state.work(enter, now) == PointerWork::Nothing
            }
            &&& !too_far ==> {
                &&& after.pending.len() == state.pending.len() + 1
                &&& after.pending.drop_last() == state.pending
                &&& after.pending.last() matches CaptureEvent::Begin { from_bottom, source_height }
                    && from_bottom + at == 256 * far && source_height == 256 * far - 256 * near
                &&& after.focused
                &&& after.pointer_lock
                &&& after.rel_pointer
                &&& after.shortcut_inhibitor == state.can_inhibit
                &&& after.active_window == Some(window)
                &&& state.work(enter, now) == PointerWork::Grab(
                    GrabWork {
                        window,
                        lock: !state.focused,
                        relative: !state.focused,
                        inhibit: !state.focused && state.can_inhibit,
                    },
                )
            }
        }),
{
    combined_span_is_tight(state.windows, state.edge);
    lemma_bounds_are_the_ends(state.windows, state.edge, near, far);
    let after = state.after(
        PointerEvent::Enter { window: Some(window), surface_x, surface_y },
        now,
    );
    if after.pending.len() == state.pending.len() + 1 {
        assert(after.pending.drop_last() =~= state.pending);
    }
}

proof fn lemma_bounds_are_the_ends(
    windows: Seq<MonitorGeometry>,
    edge: Edge,
    near: int,
    far: int,
)
    requires
        windows.len() > 0,
        forall|k: int|
            0 <= k < windows.len() ==> near <= (#[trigger] windows[k]).start(edge)
                && windows[k].end(edge) <= far,
        exists|k: int| 0 <= k < windows.len() && near == (#[trigger] windows[k]).start(edge),
        exists|k: int| 0 <= k < windows.len() && far == (#[trigger] windows[k]).end(edge),
    ensures
        near == near_end(windows, edge),
        far == far_end(windows, edge),
{
    combined_span_is_tight(windows, edge);
    let n = choose|k: int| 0 <= k < windows.len() && near == (#[trigger] windows[k]).start(edge);
    let f = choose|k: int| 0 <= k < windows.len() && far == (#[trigger] windows[k]).end(edge);
    assert(near_end(windows, edge) <= windows[n].start(edge));
    assert(windows[f].start(edge) >= near && windows[f].end(edge) <= far_end(windows, edge));
}

/// Every suppressed entry is dropped: nothing changes before the time is over.
pub proof fn nothing_crosses_before_its_time(
    state: CaptureState,
    event: PointerEvent,
    until: u64,
    now: u64,
)
    requires
        state.grab_suppressed_until == Some(until),
        now < until,
        event is Enter,
    ensures
        state.after(event, now) == state,
        state.work(event, now) == PointerWork::Nothing,
{
}

/// Entering a surface that is no edge window changes nothing.
pub proof fn other_surfaces_do_not_matter(
    state: CaptureState,
    surface_x: i32,
    surface_y: i32,
    now: u64,
)
    ensures
        ({
            let enter = PointerEvent::Enter { window: None, surface_x, surface_y };
            state.after(enter, now) == state && state.work(enter, now) == PointerWork::Nothing
        }),
{
}

/// A pointer that crosses at a pixel of an edge window and comes back at the same distance
/// from the far end comes back at that pixel.
pub proof fn crossing_and_return_meet(
    state: CaptureState,
    window: int,
    pixel: int,
    surface_x: i32,
    surface_y: i32,
    i: int,
)
    requires
        state.wf(),
        0 <= window < state.windows.len(),
        0 <= pixel < state.windows[window].extent(state.edge),
        UNITS_PER_PIXEL * pixel == (if state.edge.is_vertical() {
            surface_y
        } else {
            surface_x
        }),
        ({
            let from_bottom = state.from_far_end(window, surface_x, surface_y) / 256;
            lands_on(
                state.windows,
                state.edge,
                far_end(state.windows, state.edge) - from_bottom,
                i,
            )
        }),
    ensures
        ({
            let from_bottom = state.from_far_end(window, surface_x, surface_y) / 256;
            &&& state.from_far_end(window, surface_x, surface_y) == UNITS_PER_PIXEL * from_bottom
            &&& state.windows[i].clamped(
                state.edge,
                far_end(state.windows, state.edge) - from_bottom,
            ) == state.windows[window].start(state.edge) + pixel
        }),
{
    let at = state.windows[window].start(state.edge) + pixel;
    assert(state.windows[window].covers(state.edge, at));
    assert(far_end(state.windows, state.edge) - state.from_far_end(window, surface_x, surface_y)
        / 256 == at);
}

/// A pointer that crosses at a pixel of an edge window and comes back at the distance from the
/// far end that was reported comes back at that pixel, on a monitor that has it.
pub proof fn reported_crossings_return_to_their_pixel(
    state: CaptureState,
    window: usize,
    pixel: int,
    surface_x: i32,
    surface_y: i32,
    now: u64,
    i: int,
)
    requires
        state.wf(),
        window < state.windows.len(),
        state.after(
            PointerEvent::Enter { window: Some(window), surface_x, surface_y },
            now,
        ).pending.len() == state.pending.len() + 1,
        ({
            let m = state.windows[window as int];
            if state.edge is Left || state.edge is Right {
                0 <= pixel < m.height && surface_y == 256 * pixel
            } else {
                0 <= pixel < m.width && surface_x == 256 * pixel
            }
        }),
        state.after(
            PointerEvent::Enter { window: Some(window), surface_x, surface_y },
            now,
        ).pending.last() matches CaptureEvent::Begin { from_bottom, .. } ==> lands_on(
            state.windows,
            state.edge,
            far_end(state.windows, state.edge) - from_bottom as int / 256,
            i,
        ),
    ensures
        state.after(
            PointerEvent::Enter { window: Some(window), surface_x, surface_y },
            now,
        ).pending.last() matches CaptureEvent::Begin { from_bottom, .. } && from_bottom % 256 == 0
            && {
            let m = state.windows[window as int];
            let back = state.windows[i].landing(
                state.edge,
                far_end(state.windows, state.edge) - from_bottom as int / 256,
            );
            if state.edge is Left || state.edge is Right {
                back.1 == m.y + pixel
            } else {
                back.0 == m.x + pixel
            }
        },
{
    let m = state.windows[window as int];
    let at = m.start(state.edge) + pixel;
    combined_span_is_tight(state.windows, state.edge);
    assert(m.covers(state.edge, at));
    let from_far = state.from_far_end(window as int, surface_x, surface_y);
    assert(from_far == 256 * (far_end(state.windows, state.edge) - at));
    assert(from_far / 256 == far_end(state.windows, state.edge) - at);
    assert(state.windows[i].covers(state.edge, at));
}

/// While the pointer is grabbed every button event is reported, with its button and the low
/// byte of its state, whatever the state is: a press and the release after it both, in their
/// order. Nothing else changes.
pub proof fn every_button_event_is_reported(
    state: CaptureState,
    button: u32,
    down: u32,
    up: u32,
    now: u64,
    later: u64,
)
    requires
        state.wf(),
        state.focused,
    ensures
        ({
            let pressed = state.after(PointerEvent::Button { button, state: down }, now);
            let released = pressed.after(PointerEvent::Button { button, state: up }, later);
            &&& pressed.pending.len() == state.pending.len() + 1
            &&& released.pending == state.pending + seq![
                CaptureEvent::Input(Event::MouseButton { button, state: (down % 256) as u8 }),
                CaptureEvent::Input(Event::MouseButton { button, state: (up % 256) as u8 }),
            ]
            &&& released == (CaptureState { pending: released.pending, ..state })
        }),
{
    assert(down as u8 == (down % 256) as u8) by (bit_vector);
    assert(up as u8 == (up % 256) as u8) by (bit_vector);
    let released = state.after(PointerEvent::Button { button, state: down }, now).after(
        PointerEvent::Button { button, state: up },
        later,
    );
    assert(released.pending =~= state.pending + seq![
        CaptureEvent::Input(Event::MouseButton { button, state: (down % 256) as u8 }),
        CaptureEvent::Input(Event::MouseButton { button, state: (up % 256) as u8 }),
    ]);
}

/// While the pointer is grabbed every scroll value is reported once, as it is, with the low
/// byte of its axis: a discrete step as its number of 120ths, and a continuous value unless a
/// discrete step told of it already. Nothing else changes but whether a step told of the
/// next continuous value.
pub proof fn every_scroll_is_reported(
    state: CaptureState,
    axis: u32,
    value: i32,
    value120: i32,
    now: u64,
)
    requires
        state.wf(),
        state.focused,
    ensures
        ({
            let event = PointerEvent::Axis { axis, value };
            let after = state.after(event, now);
            &&& !state.scroll_discrete_pending ==> {
                &&& after.pending.len() == state.pending.len() + 1
                &&& after.pending.drop_last() == state.pending
                &&& after.pending.last() matches CaptureEvent::Input(
                    Event::MouseScroll { axis: a, value: v },
                ) && a == axis % 256 && v == value
            }
            &&& state.scroll_discrete_pending ==> after.pending == state.pending
            &&& !after.scroll_discrete_pending
            &&& after == (CaptureState {
                pending: after.pending,
                scroll_discrete_pending: false,
                ..state
            })
            &&& state.work(event, now) == PointerWork::Nothing
        }),
        ({
            let event = PointerEvent::AxisValue120 { axis, value120 };
            let after = state.after(event, now);
            &&& after.pending.len() == state.pending.len() + 1
            &&& after.pending.drop_last() == state.pending
            &&& after.pending.last() matches CaptureEvent::Input(
                Event::MouseScroll { axis: a, value: v },
            ) && a == axis % 256 && v == 256 * value120
            &&& after == (CaptureState {
                pending: after.pending,
                scroll_discrete_pending: true,
                ..state
            })
            &&& state.work(event, now) == PointerWork::Nothing
        }),
{
    assert(axis as u8 == axis % 256) by (bit_vector);
    let one = state.after(PointerEvent::Axis { axis, value }, now);
    let other = state.after(PointerEvent::AxisValue120 { axis, value120 }, now);
    if !state.scroll_discrete_pending {
        assert(one.pending.drop_last() =~= state.pending);
    }
    assert(other.pending.drop_last() =~= state.pending);
}

/// Events are only ever added to those not yet handed out, behind them, one at a time; and
/// input never changes the grab.
pub proof fn events_queue_up(state: CaptureState, event: PointerEvent, now: u64)
    requires
        state.wf(),
    ensures
        ({
            let after = state.after(event, now);
            &&& state.pending.len() <= after.pending.len() <= state.pending.len() + 1
            &&& after.pending.take(state.pending.len() as int) == state.pending
            &&& after.edge == state.edge
            &&& after.windows == state.windows
            &&& after.targets == state.targets
            &&& after.can_inhibit == state.can_inhibit
            &&& after.max_from_bottom == state.max_from_bottom
            &&& !(event is Enter) ==> after.grab_suppressed_until == state.grab_suppressed_until
            &&& !(event is Enter || event is Leave) ==> {
                &&& after.focused == state.focused
                &&& after.active_window == state.active_window
                &&& state.work(event, now) == PointerWork::Nothing
            }
            &&& event is Other ==> after == state
        }),
{
    assert(state.after(event, now).pending.take(state.pending.len() as int) =~= state.pending);
}

/// When the pointer leaves it is let go, and what the grab created is undone: all of it, once.
pub proof fn leaving_lets_the_pointer_go(state: CaptureState, now: u64)
    requires
        state.wf(),
    ensures
        ({
            let after = state.after(PointerEvent::Leave, now);
            &&& !after.focused
            &&& after.active_window is None
            &&& !after.pointer_lock
            &&& !after.rel_pointer
            &&& !after.shortcut_inhibitor
            &&& after.scroll_discrete_pending == state.scroll_discrete_pending
            &&& state.focused ==> after.pending == state.pending.push(CaptureEvent::Released)
            &&& !state.focused ==> after.pending == state.pending
            &&& state.work(PointerEvent::Leave, now) == PointerWork::Ungrab(
                UngrabWork {
                    window: state.active_window,
                    unlock: state.focused,
                    unrelative: state.focused,
                    uninhibit: state.focused && state.can_inhibit,
                },
            )
        }),
{
}

/// A configured name is found exactly if some output has it or some description holds it.
/// Where no output has the name, the first one whose description holds it is meant.
pub proof fn a_description_means_its_output(outputs: Seq<OutputInfo>, name: Seq<char>, j: int)
    requires
        0 <= j < outputs.len(),
    ensures
        outputs[j].name@ == name || contains(outputs[j].description@, name) ==> is_found(
            outputs,
            name,
        ),
        is_found(outputs, name) ==> exists|k: int|
            0 <= k < outputs.len() && ((#[trigger] outputs[k]).name@ == name || contains(
                outputs[k].description@,
                name,
            )),
        (forall|k: int| 0 <= k < outputs.len() ==> (#[trigger] outputs[k]).name@ != name)
            && contains(outputs[j].description@, name) && (forall|k: int|
            0 <= k < j ==> !contains((#[trigger] outputs[k]).description@, name)) ==> first_meant(
            outputs,
            name,
            j,
        ),
        outputs[j].name@ == name && (forall|k: int|
            0 <= k < j ==> (#[trigger] outputs[k]).name@ != name) ==> first_meant(outputs, name, j),
{
    if outputs[j].name@ == name || contains(outputs[j].description@, name) {
        lemma_some_output_is_meant(outputs, name, j);
    }
    if is_found(outputs, name) {
        let k = choose|k: int| first_meant(outputs, name, k);
        assert(outputs[k].name@ == name || contains(outputs[k].description@, name));
    }
}

proof fn lemma_some_output_is_meant(outputs: Seq<OutputInfo>, name: Seq<char>, j: int)
    requires
        0 <= j < outputs.len(),
        outputs[j].name@ == name || contains(outputs[j].description@, name),
    ensures
        is_found(outputs, name),
    decreases j,
{
    let named = is_named(outputs, name);
    let k = if named {
        choose|k: int| 0 <= k < outputs.len() && (#[trigger] outputs[k]).name@ == name
    } else {
        j
    };
    lemma_first_output(outputs, name, named, k);
}

/// The first output that has the name, or whose description holds it, up to one that does.
proof fn lemma_first_output(outputs: Seq<OutputInfo>, name: Seq<char>, named: bool, k: int)
    requires
        0 <= k < outputs.len(),
        named == is_named(outputs, name),
        named ==> outputs[k].name@ == name,
        !named ==> contains(outputs[k].description@, name),
    ensures
        is_found(outputs, name),
    decreases k,
{
    if named && exists|i: int| 0 <= i < k && (#[trigger] outputs[i]).name@ == name {
        let i = choose|i: int| 0 <= i < k && (#[trigger] outputs[i]).name@ == name;
        lemma_first_output(outputs, name, named, i);
    } else if !named && exists|i: int|
        0 <= i < k && contains((#[trigger] outputs[i]).description@, name) {
        let i = choose|i: int| 0 <= i < k && contains((#[trigger] outputs[i]).description@, name);
        lemma_first_output(outputs, name, named, i);
    } else {
        assert(first_meant(outputs, name, k));
    }
}

/// All configured names are found exactly if one more name, and all names before it, are.
pub proof fn each_name_is_looked_for(monitors: Seq<String>, name: String, outputs: Seq<OutputInfo>)
    ensures
        all_found(seq![], outputs),
        all_found(monitors.push(name), outputs) <==> all_found(monitors, outputs) && is_found(
            outputs,
            name@,
        ),
{
    let all = monitors.push(name);
    if all_found(all, outputs) {
        assert(is_found(outputs, all[monitors.len() as int]@));
        assert forall|i: int| 0 <= i < monitors.len() implies is_found(
            outputs,
            (#[trigger] monitors[i])@,
        ) by {
            assert(is_found(outputs, all[i]@));
        }
    }
}

} // verus!
