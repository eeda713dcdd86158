//! What travels between the two machines, and what the edge surfaces report.
use vstd::prelude::*;

verus! {

/// An event of the protocol between sender and receiver.
///
/// Lengths and distances count 256ths of a pixel, the unit in which the compositor
/// reports them, but for the receiver's `from_bottom`, which is rounded to whole pixels.
#[derive(Debug, PartialEq, Eq)]
pub enum Event {
    CaptureBegin { from_bottom: i64, source_height: i64 },
    CaptureEnd,
    MouseMotion { dx: i32, dy: i32 },
    MouseButton { button: u32, state: u8 },
    MouseScroll { axis: u8, value: i64 },
    KeyPress { code: u32 },
    KeyRelease { code: u32 },
    Heartbeat,
    HeartbeatAck,
    ReturnToSender { from_bottom: i32, source_height: i64 },
    ClipboardData { text: String },
    ClipboardImage { format: String, data: Vec<u8> },
    ClipboardHtml { html: String, plain: String },
}

/// What the capture side reports: the pointer crossed over, input arrived while it is
/// captured, or the compositor took the pointer back.
#[derive(Debug, PartialEq, Eq)]
pub enum CaptureEvent {
    Begin { from_bottom: i64, source_height: i64 },
    Input(Event),
    Released,
}

} // verus!
