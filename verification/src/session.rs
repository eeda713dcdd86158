//! The sender's session: when capture begins and ends, what is sent then, and when the
//! connection is given up.
use vstd::prelude::*;
use vstd::utf8::encode_utf8;

use crate::capture::{Capture, CaptureState, PointerEvent, PointerWork, UngrabWork};
use crate::config::HeartbeatConfig;
use crate::evdev::{
    each_key_is_released_once, fetched, keys_down, keys_reported, lemma_keys_down_of_parts,
    no_key_is_left_down, opened_paths, releases_each, reported, translation_keeps_grab,
    EvdevCapture, Fetch, KeySet, Keyboards, NextStep, RawEvent, ReadyKind,
};
use crate::event::{CaptureEvent, Event};
use crate::keyboards::contents;
use crate::keymap::modifier;
use crate::text::{plain_text, strip_html_tags};
use crate::wire::{fits, Content, MAX_FRAME_PAYLOAD};

verus! {

/// Nanoseconds in a millisecond. All times are nanoseconds on one clock.
pub const MS: u64 = 1_000_000;

/// For how long after connecting the pointer does not cross: entries that were queued while
/// there was no connection must not grab the keyboard.
pub const CONNECT_COOLDOWN_MS: u64 = 500;

/// For how long after coming back the pointer does not cross again.
pub const RETURN_COOLDOWN_MS: u64 = 100;

/// Releases by the compositor closer together than this count as one streak.
pub const STREAK_GAP_MS: u64 = 1_000;

/// How long the receiver is given to start reading after a connection was made.
pub const SETTLE_MS: u64 = 50;

/// How long to wait before connecting again after the connection was given up.
pub const RECONNECT_PAUSE_MS: u64 = 1_000;

/// How often to look for a keyboard while there is none.
pub const KEYBOARD_RETRY_MS: u64 = 2_000;

/// The longest cooldown.
pub const MAX_COOLDOWN_MS: u64 = 30_000;

/// For how long the pointer does not cross after the compositor took it back for the
/// `streak`-th time in quick succession.
pub open spec fn cooldown_after(streak: u32) -> u64 {
    if streak == 1 {
        300
    } else if 2 <= streak <= 4 {
        1_000
    } else if 5 <= streak <= 20 {
        5_000
    } else {
        MAX_COOLDOWN_MS
    }
}

/// `cooldown_after`, computed.
pub fn cooldown_ms(streak: u32) -> (ms: u64)
    ensures
        ms == cooldown_after(streak),
{
    if streak == 1 {
        300
    } else if streak >= 2 && streak <= 4 {
        1_000
    } else if streak >= 5 && streak <= 20 {
        5_000
    } else {
        MAX_COOLDOWN_MS
    }
}

/// The longer a streak of releases, the longer the cooldown, up to the longest one.
pub proof fn cooldown_grows_with_the_streak(shorter: u32, longer: u32)
    requires
        1 <= shorter <= longer,
    ensures
        300 <= cooldown_after(shorter) <= cooldown_after(longer) <= MAX_COOLDOWN_MS,
{
}

/// Whether a time leaves room on the clock for the longest cooldown.
pub open spec fn in_range(now: u64) -> bool {
    now + MAX_COOLDOWN_MS * MS <= u64::MAX
}

/// Whether `events` ends a capture during which these keys are held: it releases each of
/// them, and ends with the end of the capture.
pub open spec fn closes(events: Seq<Event>, held: Set<u32>) -> bool {
    &&& events.len() > 0
    &&& events.last() == Event::CaptureEnd
    &&& releases_each(events.drop_last(), held)
}

/// Whether `events` begins a capture: it presses each modifier that is reported down, once,
/// and ends with the beginning of the capture.
pub open spec fn opens(
    events: Seq<Event>,
    states: Seq<Option<KeySet>>,
    from_bottom: i64,
    source_height: i64,
) -> bool {
    exists|codes: Seq<u32>|
        {
            &&& #[trigger] codes.no_duplicates()
            &&& forall|code: u32| #[trigger]
                codes.contains(code) <==> modifier(code) && reported(states, code as u16)
            &&& events == codes.map_values(|code: u32| Event::KeyPress { code }).push(
                Event::CaptureBegin { from_bottom, source_height },
            )
        }
}

/// The modifiers that are reported down.
pub open spec fn modifiers_down(states: Seq<Option<KeySet>>) -> Set<u32> {
    Set::new(|code: u32| modifier(code) && reported(states, code as u16))
}

/// What to do when the pointer crossed.
#[derive(Debug, Clone, Copy, PartialEq, Eq, Structural)]
pub enum BeginStep {
    /// Nothing: capture is active already.
    Ignore,
    /// Let the pointer go again.
    Refuse(UngrabWork),
    /// Grab the keyboards.
    Grab,
}

/// What to do once it is known whether the keyboards could be grabbed.
#[derive(Debug)]
pub enum GrabStep {
    /// Send these events: capture is active.
    Active(Vec<Event>),
    /// Let the pointer go again.
    Failed(UngrabWork),
}

/// What to do after a wakeup by the keyboards.
#[derive(Debug)]
pub enum KeyboardStep {
    /// Send these events.
    Send(Vec<Event>),
    Wait,
    /// Look for new keyboards.
    Rescan,
    /// Send these events and let the keyboards and the pointer go: no keyboard is left.
    Lost(Vec<Event>),
}

/// What to do after the Super+M chord.
#[derive(Debug)]
pub enum Escape {
    /// There was none.
    Nothing,
    /// Send the events and let go, if capture was active; and run the toggle.
    Toggle(Option<Vec<Event>>),
}

/// What to do with an event that was received.
#[derive(Debug)]
pub enum Received {
    Nothing,
    /// Send the events and let go, if capture was active; and put the cursor back, this far
    /// from the far end of the edge.
    Return { release: Option<Vec<Event>>, from_bottom: i32 },
    /// Put text on the clipboard.
    WriteText(String),
    /// Put an image on the clipboard.
    WriteImage { format: String, data: Vec<u8> },
}

/// What to do when a heartbeat is due.
#[derive(Debug)]
pub enum Beat {
    /// Send it.
    Send,
    /// The connection is dead: send the events and let go, if capture was active; and go on
    /// as told.
    Dead(Option<Vec<Event>>, Course),
}

/// What brings a capture, and a connection or the program, to its end.
#[derive(Debug, Clone, Copy, PartialEq, Eq, Structural)]
pub enum Trouble {
    /// Input could not be sent.
    NotSent,
    /// Nothing can be received any more.
    NotReceived,
    /// Too many heartbeats went unanswered.
    HeartbeatsMissed,
    /// The compositor's connection is lost.
    CompositorLost,
    /// The program was told to end.
    Terminated,
}

/// How to go on after trouble.
#[derive(Debug, Clone, Copy, PartialEq, Eq, Structural)]
pub enum Course {
    /// On a new connection, at once.
    Reconnect,
    /// On a new connection: hang up first, and wait this long.
    HangUp { pause_ms: u64 },
    /// Not at all: hang up and end the program, cleanly or with an error.
    Exit { clean: bool },
}

/// How to go on after trouble.
pub open spec fn course_after(trouble: Trouble) -> Course {
    match trouble {
        Trouble::NotSent => Course::Reconnect,
        Trouble::NotReceived | Trouble::HeartbeatsMissed => Course::HangUp {
            pause_ms: RECONNECT_PAUSE_MS,
        },
        Trouble::CompositorLost => Course::Exit { clean: false },
        Trouble::Terminated => Course::Exit { clean: true },
    }
}

/// The state of the session.
#[verifier::ext_equal]
pub struct SessionState {
    pub pointer: CaptureState,
    pub keyboards: Keyboards,
    /// Whether capture is active: input goes to the receiver.
    pub capturing: bool,
    /// Whether capture has ended and the keyboards are yet to be let go.
    pub releasing: bool,
    /// Whether there is a keyboard to grab.
    pub kbd_available: bool,
    /// Until when crossing is refused.
    pub return_cooldown: Option<u64>,
    /// The hash of the clipboard content last sent or received.
    pub last_clip_hash: u64,
    /// How often in quick succession the compositor took the pointer back.
    pub force_release_streak: u32,
    /// When it last did.
    pub force_release_last: Option<u64>,
    /// Heartbeats sent since the last answer.
    pub missed_heartbeats: u32,
    pub heartbeat: HeartbeatConfig,
}

impl SessionState {
    /// What holds of every state: the keyboards are grabbed while capture is active and
    /// until they are let go after it; keys are held only while it is active; it is active
    /// only while there is a keyboard.
    pub open spec fn wf(self) -> bool {
        &&& self.pointer.wf()
        &&& self.keyboards.grabbed == (self.capturing || self.releasing)
        &&& !(self.capturing && self.releasing)
        &&& self.capturing ==> self.kbd_available
        &&& !self.capturing ==> self.keyboards.held == Set::<u32>::empty()
        &&& self.missed_heartbeats <= self.heartbeat.miss_threshold
    }

    /// The state after capture ended, if it was active.
    pub open spec fn ended(self) -> SessionState {
        if self.capturing {
            SessionState {
                capturing: false,
                releasing: true,
                keyboards: Keyboards { held: Set::empty(), ..self.keyboards },
                ..self
            }
        } else {
            self
        }
    }

    /// The state after the keyboards and the pointer were let go.
    pub open spec fn let_go(self) -> SessionState {
        SessionState {
            releasing: false,
            keyboards: Keyboards {
                at_grab: Set::empty(),
                grabbed: false,
                escape_armed: false,
                ..self.keyboards
            },
            pointer: self.pointer.ungrabbed(),
            ..self
        }
    }

    /// Milliseconds between heartbeats: they are more frequent while capture is active.
    pub open spec fn heartbeat_ms(self) -> u64 {
        if self.capturing {
            self.heartbeat.active_interval_ms
        } else {
            self.heartbeat.idle_interval_ms
        }
    }

    /// The state with the count of unanswered heartbeats starting afresh.
    pub open spec fn beating(self) -> SessionState {
        SessionState { missed_heartbeats: 0, ..self }
    }

    /// The state in which crossing is refused for some time.
    pub open spec fn cooling(self, now: u64, ms: u64) -> SessionState {
        SessionState { return_cooldown: Some((now + ms * MS) as u64), ..self }
    }

    /// Whether crossing is refused at the given time.
    pub open spec fn cooling_at(self, now: u64) -> bool {
        self.return_cooldown matches Some(until) && now < until
    }

    /// Whether a crossing at the given time starts to capture.
    pub open spec fn lets_cross(self, now: u64) -> bool {
        !self.capturing && self.kbd_available && !self.cooling_at(now)
    }

    /// Whether a release by the compositor at the given time continues a streak.
    pub open spec fn in_streak(self, now: u64) -> bool {
        self.force_release_last matches Some(last) && now - last < STREAK_GAP_MS * MS
    }

    /// The length of the streak, with a release by the compositor at the given time.
    pub open spec fn streak_at(self, now: u64) -> u32 {
        if !self.in_streak(now) {
            1
        } else if self.force_release_streak == u32::MAX {
            u32::MAX
        } else {
            (self.force_release_streak + 1) as u32
        }
    }

    /// The state after the compositor took the pointer back at the given time.
    pub open spec fn backed_off(self, now: u64) -> SessionState {
        let streak = self.streak_at(now);
        let until = (now + cooldown_after(streak) * MS) as u64;
        SessionState {
            force_release_streak: streak,
            force_release_last: Some(now),
            return_cooldown: Some(until),
            pointer: CaptureState {
                grab_suppressed_until: Some(until),
                ..self.pointer.ungrabbed()
            },
            ..self
        }
    }

    /// Whether a due heartbeat finds the connection dead. A heartbeat counts as missed when
    /// the next one is due and it was not answered; so the connection is dead one interval
    /// after the last of as many heartbeats as the threshold went out.
    pub open spec fn is_dead(self) -> bool {
        self.missed_heartbeats >= self.heartbeat.miss_threshold
    }

    /// The state after a heartbeat was due.
    pub open spec fn ticked(self) -> SessionState {
        if self.is_dead() {
            self.ended()
        } else {
            SessionState { missed_heartbeats: (self.missed_heartbeats + 1) as u32, ..self }
        }
    }

    /// The state after several heartbeats were due and none was answered.
    pub open spec fn unanswered(self, beats: nat) -> SessionState
        decreases beats,
    {
        if beats == 0 {
            self
        } else {
            self.unanswered((beats - 1) as nat).ticked()
        }
    }

    /// Whether clipboard content of the given hash is sent when the pointer crossed.
    pub open spec fn offers(self, hash: u64) -> bool {
        hash != self.last_clip_hash
    }

    /// The state after clipboard content of the given hash was sent or received.
    pub open spec fn clipped(self, hash: u64) -> SessionState {
        SessionState { last_clip_hash: hash, ..self }
    }

    /// The state after an event was received. The hash is that of the clipboard content
    /// that the event carries.
    pub open spec fn after_receiving(self, event: Event, hash: u64) -> SessionState {
        match event {
            Event::ReturnToSender { source_height, .. } => SessionState {
                pointer: CaptureState {
                    max_from_bottom: Some(source_height),
                    ..self.pointer
                },
                ..self
            }.ended(),
            Event::HeartbeatAck => SessionState { missed_heartbeats: 0, ..self },
            Event::ClipboardData { .. } | Event::ClipboardImage { .. }
            | Event::ClipboardHtml { .. } => self.clipped(hash),
            _ => self,
        }
    }
}

/// Whether the events that end a capture are handed out exactly if it was active.
pub open spec fn ends(state: SessionState, release: Option<Vec<Event>>) -> bool {
    match release {
        Some(events) => state.capturing && closes(events@, state.keyboards.held),
        None => !state.capturing,
    }
}

/// The session of a sender.
pub struct Session {
    pointer: Capture,
    keyboards: EvdevCapture,
    capturing: bool,
    releasing: bool,
    kbd_available: bool,
    return_cooldown: Option<u64>,
    last_clip_hash: u64,
    force_release_streak: u32,
    force_release_last: Option<u64>,
    missed_heartbeats: u32,
    heartbeat: HeartbeatConfig,
}

impl View for Session {
    type V = SessionState;

    closed spec fn view(&self) -> SessionState {
        SessionState {
            pointer: self.pointer@,
            keyboards: self.keyboards@,
            capturing: self.capturing,
            releasing: self.releasing,
            kbd_available: self.kbd_available,
            return_cooldown: self.return_cooldown,
            last_clip_hash: self.last_clip_hash,
            force_release_streak: self.force_release_streak,
            force_release_last: self.force_release_last,
            missed_heartbeats: self.missed_heartbeats,
            heartbeat: self.heartbeat,
        }
    }
}

impl Session {
    /// A session with an open keyboard, before the first connection.
    pub fn new(pointer: Capture, keyboards: EvdevCapture, heartbeat: HeartbeatConfig) -> (session:
        Session)
        requires
            pointer@.wf(),
            !keyboards@.grabbed,
            keyboards@.held == Set::<u32>::empty(),
        ensures
            session@.wf(),
            session@ == (SessionState {
                pointer: pointer@,
                keyboards: keyboards@,
                capturing: false,
                releasing: false,
                kbd_available: true,
                return_cooldown: None,
                last_clip_hash: 0,
                force_release_streak: 0,
                force_release_last: None,
                missed_heartbeats: 0,
                heartbeat,
            }),
    {
        Session {
            pointer,
            keyboards,
            capturing: false,
            releasing: false,
            kbd_available: true,
            return_cooldown: None,
            last_clip_hash: 0,
            force_release_streak: 0,
            force_release_last: None,
            missed_heartbeats: 0,
            heartbeat,
        }
    }

    /// Whether capture is active.
    pub fn is_capturing(&self) -> (b: bool)
        ensures
            b == self@.capturing,
    {
        self.capturing
    }

    /// Whether there is a keyboard to grab.
    pub fn has_keyboard(&self) -> (b: bool)
        ensures
            b == self@.kbd_available,
    {
        self.kbd_available
    }

    /// Milliseconds between heartbeats. They change when capture begins and when it ends.
    pub fn heartbeat_ms(&self) -> (ms: u64)
        ensures
            ms == self@.heartbeat_ms(),
    {
        if self.capturing {
            self.heartbeat.active_interval_ms
        } else {
            self.heartbeat.idle_interval_ms
        }
    }

    /// How often in quick succession the compositor took the pointer back.
    pub fn force_release_streak(&self) -> (streak: u32)
        ensures
            streak == self@.force_release_streak,
    {
        self.force_release_streak
    }

    /// Paths of the open keyboards.
    pub fn devices(&self) -> (devices: &Vec<Vec<u8>>)
        ensures
            contents(devices@) == self@.keyboards.devices,
    {
        self.keyboards.devices()
    }

    /// Takes in a pointer event.
    pub fn pointer_event(&mut self, event: PointerEvent, now: u64) -> (work: PointerWork)
        requires
            old(self)@.wf(),
            event matches PointerEvent::Enter { window: Some(w), .. } ==> w < old(
                self,
            )@.pointer.windows.len(),
        ensures
            final(self)@.wf(),
            final(self)@ == (SessionState {
                pointer: old(self)@.pointer.after(event, now),
                ..old(self)@
            }),
            work == old(self)@.pointer.work(event, now),
    {
        self.pointer.pointer_event(event, now)
    }

    /// Takes in relative motion of the pointer.
    pub fn relative_motion(&mut self, dx: i32, dy: i32)
        requires
            old(self)@.wf(),
        ensures
            final(self)@.wf(),
            final(self)@ == (if old(self)@.pointer.focused {
                SessionState {
                    pointer: old(self)@.pointer.with_event(
                        CaptureEvent::Input(Event::MouseMotion { dx, dy }),
                    ),
                    ..old(self)@
                }
            } else {
                old(self)@
            }),
    {
        self.pointer.relative_motion(dx, dy);
    }

    /// Hands out the oldest capture event that was not handed out yet.
    pub fn poll_event(&mut self) -> (event: Option<CaptureEvent>)
        requires
            old(self)@.wf(),
        ensures
            final(self)@.wf(),
            match event {
                Some(e) => {
                    &&& old(self)@.pointer.pending.len() > 0
                    &&& e == old(self)@.pointer.pending[0]
                    &&& final(self)@ == (SessionState {
                        pointer: CaptureState {
                            pending: old(self)@.pointer.pending.skip(1),
                            ..old(self)@.pointer
                        },
                        ..old(self)@
                    })
                },
                None => old(self)@.pointer.pending.len() == 0 && final(self)@ == old(self)@,
            },
    {
        self.pointer.poll_event()
    }

    /// The first source of keyboard events that is ready.
    pub fn wait_ready(&self, device_ready: &Vec<bool>, inotify_ready: bool) -> (ready: Option<
        ReadyKind,
    >)
        requires
            device_ready@.len() == self@.keyboards.devices.len(),
        ensures
            match ready {
                Some(ReadyKind::Device(i)) => i < self@.keyboards.devices.len()
                    && device_ready@[i as int] && forall|k: int|
                    0 <= k < i ==> !device_ready@[k],
                Some(ReadyKind::Inotify) => inotify_ready && forall|k: int|
                    0 <= k < device_ready@.len() ==> !device_ready@[k],
                None => !inotify_ready && forall|k: int|
                    0 <= k < device_ready@.len() ==> !device_ready@[k],
            },
    {
        self.keyboards.wait_ready(device_ready, inotify_ready)
    }

    /// Which of the listed keyboards are not open yet, in the order of the listing.
    pub fn rescan(&self, found: &Vec<Vec<u8>>) -> (new: Vec<Vec<u8>>)
        ensures
            contents(new@) == contents(found@).filter(
                |path: Seq<u8>| !self@.keyboards.devices.contains(path),
            ),
    {
        self.keyboards.rescan(found)
    }

    /// Takes in which of the new keyboards could be opened; tells whether they must be
    /// grabbed.
    pub fn rescanned(&mut self, new: &Vec<Vec<u8>>, opened: &Vec<bool>) -> (grab: bool)
        requires
            old(self)@.wf(),
            new@.len() == opened@.len(),
        ensures
            final(self)@.wf(),
            grab == old(self)@.keyboards.grabbed,
            final(self)@ == (SessionState {
                keyboards: Keyboards {
                    devices: old(self)@.keyboards.devices + opened_paths(contents(new@), opened@),
                    ..old(self)@.keyboards
                },
                ..old(self)@
            }),
    {
        self.keyboards.rescanned(new, opened)
    }

    /// Takes in that there is a connection: the count of unanswered heartbeats starts afresh,
    /// and crossing is refused for a short time.
    pub fn connected(&mut self, now: u64)
        requires
            old(self)@.wf(),
            in_range(now),
        ensures
            final(self)@.wf(),
            final(self)@ == old(self)@.cooling(now, CONNECT_COOLDOWN_MS).beating(),
            final(self)@.return_cooldown matches Some(until) && until == now + 500_000_000,
            final(self)@.missed_heartbeats == 0,
    {
        self.return_cooldown = Some(now + CONNECT_COOLDOWN_MS * MS);
        self.missed_heartbeats = 0;
    }

    /// Takes in that the pointer crossed. Crossing is refused without a keyboard and during
    /// a cooldown, and ignored while capture is active already.
    pub fn begin(&mut self, now: u64) -> (step: BeginStep)
        requires
            old(self)@.wf(),
        ensures
            final(self)@.wf(),
            if old(self)@.capturing {
                step is Ignore && final(self)@ == old(self)@
            } else if old(self)@.lets_cross(now) {
                &&& step is Grab
                &&& final(self)@ == (SessionState { return_cooldown: None, ..old(self)@ }).beating()
            } else {
                &&& step == BeginStep::Refuse(old(self)@.pointer.to_undo())
                &&& final(self)@ == (SessionState {
                    pointer: old(self)@.pointer.ungrabbed(),
                    ..old(self)@
                })
            },
            step is Ignore <==> old(self)@.capturing,
            step is Grab <==> !old(self)@.capturing && old(self)@.kbd_available && !(old(
                self,
            )@.return_cooldown matches Some(until) && now < until),
            step is Grab ==> final(self)@.return_cooldown is None
                && final(self)@.missed_heartbeats == 0 && final(self)@.pointer == old(
                self,
            )@.pointer,
            step is Refuse ==> !final(self)@.pointer.focused && final(self)@.return_cooldown == old(
                self,
            )@.return_cooldown,
    {
        if self.capturing {
            return BeginStep::Ignore;
        }
        if !self.kbd_available {
            return BeginStep::Refuse(self.pointer.release());
        }
        if let Some(until) = self.return_cooldown {
            if now < until {
                return BeginStep::Refuse(self.pointer.release());
            }
        }
        self.return_cooldown = None;
        self.missed_heartbeats = 0;
        BeginStep::Grab
    }

    /// Takes in whether the keyboards could be grabbed: `before` and `after` are the keys
    /// that each reported down before and after, and `grabs` tells which were grabbed. If
    /// some was, capture is active, and the modifiers that are down are pressed at the other
    /// end and held from then on; if none was, there is no keyboard.
    pub fn grabbed(
        &mut self,
        from_bottom: i64,
        source_height: i64,
        before: &Vec<Option<KeySet>>,
        grabs: &Vec<bool>,
        after: &Vec<Option<KeySet>>,
    ) -> (step: GrabStep)
        requires
            old(self)@.wf(),
            old(self)@.kbd_available,
            !old(self)@.capturing,
            !old(self)@.releasing,
        ensures
            final(self)@.wf(),
            if grabs@.contains(true) {
                &&& step matches GrabStep::Active(events)
                &&& opens(events@, after@, from_bottom, source_height)
                &&& final(self)@ == (SessionState {
                    capturing: true,
                    keyboards: Keyboards {
                        held: modifiers_down(after@),
                        at_grab: keys_reported(before@),
                        grabbed: true,
                        escape_armed: false,
                        escape_signal: false,
                        ..old(self)@.keyboards
                    },
                    ..old(self)@
                })
            } else {
                &&& step == GrabStep::Failed(old(self)@.pointer.to_undo())
                &&& final(self)@ == (SessionState {
                    kbd_available: false,
                    keyboards: Keyboards {
                        at_grab: keys_reported(before@),
                        ..old(self)@.keyboards
                    },
                    pointer: old(self)@.pointer.ungrabbed(),
                    ..old(self)@
                })
            },
            final(self)@.capturing <==> exists|i: int| 0 <= i < grabs@.len() && grabs@[i],
            final(self)@.capturing ==> final(self)@.pointer == old(self)@.pointer,
            !final(self)@.capturing ==> !final(self)@.kbd_available
                && !final(self)@.pointer.focused,
    {
        match self.keyboards.grab(before, grabs) {
            Ok(()) => {
                self.capturing = true;
                let codes: Vec<u32> = self.keyboards.held_modifiers(after);
                let mut events: Vec<Event> = Vec::new();
                let mut i: usize = 0;
                let ghost press = |code: u32| Event::KeyPress { code };
                while i < codes.len()
                    invariant
                        i <= codes@.len(),
                        press == (|code: u32| Event::KeyPress { code }),
                        events@ == codes@.take(i as int).map_values(press),
                    decreases codes@.len() - i,
                {
                    events.push(Event::KeyPress { code: codes[i] });
                    assert(events@ =~= codes@.take(i + 1).map_values(press));
                    i += 1;
                }
                assert(codes@.take(i as int) =~= codes@);
                events.push(Event::CaptureBegin { from_bottom, source_height });
                assert(codes@.no_duplicates());
                self.keyboards.hold(&codes);
                assert(self@.keyboards.held =~= modifiers_down(after@)) by {
                    assert forall|code: u32| #[trigger] codes@.to_set().contains(code)
                        <==> codes@.contains(code) by {}
                }
                GrabStep::Active(events)
            },
            Err(_) => {
                self.kbd_available = false;
                GrabStep::Failed(self.pointer.release())
            },
        }
    }

    /// What is sent of a pointer event: the event, while capture is active.
    pub fn input(&self, event: Event) -> (forward: Option<Event>)
        ensures
            forward == (if self@.capturing {
                Some(event)
            } else {
                None
            }),
    {
        if self.capturing {
            Some(event)
        } else {
            None
        }
    }

    /// What is sent of clipboard content when the pointer crossed: the content, unless its
    /// hash is that of the content last sent or received.
    pub fn offer_clipboard(&mut self, content: Event, hash: u64) -> (send: Option<Event>)
        ensures
            final(self)@ == old(self)@.clipped(hash),
            send == (if old(self)@.offers(hash) {
                Some(content)
            } else {
                None
            }),
            send is Some <==> hash != old(self)@.last_clip_hash,
            final(self)@.last_clip_hash == hash,
            old(self)@.wf() ==> final(self)@.wf(),
    {
        if hash != self.last_clip_hash {
            self.last_clip_hash = hash;
            Some(content)
        } else {
            None
        }
    }

    /// Ends capture, if it is active: what comes out is to be sent, and releases every held
    /// key. Afterwards the keyboards are to be let go.
    pub fn release_capture(&mut self) -> (release: Option<Vec<Event>>)
        requires
            old(self)@.wf(),
        ensures
            final(self)@.wf(),
            final(self)@ == old(self)@.ended(),
            ends(old(self)@, release),
            release is Some <==> old(self)@.capturing,
            !final(self)@.capturing,
            final(self)@.keyboards.held == Set::<u32>::empty(),
    {
        if !self.capturing {
            return None;
        }
        self.capturing = false;
        self.releasing = true;
        let mut events: Vec<Event> = self.keyboards.release_all();
        let ghost releases = events@;
        events.push(Event::CaptureEnd);
        assert(events@.drop_last() =~= releases);
        Some(events)
    }

    /// Ends capture, if it is active, because of trouble, and tells how to go on.
    pub fn trouble(&mut self, trouble: Trouble) -> (outcome: (Option<Vec<Event>>, Course))
        requires
            old(self)@.wf(),
        ensures
            final(self)@.wf(),
            final(self)@ == old(self)@.ended(),
            ends(old(self)@, outcome.0),
            outcome.1 == course_after(trouble),
    {
        let course: Course = match trouble {
            Trouble::NotSent => Course::Reconnect,
            Trouble::NotReceived | Trouble::HeartbeatsMissed => Course::HangUp {
                pause_ms: RECONNECT_PAUSE_MS,
            },
            Trouble::CompositorLost => Course::Exit { clean: false },
            Trouble::Terminated => Course::Exit { clean: true },
        };
        (self.release_capture(), course)
    }

    /// Takes in that the keyboards were let go after capture ended: `states` are the keys
    /// that each reports down then. What comes out are the keys that need a synthetic
    /// release, and how to let the pointer go.
    pub fn capture_released(&mut self, states: &Vec<Option<KeySet>>) -> (work: (
        Vec<u32>,
        UngrabWork,
    ))
        requires
            old(self)@.wf(),
            old(self)@.releasing,
        ensures
            final(self)@.wf(),
            final(self)@ == old(self)@.let_go(),
            work.0@.no_duplicates(),
            forall|code: u32| #[trigger]
                work.0@.contains(code) <==> old(self)@.keyboards.at_grab.contains(code)
                    && !reported(states@, code as u16),
            work.1 == old(self)@.pointer.to_undo(),
    {
        let stale: Vec<u32> = self.keyboards.ungrab(states);
        self.releasing = false;
        let pointer: UngrabWork = self.pointer.release();
        (stale, pointer)
    }

    /// Takes in that capture ended because the compositor took the pointer back: crossing is
    /// refused and suppressed for a time that grows with each such release in quick
    /// succession.
    pub fn back_off(&mut self, now: u64) -> (work: UngrabWork)
        requires
            old(self)@.wf(),
            in_range(now),
        ensures
            final(self)@.wf(),
            final(self)@ == old(self)@.backed_off(now),
            work == old(self)@.pointer.to_undo(),
    {
        let close: bool = match self.force_release_last {
            Some(last) => now < last || now - last < STREAK_GAP_MS * MS,
            None => false,
        };
        self.force_release_streak = if !close {
            1
        } else if self.force_release_streak == u32::MAX {
            u32::MAX
        } else {
            self.force_release_streak + 1
        };
        self.force_release_last = Some(now);
        let until: u64 = now + cooldown_ms(self.force_release_streak) * MS;
        self.return_cooldown = Some(until);
        self.pointer.suppress_grab_until(until)
    }

    /// Takes in a wakeup by the keyboards while capture is active.
    pub fn keyboard_ready(&mut self, ready: ReadyKind, fetches: &Vec<Fetch>) -> (step: KeyboardStep)
        requires
            old(self)@.wf(),
            old(self)@.capturing,
            ready matches ReadyKind::Device(i) ==> i < old(self)@.keyboards.devices.len(),
        ensures
            final(self)@.wf(),
            match ready {
                ReadyKind::Inotify => step is Rescan && final(self)@ == old(self)@,
                ReadyKind::Device(i) => match fetched(fetches@) {
                    None => {
                        let left = SessionState {
                            keyboards: Keyboards {
                                devices: old(self)@.keyboards.devices.remove(i as int),
                                ..old(self)@.keyboards
                            },
                            ..old(self)@
                        };
                        if left.keyboards.devices.len() == 0 {
                            &&& final(self)@ == (SessionState {
                                kbd_available: false,
                                ..left.ended()
                            })
                            &&& step matches KeyboardStep::Lost(events) && closes(
                                events@,
                                old(self)@.keyboards.held,
                            )
                        } else {
                            step is Wait && final(self)@ == left
                        }
                    },
                    Some(events) => {
                        let translated = old(self)@.keyboards.translated_all(events);
                        &&& final(self)@ == (SessionState {
                            keyboards: translated.0,
                            ..old(self)@
                        })
                        &&& if translated.1.len() == 0 {
                            step is Wait
                        } else {
                            step matches KeyboardStep::Send(out) && out@ == translated.1
                        }
                    },
                },
            },
            step matches KeyboardStep::Send(out) ==> out@.len() > 0,
            step is Lost <==> !final(self)@.capturing,
            step is Lost ==> final(self)@.keyboards.devices.len() == 0
                && !final(self)@.kbd_available && final(self)@.keyboards.held == Set::<
                u32,
            >::empty(),
            step is Rescan <==> ready is Inotify,
    {
        proof {
            if let Some(events) = fetched(fetches@) {
                translation_keeps_grab(self@.keyboards, events);
            }
        }
        match self.keyboards.next_events(ready, fetches) {
            NextStep::Deliver(events) => KeyboardStep::Send(events),
            NextStep::Wait => KeyboardStep::Wait,
            NextStep::Rescan => KeyboardStep::Rescan,
            NextStep::Lost => {
                let release: Option<Vec<Event>> = self.release_capture();
                self.kbd_available = false;
                match release {
                    Some(events) => KeyboardStep::Lost(events),
                    None => KeyboardStep::Wait,
                }
            },
        }
    }

    /// Takes in that a keyboard could be opened again after none was left.
    pub fn keyboard_recovered(&mut self, keyboards: EvdevCapture)
        requires
            old(self)@.wf(),
            !old(self)@.capturing,
            !old(self)@.releasing,
            !keyboards@.grabbed,
            keyboards@.held == Set::<u32>::empty(),
        ensures
            final(self)@.wf(),
            final(self)@ == (SessionState {
                keyboards: keyboards@,
                kbd_available: true,
                ..old(self)@
            }),
    {
        self.keyboards = keyboards;
        self.kbd_available = true;
    }

    /// What to do if Super+M was pressed since the last call: capture ends, and the toggle
    /// that the chord is bound to runs.
    pub fn escape(&mut self) -> (escape: Escape)
        requires
            old(self)@.wf(),
        ensures
            final(self)@.wf(),
            if old(self)@.keyboards.escape_signal {
                &&& escape matches Escape::Toggle(release) && ends(old(self)@, release)
                &&& final(self)@ == (SessionState {
                    keyboards: Keyboards { escape_signal: false, ..old(self)@.keyboards },
                    ..old(self)@
                }).ended()
            } else {
                escape is Nothing && final(self)@ == old(self)@
            },
            escape is Toggle <==> old(self)@.keyboards.escape_signal,
            escape is Toggle ==> !final(self)@.capturing,
            !final(self)@.keyboards.escape_signal,
    {
        if self.keyboards.take_escape_signal() {
            Escape::Toggle(self.release_capture())
        } else {
            Escape::Nothing
        }
    }

    /// Takes in an event that was received. The hash is that of the clipboard content that
    /// the event carries, if it carries some.
    pub fn received(&mut self, event: Event, hash: u64) -> (received: Received)
        requires
            old(self)@.wf(),
        ensures
            final(self)@.wf(),
            final(self)@ == old(self)@.after_receiving(event, hash),
            match event {
                Event::ReturnToSender { from_bottom, .. } => received matches Received::Return {
                    release,
                    from_bottom: back,
                } && ends(old(self)@, release) && back == from_bottom,
                Event::ClipboardData { text } => received matches Received::WriteText(write)
                    && write@ == text@,
                Event::ClipboardHtml { html, plain } => received matches Received::WriteText(write)
                    && write@ == (if plain@.len() == 0 {
                    plain_text(html@)
                } else {
                    plain@
                }),
                Event::ClipboardImage { format, data } => received matches Received::WriteImage {
                    format: f,
                    data: d,
                } && f@ == format@ && d@ == data@,
                _ => received is Nothing,
            },
            received is Return <==> event is ReturnToSender,
            received is WriteImage <==> event is ClipboardImage,
            received is WriteText <==> event is ClipboardData || event is ClipboardHtml,
            received is Return ==> !final(self)@.capturing,
            event matches Event::ReturnToSender { source_height, .. }
                ==> final(self)@.pointer.max_from_bottom == Some(source_height),
            event is HeartbeatAck ==> final(self)@.missed_heartbeats == 0,
            received is WriteText || received is WriteImage ==> final(self)@.last_clip_hash == hash,
    {
        match event {
            Event::ReturnToSender { from_bottom, source_height } => {
                self.pointer.set_max_from_bottom(source_height);
                Received::Return { release: self.release_capture(), from_bottom }
            },
            Event::HeartbeatAck => {
                self.missed_heartbeats = 0;
                Received::Nothing
            },
            Event::ClipboardData { text } => {
                self.last_clip_hash = hash;
                Received::WriteText(text)
            },
            Event::ClipboardImage { format, data } => {
                self.last_clip_hash = hash;
                Received::WriteImage { format, data }
            },
            Event::ClipboardHtml { html, plain } => {
                self.last_clip_hash = hash;
                if plain.as_str().is_empty() {
                    Received::WriteText(strip_html_tags(html.as_str()))
                } else {
                    Received::WriteText(plain)
                }
            },
            _ => Received::Nothing,
        }
    }

    /// Takes in that the cursor was put back: the count of unanswered heartbeats starts afresh,
    /// and crossing is refused for a short time.
    pub fn returned(&mut self, now: u64)
        requires
            old(self)@.wf(),
            in_range(now),
        ensures
            final(self)@.wf(),
            final(self)@ == old(self)@.cooling(now, RETURN_COOLDOWN_MS).beating(),
            final(self)@.return_cooldown matches Some(until) && until == now + 100_000_000,
            final(self)@.missed_heartbeats == 0,
    {
        self.return_cooldown = Some(now + RETURN_COOLDOWN_MS * MS);
        self.missed_heartbeats = 0;
    }

    /// What to do when a heartbeat is due.
    pub fn heartbeat_due(&mut self) -> (beat: Beat)
        requires
            old(self)@.wf(),
        ensures
            final(self)@.wf(),
            final(self)@ == old(self)@.ticked(),
            if old(self)@.is_dead() {
                beat matches Beat::Dead(release, course) && ends(old(self)@, release) && course
                    == course_after(Trouble::HeartbeatsMissed)
            } else {
                beat is Send
            },
            beat is Send <==> old(self)@.missed_heartbeats < old(self)@.heartbeat.miss_threshold,
            beat is Dead ==> !final(self)@.capturing,
    {
        if self.missed_heartbeats >= self.heartbeat.miss_threshold {
            let (release, course) = self.trouble(Trouble::HeartbeatsMissed);
            Beat::Dead(release, course)
        } else {
            self.missed_heartbeats += 1;
            Beat::Send
        }
    }
}

/// The longest plain text: 1 MiB.
pub const MAX_TEXT_BYTES: usize = 0x0010_0000;

/// Whether clipboard content is short enough to be sent: an image, and HTML together with
/// its plain text, if its message can be sent, and plain text up to its own limit.
pub fn within_cap(content: &Event) -> (b: bool)
    ensures
        b == (match *content {
            Event::ClipboardImage { format, data } => fits(
                Content::ClipboardImage { format: format@, data: data@ },
            ),
            Event::ClipboardHtml { html, plain } => fits(
                Content::ClipboardHtml { html: html@, plain: plain@ },
            ),
            Event::ClipboardData { text } => encode_utf8(text@).len() <= MAX_TEXT_BYTES,
            _ => true,
        }),
        *content matches Event::ClipboardData { text } ==> (b <==> encode_utf8(text@).len()
            <= 1_048_576),
        *content matches Event::ClipboardImage { format, data } ==> (b <==> encode_utf8(
            format@,
        ).len() <= 65_535 && 7 + encode_utf8(format@).len() + data@.len() <= 33_554_432),
        *content matches Event::ClipboardHtml { html, plain } ==> (b <==> 9 + encode_utf8(
            html@,
        ).len() + encode_utf8(plain@).len() <= 33_554_432),
{
    let max: usize = MAX_FRAME_PAYLOAD as usize;
    match content {
        Event::ClipboardImage { format, data } => {
            let name: &[u8] = format.as_str().as_bytes();
            name.len() <= 0xFFFF && data.len() <= max - 7 - name.len()
        },
        Event::ClipboardHtml { html, plain } => {
            let rich: &[u8] = html.as_str().as_bytes();
            let poor: &[u8] = plain.as_str().as_bytes();
            rich.len() <= max - 9 && poor.len() <= max - 9 - rich.len()
        },
        Event::ClipboardData { text } => {
            let bytes: &[u8] = text.as_str().as_bytes();
            bytes.len() <= MAX_TEXT_BYTES
        },
        _ => true,
    }
}

/// The message of plain text within its limit can be sent.
pub proof fn text_within_cap_fits(text: Seq<char>)
    requires
        encode_utf8(text).len() <= MAX_TEXT_BYTES,
    ensures
        fits(Content::ClipboardData { text }),
{
}

/// The clipboard content to offer when the pointer crossed: an image before HTML, and HTML
/// before plain text.
pub fn preferred_content(
    image: Option<(String, Vec<u8>)>,
    html: Option<(String, String)>,
    text: Option<String>,
) -> (content: Option<Event>)
    ensures
        content == (match (image, html, text) {
            (Some((format, data)), _, _) => Some(Event::ClipboardImage { format, data }),
            (None, Some((html, plain)), _) => Some(Event::ClipboardHtml { html, plain }),
            (None, None, Some(text)) => Some(Event::ClipboardData { text }),
            (None, None, None) => None,
        }),
        image is Some ==> content matches Some(Event::ClipboardImage { .. }),
        image is None && html is Some ==> content matches Some(Event::ClipboardHtml { .. }),
        image is None && html is None ==> (content is Some <==> text is Some),
{
    if let Some((format, data)) = image {
        return Some(Event::ClipboardImage { format, data });
    }
    if let Some((html, plain)) = html {
        return Some(Event::ClipboardHtml { html, plain });
    }
    match text {
        Some(text) => Some(Event::ClipboardData { text }),
        None => None,
    }
}

/// Heartbeats that go unanswered are counted one by one, and the connection is dead when
/// the next one is due after as many as the threshold; then capture ends.
pub proof fn connection_dies_at_the_threshold(state: SessionState, beats: nat)
    requires
        state.missed_heartbeats == 0,
        beats <= state.heartbeat.miss_threshold,
    ensures
        state.unanswered(beats) == (SessionState { missed_heartbeats: beats as u32, ..state }),
        state.unanswered(beats).is_dead() <==> beats == state.heartbeat.miss_threshold,
        !state.unanswered((state.heartbeat.miss_threshold + 1) as nat).capturing,
{
    lemma_unanswered(state, beats);
    lemma_unanswered(state, state.heartbeat.miss_threshold as nat);
}

proof fn lemma_unanswered(state: SessionState, beats: nat)
    requires
        state.missed_heartbeats == 0,
        beats <= state.heartbeat.miss_threshold,
    ensures
        state.unanswered(beats) == (SessionState { missed_heartbeats: beats as u32, ..state }),
    decreases beats,
{
    if beats > 0 {
        lemma_unanswered(state, (beats - 1) as nat);
    }
}

/// Heartbeats go at the active interval exactly while capture is active. However it ends, by
/// a return, a lost pointer, a lost keyboard, the escape chord or trouble, they go at the idle
/// interval again.
pub proof fn heartbeats_follow_capture(state: SessionState, now: u64)
    requires
        state.wf(),
    ensures
        state.capturing ==> state.heartbeat_ms() == state.heartbeat.active_interval_ms,
        !state.capturing ==> state.heartbeat_ms() == state.heartbeat.idle_interval_ms,
        state.ended().heartbeat_ms() == state.heartbeat.idle_interval_ms,
        state.ended().let_go().heartbeat_ms() == state.heartbeat.idle_interval_ms,
        state.ended().let_go().backed_off(now).heartbeat_ms() == state.heartbeat.idle_interval_ms,
{
}

/// An answered heartbeat starts the count afresh.
pub proof fn answer_starts_the_count_afresh(state: SessionState, hash: u64)
    ensures
        state.after_receiving(Event::HeartbeatAck, hash).missed_heartbeats == 0,
        state.heartbeat.miss_threshold > 0 ==> !state.after_receiving(
            Event::HeartbeatAck,
            hash,
        ).is_dead(),
{
}

/// Content that was sent, and content that was received, is not sent again while no other
/// content was, whatever else happens: connecting, crossing, coming back, a lost pointer, a
/// dead connection.
pub proof fn content_is_not_sent_again(state: SessionState, event: Event, hash: u64, now: u64)
    requires
        event is ClipboardData || event is ClipboardImage || event is ClipboardHtml,
    ensures
        !state.clipped(hash).offers(hash),
        !state.after_receiving(event, hash).offers(hash),
        state.ended().last_clip_hash == state.last_clip_hash,
        state.let_go().last_clip_hash == state.last_clip_hash,
        state.beating().last_clip_hash == state.last_clip_hash,
        state.cooling(now, now).last_clip_hash == state.last_clip_hash,
        state.backed_off(now).last_clip_hash == state.last_clip_hash,
        state.ticked().last_clip_hash == state.last_clip_hash,
{
}

/// For a short time after connecting, and after the cursor came back, the pointer does not
/// cross; after that it does, if a keyboard is there and capture is not active.
pub proof fn crossing_pauses(state: SessionState, now: u64, ms: u64, later: u64)
    requires
        in_range(now),
        ms <= MAX_COOLDOWN_MS,
    ensures
        ({
            let after = state.cooling(now, ms).beating();
            &&& later < now + ms * MS ==> !after.lets_cross(later)
            &&& later >= now + ms * MS ==> (after.lets_cross(later) <==> !state.capturing
                && state.kbd_available)
        }),
{
    assert(ms * MS <= MAX_COOLDOWN_MS * MS) by (nonlinear_arith)
        requires
            ms <= MAX_COOLDOWN_MS,
    ;
}

/// After the compositor took the pointer back, neither the session nor the edge windows let
/// it cross until the cooldown is over; and then both do.
pub proof fn lost_pointer_does_not_cross(state: SessionState, now: u64, later: u64)
    requires
        in_range(now),
        !state.capturing,
        state.kbd_available,
    ensures
        ({
            let after = state.backed_off(now);
            let over = now + cooldown_after(state.streak_at(now)) * MS;
            &&& after.lets_cross(later) <==> later >= over
            &&& after.pointer.suppressed(later) <==> later < over
            &&& !after.pointer.focused
        }),
{
    let ms = cooldown_after(state.streak_at(now));
    assert(ms * MS <= MAX_COOLDOWN_MS * MS) by (nonlinear_arith)
        requires
            ms <= MAX_COOLDOWN_MS,
    ;
}

/// Releases by the compositor in quick succession lengthen the streak one by one; after a
/// pause it starts afresh.
pub proof fn streak_counts_quick_releases(state: SessionState, now: u64, later: u64)
    requires
        now <= later,
    ensures
        ({
            let after = state.backed_off(now);
            &&& after.force_release_streak >= 1
            &&& later - now < STREAK_GAP_MS * MS && after.force_release_streak < u32::MAX
                ==> after.streak_at(later) == after.force_release_streak + 1
            &&& later - now >= STREAK_GAP_MS * MS ==> after.streak_at(later) == 1
        }),
{
}

/// However capture ends, once the keyboards and the pointer are let go nothing of it is
/// left: no grab, no held key, no pointer lock.
pub proof fn capture_ends_clean(state: SessionState)
    requires
        state.wf(),
        state.capturing,
    ensures
        ({
            let after = state.ended().let_go();
            &&& after.wf()
            &&& !after.capturing
            &&& !after.keyboards.grabbed
            &&& after.keyboards.held == Set::<u32>::empty()
            &&& after.keyboards.at_grab == Set::<u32>::empty()
            &&& !after.pointer.focused
            &&& !after.pointer.pointer_lock
        }),
{
}

/// Once the receiver told the length of its edge, the pointer does not cross further from
/// the far end than that; up to there it crosses as before.
pub proof fn crossing_beyond_the_receiver_is_blocked(
    state: SessionState,
    from_bottom: i32,
    source_height: i64,
    hash: u64,
    at: int,
)
    ensures
        ({
            let after = state.after_receiving(
                Event::ReturnToSender { from_bottom, source_height },
                hash,
            );
            after.pointer.blocked(at) <==> at > source_height
        }),
{
}

/// After a capture no key is left down at the other end, whatever was down when it began and
/// whatever was typed.
///
/// `began` are the events at its beginning, `keyboards` is the state then, `typed` is what the
/// keyboards reported, and `over` are the events at its end.
pub proof fn capture_leaves_no_key_down(
    keyboards: Keyboards,
    states: Seq<Option<KeySet>>,
    from_bottom: i64,
    source_height: i64,
    began: Seq<Event>,
    typed: Seq<RawEvent>,
    over: Seq<Event>,
)
    requires
        keyboards.held == modifiers_down(states),
        opens(began, states, from_bottom, source_height),
        closes(over, keyboards.translated_all(typed).0.held),
    ensures
        keys_down(Set::empty(), began + keyboards.translated_all(typed).1 + over) == Set::<
            u32,
        >::empty(),
{
    let (after, sent) = keyboards.translated_all(typed);
    let codes = choose|codes: Seq<u32>|
        {
            &&& #[trigger] codes.no_duplicates()
            &&& forall|code: u32| #[trigger]
                codes.contains(code) <==> modifier(code) && reported(states, code as u16)
            &&& began == codes.map_values(|code: u32| Event::KeyPress { code }).push(
                Event::CaptureBegin { from_bottom, source_height },
            )
        };
    let presses = codes.map_values(|code: u32| Event::KeyPress { code });
    let none = Set::<u32>::empty();
    lemma_presses(none, codes);
    assert(began.drop_last() =~= presses);
    assert(none.union(codes.to_set()) =~= keyboards.held) by {
        assert forall|code: u32| #[trigger] codes.to_set().contains(code) <==> codes.contains(
            code,
        ) by {}
    }
    assert(keys_down(none, began) == keyboards.held);
    let releases = over.drop_last();
    no_key_is_left_down(keyboards, typed, releases);
    lemma_keys_down_of_parts(none, began, sent + releases);
    assert((began + sent + over).drop_last() =~= began + (sent + releases));
    assert((began + sent + over).last() == Event::CaptureEnd);
}

proof fn lemma_presses(down: Set<u32>, codes: Seq<u32>)
    ensures
        keys_down(down, codes.map_values(|code: u32| Event::KeyPress { code })) == down.union(
            codes.to_set(),
        ),
    decreases codes.len(),
{
    let press = |code: u32| Event::KeyPress { code };
    let events = codes.map_values(press);
    if codes.len() == 0 {
        assert(down.union(codes.to_set()) =~= down);
    } else {
        let rest = codes.drop_last();
        lemma_presses(down, rest);
        assert(events.drop_last() =~= rest.map_values(press));
        assert(codes =~= rest.push(codes.last()));
        rest.lemma_push_to_set_commute(codes.last());
        assert(keys_down(down, events) =~= down.union(codes.to_set()));
    }
}

/// New content is always sent: after content of one hash was sent or received, content of any
/// other hash is; and before any was, content of any hash but zero.
pub proof fn new_content_is_sent(state: SessionState, event: Event, known: u64, new: u64)
    requires
        event is ClipboardData || event is ClipboardImage || event is ClipboardHtml,
        known != new,
    ensures
        state.clipped(known).offers(new),
        state.after_receiving(event, known).offers(new),
        state.clipped(known).clipped(new).offers(known),
        state.last_clip_hash == 0 && new != 0 ==> state.offers(new),
        state.clipped(new).last_clip_hash == new,
        state.clipped(new) == (SessionState { last_clip_hash: new, ..state }),
{
}

/// The cooldown is 300 ms after one release by the compositor, 1 s from the second in quick
/// succession on, 5 s from the fifth on, and 30 s from the one after the twentieth on.
pub proof fn cooldowns_are_these(streak: u32)
    ensures
        cooldown_after(streak) == 300 <==> streak == 1,
        cooldown_after(streak) == 1_000 <==> 2 <= streak < 5,
        cooldown_after(streak) == 5_000 <==> 5 <= streak < 21,
        cooldown_after(streak) == 30_000 <==> streak == 0 || 21 <= streak,
{
}

/// The pointer crosses exactly if capture is not active, there is a keyboard, and no cooldown
/// runs; a cooldown runs for as many milliseconds as it is given from its beginning on. It is
/// half a second after connecting, and a tenth of one after coming back.
pub proof fn cooldowns_end_in_time(state: SessionState, now: u64, ms: u64, later: u64)
    requires
        ms <= 30_000,
        now + 30_000_000_000 <= u64::MAX,
    ensures
        ({
            let after = state.cooling(now, ms);
            &&& after == (SessionState { return_cooldown: after.return_cooldown, ..state })
            &&& after.return_cooldown matches Some(until) && until - now == ms * 1_000_000
            &&& after.lets_cross(later) <==> !state.capturing && state.kbd_available && later - now
                >= ms * 1_000_000
        }),
        state.return_cooldown is None ==> (state.lets_cross(now) <==> !state.capturing
            && state.kbd_available),
        CONNECT_COOLDOWN_MS == 500,
        RETURN_COOLDOWN_MS == 100,
{
    assert(ms * 1_000_000 <= 30_000_000_000) by (nonlinear_arith)
        requires
            ms <= 30_000,
    ;
}

/// A release by the compositor less than a second after the last one, or before it on the
/// clock, makes the streak longer by one; any other one starts it afresh.
/// The pointer is then kept from crossing until the cooldown of that streak is over, at the
/// session and at the edge windows alike; nothing else changes but that the pointer is let go.
pub proof fn a_lost_pointer_is_kept_away(state: SessionState, now: u64)
    requires
        now + 30_000_000_000 <= u64::MAX,
        state.force_release_streak < u32::MAX,
    ensures
        ({
            let after = state.backed_off(now);
            let quick = state.force_release_last matches Some(last) && now < last + 1_000_000_000;
            &&& quick ==> after.force_release_streak == state.force_release_streak + 1
            &&& !quick ==> after.force_release_streak == 1
            &&& (SessionState { force_release_streak: u32::MAX, ..state }).streak_at(now) == (
            if quick {
                u32::MAX
            } else {
                1
            })
            &&& after.force_release_last == Some(now)
            &&& after.return_cooldown matches Some(until) && until - now == 1_000_000
                * cooldown_after(after.force_release_streak)
            &&& after.pointer.grab_suppressed_until == after.return_cooldown
            &&& !after.pointer.focused
            &&& !after.pointer.pointer_lock
            &&& after.pointer.active_window is None
            &&& after.pointer.windows == state.pointer.windows
            &&& after.pointer.pending == state.pointer.pending
            &&& after.pointer.max_from_bottom == state.pointer.max_from_bottom
            &&& after == (SessionState {
                pointer: after.pointer,
                force_release_streak: after.force_release_streak,
                force_release_last: after.force_release_last,
                return_cooldown: after.return_cooldown,
                ..state
            })
        }),
{
}

/// Ending a capture changes only that it is over and that no key is held; letting go afterwards
/// changes only the grabs of the keyboards and of the pointer. Without a capture there is
/// nothing to end.
pub proof fn ending_changes_nothing_else(state: SessionState)
    ensures
        !state.capturing ==> state.ended() == state,
        state.capturing ==> {
            let after = state.ended();
            &&& !after.capturing
            &&& after.releasing
            &&& after.keyboards.held == Set::<u32>::empty()
            &&& after.keyboards == (Keyboards { held: Set::empty(), ..state.keyboards })
            &&& after == (SessionState {
                capturing: false,
                releasing: true,
                keyboards: after.keyboards,
                ..state
            })
        },
        ({
            let after = state.let_go();
            &&& !after.releasing
            &&& !after.keyboards.grabbed
            &&& !after.keyboards.escape_armed
            &&& after.keyboards.at_grab == Set::<u32>::empty()
            &&& after.keyboards.held == state.keyboards.held
            &&& after.keyboards.devices == state.keyboards.devices
            &&& after.keyboards.escape_signal == state.keyboards.escape_signal
            &&& !after.pointer.focused
            &&& !after.pointer.pointer_lock
            &&& !after.pointer.rel_pointer
            &&& !after.pointer.shortcut_inhibitor
            &&& after.pointer.active_window is None
            &&& after.pointer.pending == state.pointer.pending
            &&& after.pointer.grab_suppressed_until == state.pointer.grab_suppressed_until
            &&& after.pointer.max_from_bottom == state.pointer.max_from_bottom
            &&& after == (SessionState {
                releasing: false,
                keyboards: after.keyboards,
                pointer: after.pointer,
                ..state
            })
        }),
{
}

/// A return ends capture and sets the limit of crossing to the length that was told; an answer
/// starts the count of heartbeats afresh; content sets the hash; every other event changes
/// nothing. None of them changes anything else.
pub proof fn events_change_what_they_are_about(state: SessionState, event: Event, hash: u64)
    ensures
        ({
            let after = state.after_receiving(event, hash);
            &&& event matches Event::ReturnToSender { source_height, .. } ==> {
                &&& !after.capturing
                &&& after.pointer == (CaptureState {
                    max_from_bottom: Some(source_height),
                    ..state.pointer
                })
                &&& state.capturing ==> after.releasing && after.keyboards.held == Set::<
                    u32,
                >::empty()
                &&& !state.capturing ==> after.keyboards == state.keyboards && after.releasing
                    == state.releasing
                &&& after.missed_heartbeats == state.missed_heartbeats
                &&& after.last_clip_hash == state.last_clip_hash
                &&& after.return_cooldown == state.return_cooldown
                &&& after.kbd_available == state.kbd_available
            }
            &&& event is HeartbeatAck ==> after == (SessionState { missed_heartbeats: 0, ..state })
            &&& event is ClipboardData || event is ClipboardImage || event is ClipboardHtml
                ==> after == (SessionState { last_clip_hash: hash, ..state })
            &&& !(event is ReturnToSender || event is HeartbeatAck || event is ClipboardData
                || event is ClipboardImage || event is ClipboardHtml) ==> after == state
        }),
{
}

/// Each due heartbeat is sent and counted while fewer than the threshold are unanswered, and
/// changes nothing else; from the threshold on the connection is dead and capture ends.
pub proof fn heartbeats_are_counted(state: SessionState)
    ensures
        state.is_dead() <==> state.missed_heartbeats >= state.heartbeat.miss_threshold,
        !state.is_dead() ==> {
            let after = state.ticked();
            &&& after.missed_heartbeats == state.missed_heartbeats + 1
            &&& after == (SessionState { missed_heartbeats: after.missed_heartbeats, ..state })
        },
        state.is_dead() ==> !state.ticked().capturing && state.ticked().missed_heartbeats
            == state.missed_heartbeats,
        state.beating() == (SessionState { missed_heartbeats: 0, ..state }),
{
}

/// What begins a capture ends with the crossing that was reported, and before it presses each
/// modifier that is down, and nothing else, each once.
pub proof fn captures_begin_with_the_modifiers(
    events: Seq<Event>,
    states: Seq<Option<KeySet>>,
    from_bottom: i64,
    source_height: i64,
    code: u32,
)
    requires
        opens(events, states, from_bottom, source_height),
    ensures
        events.len() > 0,
        events.last() == (Event::CaptureBegin { from_bottom, source_height }),
        forall|i: int| 0 <= i < events.len() - 1 ==> (#[trigger] events[i]) is KeyPress,
        events.contains(Event::KeyPress { code }) <==> modifiers_down(states).contains(code),
        modifiers_down(states).contains(code) <==> modifier(code) && reported(states, code as u16),
        events.no_duplicates(),
{
    let codes = choose|codes: Seq<u32>|
        {
            &&& #[trigger] codes.no_duplicates()
            &&& forall|code: u32| #[trigger]
                codes.contains(code) <==> modifier(code) && reported(states, code as u16)
            &&& events == codes.map_values(|code: u32| Event::KeyPress { code }).push(
                Event::CaptureBegin { from_bottom, source_height },
            )
        };
    if codes.contains(code) {
        let i = choose|i: int| 0 <= i < codes.len() && codes[i] == code;
        assert(events[i] == Event::KeyPress { code });
    }
    if events.contains(Event::KeyPress { code }) {
        let i = choose|i: int| 0 <= i < events.len() && events[i] == Event::KeyPress { code };
        assert(codes[i] == code);
    }
    assert forall|i: int, j: int| 0 <= i < events.len() && 0 <= j < events.len() && i != j implies
        events[i] != events[j] by {
        if i < codes.len() && j < codes.len() {
            assert(codes[i] != codes[j]);
        }
    }
}

/// What ends a capture releases each held key, and nothing else, each once, and then says that
/// the capture is over.
pub proof fn captures_end_with_releases(events: Seq<Event>, held: Set<u32>, code: u32)
    requires
        closes(events, held),
    ensures
        events.len() > 0,
        events.last() == Event::CaptureEnd,
        forall|i: int| 0 <= i < events.len() - 1 ==> (#[trigger] events[i]) is KeyRelease,
        events.contains(Event::KeyRelease { code }) <==> held.contains(code),
        events.no_duplicates(),
{
    let releases = events.drop_last();
    each_key_is_released_once(releases, held, code);
    assert forall|i: int| 0 <= i < events.len() - 1 implies (#[trigger] events[i]) is KeyRelease by {
        assert(releases[i] == events[i]);
    }
    if events.contains(Event::KeyRelease { code }) {
        let i = choose|i: int| 0 <= i < events.len() && events[i] == Event::KeyRelease { code };
        assert(releases[i] == events[i]);
    }
    if releases.contains(Event::KeyRelease { code }) {
        let i = choose|i: int|
            0 <= i < releases.len() && releases[i] == Event::KeyRelease { code };
        assert(events[i] == releases[i]);
    }
    assert forall|i: int, j: int| 0 <= i < events.len() && 0 <= j < events.len() && i != j implies
        events[i] != events[j] by {
        if i < releases.len() && j < releases.len() {
            assert(releases[i] != releases[j]);
        } else if i < releases.len() {
            assert(events[i] is KeyRelease);
        } else {
            assert(events[j] is KeyRelease);
        }
    }
}

/// Only a lost compositor and being told so end the program, the latter cleanly; after every
/// other trouble there is a new connection, after a pause of a second if the old one is dead.
pub proof fn trouble_leads_to_a_new_connection(trouble: Trouble)
    ensures
        course_after(trouble) is Exit <==> trouble is CompositorLost || trouble is Terminated,
        course_after(trouble) matches Course::Exit { clean } ==> (clean <==> trouble is Terminated),
        course_after(trouble) is Reconnect <==> trouble is NotSent,
        course_after(trouble) matches Course::HangUp { pause_ms } ==> pause_ms == 1_000,
{
}

/// If capture was active, the events that end it are handed out, and release each held key; if
/// it was not, none are.
pub proof fn held_keys_are_released_with_the_capture(
    state: SessionState,
    release: Option<Vec<Event>>,
    code: u32,
)
    requires
        ends(state, release),
    ensures
        release is Some <==> state.capturing,
        release matches Some(events) ==> {
            &&& events@.len() > 0
            &&& events@.last() == Event::CaptureEnd
            &&& events@.contains(Event::KeyRelease { code }) <==> state.keyboards.held.contains(
                code,
            )
        },
{
    if let Some(events) = release {
        captures_end_with_releases(events@, state.keyboards.held, code);
    }
}

/// Every time that leaves half a minute on the clock is in range.
pub proof fn half_a_minute_is_enough(now: u64)
    ensures
        now + 30_000_000_000 <= u64::MAX <==> in_range(now),
{
}

} // verus!
