//! Keyboard capture: which keyboards are open and grabbed, which keys are held, and what
//! the keys' events become on the wire.
use std::collections::HashSet;

use vstd::prelude::*;

use crate::event::Event;
use crate::keyboards::contents;
use crate::keymap::{
    is_modifier, modifier, modifiers_are_these, KEY_LEFT_META, KEY_M, KEY_RIGHT_META, MODIFIER_KEYS,
};

verus! {

broadcast use vstd::std_specs::hash::group_hash_axioms;

/// How many key codes there are.
pub const KEY_COUNT: u16 = 0x300;

/// A set of key codes, held by the `AttributeSet<KeyCode>` of the evdev crate.
#[verifier::external_body]
pub struct KeySet {
    set: ::evdev::AttributeSet<::evdev::KeyCode>,
}

/// The key codes in the set.
pub uninterp spec fn key_set_codes(set: KeySet) -> Set<u16>;

impl View for KeySet {
    type V = Set<u16>;

    open spec fn view(&self) -> Set<u16> {
        key_set_codes(*self)
    }
}

/// `AttributeSet::new` of the evdev crate makes a set without keys.
#[verifier::external_body]
fn key_set_new() -> (set: KeySet)
    ensures
        key_set_codes(set) == Set::<u16>::empty(),
{
    KeySet { set: ::evdev::AttributeSet::new() }
}

/// `AttributeSetRef::insert` of the evdev crate adds one key. It panics on codes that are
/// no key codes.
#[verifier::external_body]
fn key_set_insert(set: &mut KeySet, code: u16)
    requires
        code < KEY_COUNT,
    ensures
        key_set_codes(*final(set)) == key_set_codes(*old(set)).insert(code),
{
    set.set.insert(::evdev::KeyCode(code))
}

/// `AttributeSetRef::contains` of the evdev crate tells whether a key is in the set; codes
/// that are no key codes never are.
#[verifier::external_body]
fn key_set_contains(set: &KeySet, code: u16) -> (b: bool)
    ensures
        b == key_set_codes(*set).contains(code),
        b ==> code < KEY_COUNT,
{
    set.set.contains(::evdev::KeyCode(code))
}

/// `AttributeSetRef::iter` of the evdev crate walks the keys in the set, each once, in
/// ascending order.
#[verifier::external_body]
fn key_set_iter(set: &KeySet) -> (codes: Vec<u16>)
    ensures
        codes@.to_set() == key_set_codes(*set),
        forall|i: int, j: int| 0 <= i < j < codes@.len() ==> codes@[i] < codes@[j],
        forall|i: int| 0 <= i < codes@.len() ==> codes@[i] < KEY_COUNT,
{
    set.set.iter().map(|key| key.code()).collect()
}

/// One event as the kernel reports it: its type, its code and its value.
#[derive(Debug, Clone, Copy, PartialEq, Eq, Structural)]
pub struct RawEvent {
    pub kind: u16,
    pub code: u16,
    pub value: i32,
}

/// The event type of keys.
pub const EV_KEY: u16 = 1;

/// The code and the value of a key's event, as `InputEvent::destructure` of the evdev
/// crate finds them: the events of type `EV_KEY` are those of keys.
#[verifier::external_body]
fn key_event(event: RawEvent) -> (key: Option<(u16, i32)>)
    ensures
        key == (if event.kind == EV_KEY {
            Some((event.code, event.value))
        } else {
            None
        }),
{
    match ::evdev::InputEvent::new(event.kind, event.code, event.value).destructure() {
        ::evdev::EventSummary::Key(_, key, value) => Some((key.0, value)),
        _ => None,
    }
}

/// Adds keys to a set.
fn key_set_extend(set: &mut KeySet, codes: &Vec<u16>)
    requires
        forall|i: int| 0 <= i < codes@.len() ==> codes@[i] < KEY_COUNT,
    ensures
        final(set)@ == old(set)@.union(codes@.to_set()),
{
    let mut i: usize = 0;
    assert(codes@.take(0).to_set() =~= Set::<u16>::empty());
    assert(set@ =~= old(set)@.union(codes@.take(0).to_set()));
    while i < codes.len()
        invariant
            i <= codes@.len(),
            forall|i: int| 0 <= i < codes@.len() ==> codes@[i] < KEY_COUNT,
            set@ == old(set)@.union(codes@.take(i as int).to_set()),
        decreases codes@.len() - i,
    {
        let ghost before = codes@.take(i as int);
        key_set_insert(set, codes[i]);
        proof {
            assert(codes@.take(i + 1) =~= before.push(codes@[i as int]));
            before.lemma_push_to_set_commute(codes@[i as int]);
            assert(set@ =~= old(set)@.union(codes@.take(i + 1).to_set()));
        }
        i += 1;
    }
    assert(codes@.take(i as int) =~= codes@);
}

impl KeySet {
    /// The set of the given key codes.
    pub fn from_codes(codes: &Vec<u16>) -> (set: KeySet)
        requires
            forall|i: int| 0 <= i < codes@.len() ==> codes@[i] < KEY_COUNT,
        ensures
            set@ == codes@.to_set(),
    {
        let mut set: KeySet = key_set_new();
        key_set_extend(&mut set, codes);
        assert(set@ =~= codes@.to_set());
        set
    }

    /// The key codes in the set, ascending.
    pub fn codes(&self) -> (codes: Vec<u16>)
        ensures
            codes@.to_set() == self@,
            forall|i: int, j: int| 0 <= i < j < codes@.len() ==> codes@[i] < codes@[j],
            forall|i: int| 0 <= i < codes@.len() ==> codes@[i] < KEY_COUNT,
    {
        key_set_iter(self)
    }
}

/// Whether some keyboard that answered reports the key.
pub open spec fn reported(states: Seq<Option<KeySet>>, code: u16) -> bool {
    exists|i: int| 0 <= i < states.len() && (#[trigger] states[i]) is Some && states[i]->0@.contains(code)
}

/// Whether some keyboard that answered reports the key.
fn is_reported(states: &Vec<Option<KeySet>>, code: u16) -> (b: bool)
    ensures
        b == reported(states@, code),
{
    let mut i: usize = 0;
    while i < states.len()
        invariant
            i <= states@.len(),
            forall|k: int|
                0 <= k < i && (#[trigger] states@[k]) is Some ==> !states@[k]->0@.contains(code),
        decreases states@.len() - i,
    {
        if let Some(state) = &states[i] {
            if key_set_contains(state, code) {
                return true;
            }
        }
        i += 1;
    }
    false
}

/// What is reported by the keyboards up to one is reported by those before it or by it.
proof fn lemma_reported_step(states: Seq<Option<KeySet>>, i: int)
    requires
        0 <= i < states.len(),
    ensures
        forall|code: u16| #[trigger]
            reported(states.take(i + 1), code) <==> reported(states.take(i), code) || (
            states[i] is Some && states[i]->0@.contains(code)),
{
    let taken = states.take(i);
    let now = states.take(i + 1);
    assert forall|c: u16| #[trigger] reported(now, c) <==> reported(taken, c) || (states[i] is Some
        && states[i]->0@.contains(c)) by {
        if reported(taken, c) {
            let k = choose|k: int|
                0 <= k < taken.len() && (#[trigger] taken[k]) is Some && taken[k]->0@.contains(c);
            assert(now[k] == taken[k]);
        }
        if reported(now, c) {
            let k = choose|k: int|
                0 <= k < now.len() && (#[trigger] now[k]) is Some && now[k]->0@.contains(c);
            if k < i {
                assert(taken[k] == now[k]);
            }
        }
        if states[i] is Some && states[i]->0@.contains(c) {
            assert(now[i] == states[i]);
        }
    }
}

/// The keys that the synthetic keyboard must have: all that some real keyboard has.
pub fn synth_keys(supported: &Vec<Option<KeySet>>) -> (keys: KeySet)
    ensures
        forall|c: u16| #[trigger] keys@.contains(c) <==> reported(supported@, c),
{
    let mut keys: KeySet = key_set_new();
    let mut i: usize = 0;
    while i < supported.len()
        invariant
            i <= supported@.len(),
            forall|c: u16| #[trigger]
                keys@.contains(c) <==> reported(supported@.take(i as int), c),
        decreases supported@.len() - i,
    {
        if let Some(one) = &supported[i] {
            let codes: Vec<u16> = key_set_iter(one);
            key_set_extend(&mut keys, &codes);
        }
        proof {
            lemma_reported_step(supported@, i as int);
        }
        i += 1;
    }
    assert(supported@.take(i as int) =~= supported@);
    keys
}

/// Why keyboards cannot be captured.
#[derive(Debug, Clone, Copy, PartialEq, Eq, Structural)]
pub enum EvdevError {
    /// None of the keyboards could be opened.
    NoneOpened,
    /// None of the open keyboards could be grabbed.
    NoneGrabbed,
}

impl EvdevError {
    /// The error in words.
    pub fn message(&self) -> (text: &'static str)
        ensures
            text@ == (match *self {
                EvdevError::NoneOpened => "no keyboard devices could be opened"@,
                EvdevError::NoneGrabbed => "failed to grab any keyboard device"@,
            }),
    {
        match self {
            EvdevError::NoneOpened => "no keyboard devices could be opened",
            EvdevError::NoneGrabbed => "failed to grab any keyboard device",
        }
    }
}

/// What one read of a keyboard gave: events, nothing for now, or a failure.
#[derive(Debug, PartialEq, Eq)]
pub enum Fetch {
    Events(Vec<RawEvent>),
    WouldBlock,
    Failed,
}

/// Result of draining one keyboard on a single wakeup.
#[derive(Debug, PartialEq, Eq)]
pub enum DrainResult {
    Events(Vec<Event>),
    Empty,
    Gone,
}

/// What woke the wait for keyboard events: a keyboard, or a change in the listing.
#[derive(Debug, Clone, Copy, PartialEq, Eq, Structural)]
pub enum ReadyKind {
    Device(usize),
    Inotify,
}

/// What to do after a wakeup: hand out events, wait again, look for new keyboards, or give
/// up, as no keyboard is left.
#[derive(Debug, PartialEq, Eq)]
pub enum NextStep {
    Deliver(Vec<Event>),
    Wait,
    Rescan,
    Lost,
}

/// The state of keyboard capture.
#[verifier::ext_equal]
pub struct Keyboards {
    /// Paths of the open keyboards.
    pub devices: Seq<Seq<u8>>,
    /// Keys whose press was sent and whose release was not.
    pub held: Set<u32>,
    /// Keys that were down when the grab was taken.
    pub at_grab: Set<u32>,
    /// Whether the keyboards are grabbed.
    pub grabbed: bool,
    /// Whether the press of an intercepted Super+M awaits its release.
    pub escape_armed: bool,
    /// Whether a Super+M was intercepted and not yet reported.
    pub escape_signal: bool,
}

impl Keyboards {
    /// Whether a Super key is held.
    pub open spec fn super_held(self) -> bool {
        self.held.contains(KEY_LEFT_META) || self.held.contains(KEY_RIGHT_META)
    }

    /// The state after one event of the kernel, and the events that it becomes.
    pub open spec fn translated(self, event: RawEvent) -> (Keyboards, Seq<Event>) {
        let code = event.code as u32;
        if event.kind != EV_KEY {
            (self, seq![])
        } else if event.value == 1 {
            if code == KEY_M && self.super_held() {
                (Keyboards { escape_armed: true, escape_signal: true, ..self }, seq![])
            } else {
                (
                    Keyboards { held: self.held.insert(code), ..self },
                    seq![Event::KeyPress { code }],
                )
            }
        } else if event.value == 0 {
            if code == KEY_M && self.escape_armed {
                (Keyboards { escape_armed: false, ..self }, seq![])
            } else {
                (
                    Keyboards { held: self.held.remove(code), ..self },
                    seq![Event::KeyRelease { code }],
                )
            }
        } else if event.value == 2 {
            if (code == KEY_M && self.escape_armed) || modifier(code) {
                (self, seq![])
            } else {
                (
                    Keyboards { held: self.held.insert(code), ..self },
                    seq![Event::KeyPress { code }],
                )
            }
        } else {
            (self, seq![])
        }
    }

    /// The state after several events of the kernel, and the events that they become.
    pub open spec fn translated_all(self, events: Seq<RawEvent>) -> (Keyboards, Seq<Event>)
        decreases events.len(),
    {
        if events.len() == 0 {
            (self, seq![])
        } else {
            let before = self.translated_all(events.drop_last());
            let last = before.0.translated(events.last());
            (last.0, before.1 + last.1)
        }
    }
}

/// The events that the reads of a keyboard gave, up to the first one that gave nothing;
/// none at all if a read failed first.
pub open spec fn fetched(fetches: Seq<Fetch>) -> Option<Seq<RawEvent>>
    decreases fetches.len(),
{
    if fetches.len() == 0 {
        Some(seq![])
    } else {
        match fetches[0] {
            Fetch::WouldBlock => Some(seq![]),
            Fetch::Failed => None,
            Fetch::Events(events) => match fetched(fetches.skip(1)) {
                Some(rest) => Some(events@ + rest),
                None => None,
            },
        }
    }
}

/// Whether `events` releases each of the keys once, and nothing else.
pub open spec fn releases_each(events: Seq<Event>, keys: Set<u32>) -> bool {
    exists|codes: Seq<u32>|
        {
            &&& #[trigger] codes.to_set() == keys
            &&& codes.no_duplicates()
            &&& events == codes.map_values(|code: u32| Event::KeyRelease { code })
        }
}

/// The paths whose keyboards could be opened, in their order.
pub open spec fn opened_paths(paths: Seq<Seq<u8>>, opened: Seq<bool>) -> Seq<Seq<u8>>
    decreases paths.len(),
{
    if paths.len() == 0 {
        seq![]
    } else if opened.last() {
        opened_paths(paths.drop_last(), opened.drop_last()).push(paths.last())
    } else {
        opened_paths(paths.drop_last(), opened.drop_last())
    }
}

/// The keys that some keyboard that answered reports.
pub open spec fn keys_reported(states: Seq<Option<KeySet>>) -> Set<u32> {
    Set::new(|code: u32| code <= 0xFFFF && reported(states, code as u16))
}

/// What a sequence with one more element holds.
proof fn lemma_push_contains<T>(s: Seq<T>, x: T, c: T)
    ensures
        s.push(x).contains(c) <==> s.contains(c) || c == x,
{
    if s.contains(c) {
        assert(s.push(x)[s.index_of(c)] == c);
    }
    assert(s.push(x)[s.len() as int] == x);
}

/// The elements of a set, each once.
fn keys_of(set: &HashSet<u32>) -> (keys: Vec<u32>)
    ensures
        keys@.no_duplicates(),
        keys@.to_set() == set@,
{
    let mut keys: Vec<u32> = Vec::new();
    for key in it: set.iter()
        invariant
            keys@ =~= it.seq().take(it.index()).unref(),
            it.index() == it.seq().len() ==> keys@ =~= it.seq().unref(),
            it.seq().unref().to_set() == set@,
            it.seq().no_duplicates(),
    {
        keys.push(*key);
    }
    keys
}

/// Adds key codes to a set.
fn extend_keys(set: &mut HashSet<u32>, codes: &Vec<u16>)
    ensures
        forall|c: u32| #[trigger]
            final(set)@.contains(c) <==> old(set)@.contains(c) || (c <= 0xFFFF && codes@.contains(
                c as u16,
            )),
{
    let mut i: usize = 0;
    while i < codes.len()
        invariant
            i <= codes@.len(),
            forall|c: u32| #[trigger]
                set@.contains(c) <==> old(set)@.contains(c) || (c <= 0xFFFF && codes@.take(
                    i as int,
                ).contains(c as u16)),
        decreases codes@.len() - i,
    {
        let ghost before = set@;
        let ghost taken = codes@.take(i as int);
        set.insert(codes[i] as u32);
        assert(codes@.take(i + 1) =~= taken.push(codes@[i as int]));
        assert forall|c: u32| #[trigger] set@.contains(c) <==> old(set)@.contains(c) || (c <= 0xFFFF
            && codes@.take(i + 1).contains(c as u16)) by {
            lemma_push_contains(taken, codes@[i as int], c as u16);
            assert(before.contains(c) <==> old(set)@.contains(c) || (c <= 0xFFFF && taken.contains(
                c as u16,
            )));
        }
        i += 1;
    }
    assert(codes@.take(i as int) =~= codes@);
}

/// Whether one of the flags is set.
fn any_true(flags: &Vec<bool>) -> (b: bool)
    ensures
        b == flags@.contains(true),
{
    let mut i: usize = 0;
    while i < flags.len()
        invariant
            i <= flags@.len(),
            forall|k: int| 0 <= k < i ==> !flags@[k],
        decreases flags@.len() - i,
    {
        if flags[i] {
            return true;
        }
        i += 1;
    }
    false
}

/// Whether two byte strings are equal.
fn same_bytes(a: &Vec<u8>, b: &Vec<u8>) -> (r: bool)
    ensures
        r == (a@ == b@),
{
    if a.len() != b.len() {
        return false;
    }
    let mut i: usize = 0;
    while i < a.len()
        invariant
            a@.len() == b@.len(),
            i <= a@.len(),
            forall|k: int| 0 <= k < i ==> a@[k] == b@[k],
        decreases a@.len() - i,
    {
        if a[i] != b[i] {
            return false;
        }
        i += 1;
    }
    assert(a@ =~= b@);
    true
}

/// A copy of a byte string.
fn copy_bytes(bytes: &Vec<u8>) -> (copy: Vec<u8>)
    ensures
        copy@ == bytes@,
{
    let copy: Vec<u8> = bytes.clone();
    assert(copy@ =~= bytes@);
    copy
}

/// Collects what reads gave.
fn fetch_all(fetches: &Vec<Fetch>) -> (raw: Option<Vec<RawEvent>>)
    ensures
        raw is Some <==> fetched(fetches@) is Some,
        raw matches Some(events) ==> events@ == fetched(fetches@)->0,
{
    let mut raw: Vec<RawEvent> = Vec::new();
    let mut i: usize = 0;
    assert(fetches@.skip(0) =~= fetches@);
    while i < fetches.len()
        invariant
            i <= fetches@.len(),
            match fetched(fetches@.skip(i as int)) {
                Some(rest) => fetched(fetches@) == Some(raw@ + rest),
                None => fetched(fetches@) is None,
            },
        decreases fetches@.len() - i,
    {
        let ghost before = raw@;
        assert(fetches@.skip(i as int).skip(1) =~= fetches@.skip(i + 1));
        match &fetches[i] {
            Fetch::WouldBlock => {
                assert(raw@ + Seq::<RawEvent>::empty() =~= raw@);
                return Some(raw);
            },
            Fetch::Failed => return None,
            Fetch::Events(events) => {
                let mut k: usize = 0;
                assert(before + events@.take(0) =~= before);
                while k < events.len()
                    invariant
                        k <= events@.len(),
                        raw@ == before + events@.take(k as int),
                    decreases events@.len() - k,
                {
                    raw.push(events[k]);
                    assert(raw@ =~= before + events@.take(k + 1));
                    k += 1;
                }
                assert(events@.take(k as int) =~= events@);
                proof {
                    if let Some(rest) = fetched(fetches@.skip(i + 1)) {
                        assert(before + (events@ + rest) =~= raw@ + rest);
                    }
                }
            },
        }
        i += 1;
    }
    assert(fetches@.skip(i as int) =~= Seq::<Fetch>::empty());
    assert(raw@ + Seq::<RawEvent>::empty() =~= raw@);
    Some(raw)
}

/// Keyboard capture.
pub struct EvdevCapture {
    devices: Vec<Vec<u8>>,
    held_keys: HashSet<u32>,
    keys_at_grab: HashSet<u32>,
    grabbed: bool,
    escape_armed: bool,
    escape_signal: bool,
}

impl View for EvdevCapture {
    type V = Keyboards;

    closed spec fn view(&self) -> Keyboards {
        Keyboards {
            devices: contents(self.devices@),
            held: self.held_keys@,
            at_grab: self.keys_at_grab@,
            grabbed: self.grabbed,
            escape_armed: self.escape_armed,
            escape_signal: self.escape_signal,
        }
    }
}

impl EvdevCapture {
    /// Translates one event of the kernel into protocol events, keeping track of held keys
    /// and intercepting Super+M: its M is never forwarded, and a signal is raised instead.
    /// Auto-repeat is forwarded as another press, but for modifiers; a key that was down
    /// before the grab is first heard of by its repeat, and is held from then on.
    pub fn translate(&mut self, event: RawEvent, out: &mut Vec<Event>)
        ensures
            final(self)@ == old(self)@.translated(event).0,
            final(out)@ == old(out)@ + old(self)@.translated(event).1,
    {
        let (code, value) = match key_event(event) {
            Some((code, value)) => (code as u32, value),
            None => {
                assert(self@ =~= old(self)@);
                assert(out@ =~= old(out)@ + Seq::<Event>::empty());
                return ;
            },
        };
        if value == 1 {
            let super_held: bool = self.held_keys.contains(&KEY_LEFT_META)
                || self.held_keys.contains(&KEY_RIGHT_META);
            if code == KEY_M && super_held {
                self.escape_armed = true;
                self.escape_signal = true;
            } else {
                self.held_keys.insert(code);
                out.push(Event::KeyPress { code });
            }
        } else if value == 0 {
            if code == KEY_M && self.escape_armed {
                self.escape_armed = false;
            } else {
                self.held_keys.remove(&code);
                out.push(Event::KeyRelease { code });
            }
        } else if value == 2 {
            let intercepted: bool = code == KEY_M && self.escape_armed;
            if !intercepted && !is_modifier(code) {
                self.held_keys.insert(code);
                out.push(Event::KeyPress { code });
            }
        }
        assert(self@ =~= old(self)@.translated(event).0);
        assert(out@ =~= old(out)@ + old(self)@.translated(event).1);
    }

    /// Takes in what the reads of one keyboard gave and translates it. A keyboard whose
    /// reads fail is gone, and what was read of it just before is dropped.
    pub fn drain_device(&mut self, fetches: &Vec<Fetch>) -> (result: DrainResult)
        ensures
            match fetched(fetches@) {
                None => result is Gone && final(self)@ == old(self)@,
                Some(events) => {
                    &&& final(self)@ == old(self)@.translated_all(events).0
                    &&& if old(self)@.translated_all(events).1.len() == 0 {
                        result is Empty
                    } else {
                        result matches DrainResult::Events(out) && out@
                            == old(self)@.translated_all(events).1
                    }
                },
            },
    {
        let raw: Vec<RawEvent> = match fetch_all(fetches) {
            Some(raw) => raw,
            None => return DrainResult::Gone,
        };
        let mut out: Vec<Event> = Vec::new();
        let mut i: usize = 0;
        while i < raw.len()
            invariant
                i <= raw@.len(),
                self@ == old(self)@.translated_all(raw@.take(i as int)).0,
                out@ == old(self)@.translated_all(raw@.take(i as int)).1,
            decreases raw@.len() - i,
        {
            assert(raw@.take(i + 1).drop_last() =~= raw@.take(i as int));
            self.translate(raw[i], &mut out);
            i += 1;
        }
        assert(raw@.take(i as int) =~= raw@);
        if out.len() == 0 {
            DrainResult::Empty
        } else {
            DrainResult::Events(out)
        }
    }

    /// What to do after a wakeup. Keyboards that are gone are forgotten; events are handed
    /// out only if there are some, and capture is lost only when no keyboard is left.
    pub fn next_events(&mut self, ready: ReadyKind, fetches: &Vec<Fetch>) -> (step: NextStep)
        requires
            ready matches ReadyKind::Device(i) ==> i < old(self)@.devices.len(),
        ensures
            match ready {
                ReadyKind::Inotify => step is Rescan && final(self)@ == old(self)@,
                ReadyKind::Device(i) => match fetched(fetches@) {
                    None => {
                        &&& final(self)@ == (Keyboards {
                            devices: old(self)@.devices.remove(i as int),
                            ..old(self)@
                        })
                        &&& if old(self)@.devices.len() == 1 {
                            step is Lost
                        } else {
                            step is Wait
                        }
                    },
                    Some(events) => {
                        &&& final(self)@ == old(self)@.translated_all(events).0
                        &&& if old(self)@.translated_all(events).1.len() == 0 {
                            step is Wait
                        } else {
                            step matches NextStep::Deliver(out) && out@
                                == old(self)@.translated_all(events).1
                        }
                    },
                },
            },
            step matches NextStep::Deliver(out) ==> out@.len() > 0,
            step is Lost ==> final(self)@.devices.len() == 0,
    {
        match ready {
            ReadyKind::Inotify => NextStep::Rescan,
            ReadyKind::Device(i) => match self.drain_device(fetches) {
                DrainResult::Events(events) => NextStep::Deliver(events),
                DrainResult::Empty => NextStep::Wait,
                DrainResult::Gone => {
                    let ghost before = self@;
                    self.devices.remove(i);
                    assert(self@.devices =~= before.devices.remove(i as int));
                    assert(self@ =~= (Keyboards {
                        devices: before.devices.remove(i as int),
                        ..before
                    }));
                    if self.devices.len() == 0 {
                        NextStep::Lost
                    } else {
                        NextStep::Wait
                    }
                },
            },
        }
    }

    /// The first source that is ready: a keyboard, in the order in which they were opened,
    /// before the listing of devices.
    pub fn wait_ready(&self, device_ready: &Vec<bool>, inotify_ready: bool) -> (ready: Option<
        ReadyKind,
    >)
        requires
            device_ready@.len() == self@.devices.len(),
        ensures
            match ready {
                Some(ReadyKind::Device(i)) => i < self@.devices.len() && device_ready@[i as int]
                    && forall|k: int| 0 <= k < i ==> !device_ready@[k],
                Some(ReadyKind::Inotify) => inotify_ready && forall|k: int|
                    0 <= k < device_ready@.len() ==> !device_ready@[k],
                None => !inotify_ready && forall|k: int|
                    0 <= k < device_ready@.len() ==> !device_ready@[k],
            },
    {
        let mut i: usize = 0;
        while i < device_ready.len()
            invariant
                i <= device_ready@.len(),
                device_ready@.len() == self@.devices.len(),
                forall|k: int| 0 <= k < i ==> !device_ready@[k],
            decreases device_ready@.len() - i,
        {
            if device_ready[i] {
                return Some(ReadyKind::Device(i));
            }
            i += 1;
        }
        if inotify_ready {
            Some(ReadyKind::Inotify)
        } else {
            None
        }
    }

    /// Starts with the keyboards of `paths` that could be opened, in their order. At least
    /// one must.
    pub fn open(paths: &Vec<Vec<u8>>, opened: &Vec<bool>) -> (r: Result<EvdevCapture, EvdevError>)
        requires
            paths@.len() == opened@.len(),
        ensures
            match r {
                Ok(capture) => opened@.contains(true) && capture@ == (Keyboards {
                    devices: opened_paths(contents(paths@), opened@),
                    held: Set::empty(),
                    at_grab: Set::empty(),
                    grabbed: false,
                    escape_armed: false,
                    escape_signal: false,
                }),
                Err(e) => !opened@.contains(true) && e is NoneOpened,
            },
    {
        let mut devices: Vec<Vec<u8>> = Vec::new();
        let mut i: usize = 0;
        let ghost all = contents(paths@);
        while i < paths.len()
            invariant
                paths@.len() == opened@.len(),
                all == contents(paths@),
                i <= paths@.len(),
                contents(devices@) == opened_paths(all.take(i as int), opened@.take(i as int)),
                devices@.len() == 0 <==> forall|k: int| 0 <= k < i ==> !opened@[k],
            decreases paths@.len() - i,
        {
            let ghost before = contents(devices@);
            assert(all.take(i + 1).drop_last() =~= all.take(i as int));
            assert(opened@.take(i + 1).drop_last() =~= opened@.take(i as int));
            if opened[i] {
                let path: Vec<u8> = copy_bytes(&paths[i]);
                devices.push(path);
                assert(contents(devices@) =~= before.push(all[i as int]));
            }
            i += 1;
        }
        assert(all.take(i as int) =~= all && opened@.take(i as int) =~= opened@);
        if devices.len() == 0 {
            return Err(EvdevError::NoneOpened);
        }
        let ghost k = choose|k: int| 0 <= k < opened@.len() && opened@[k];
        assert(opened@.contains(true)) by {
            assert(opened@[k]);
        }
        Ok(
            EvdevCapture {
                devices,
                held_keys: HashSet::new(),
                keys_at_grab: HashSet::new(),
                grabbed: false,
                escape_armed: false,
                escape_signal: false,
            },
        )
    }

    /// Takes in the outcome of grabbing the keyboards: `states` are the keys that each
    /// reported down just before, and `grabs` tells which could be grabbed. At least one
    /// must. A grab that is already held stays as it is.
    pub fn grab(&mut self, states: &Vec<Option<KeySet>>, grabs: &Vec<bool>) -> (r: Result<
        (),
        EvdevError,
    >)
        ensures
            old(self)@.grabbed ==> r is Ok && final(self)@ == old(self)@,
            !old(self)@.grabbed && grabs@.contains(true) ==> r is Ok && final(self)@ == (Keyboards {
                at_grab: keys_reported(states@),
                grabbed: true,
                escape_armed: false,
                escape_signal: false,
                ..old(self)@
            }),
            !old(self)@.grabbed && !grabs@.contains(true) ==> r == Err::<(), EvdevError>(
                EvdevError::NoneGrabbed,
            ) && final(self)@ == (Keyboards { at_grab: keys_reported(states@), ..old(self)@ }),
    {
        if self.grabbed {
            return Ok(());
        }
        let ghost before = self@;
        self.keys_at_grab.clear();
        let mut i: usize = 0;
        assert(self@.at_grab =~= keys_reported(states@.take(0)));
        while i < states.len()
            invariant
                i <= states@.len(),
                !before.grabbed,
                self@ == (Keyboards { at_grab: keys_reported(states@.take(i as int)), ..before }),
            decreases states@.len() - i,
        {
            let ghost taken = states@.take(i as int);
            let ghost now = states@.take(i + 1);
            if let Some(state) = &states[i] {
                let codes: Vec<u16> = state.codes();
                extend_keys(&mut self.keys_at_grab, &codes);
            }
            proof {
                lemma_reported_step(states@, i as int);
                assert(self@.at_grab =~= keys_reported(now));
                assert(self@ =~= (Keyboards { at_grab: keys_reported(now), ..before }));
            }
            i += 1;
        }
        assert(states@.take(i as int) =~= states@);
        if !any_true(grabs) {
            return Err(EvdevError::NoneGrabbed);
        }
        self.grabbed = true;
        self.escape_armed = false;
        self.escape_signal = false;
        Ok(())
    }

    /// Lets the keyboards go. What comes out are the keys that the compositor saw go down
    /// before the grab and that no keyboard reports down any more, each once: they need a
    /// synthetic release, or the compositor takes them for stuck.
    pub fn ungrab(&mut self, states: &Vec<Option<KeySet>>) -> (stale: Vec<u32>)
        ensures
            !old(self)@.grabbed ==> stale@.len() == 0 && final(self)@ == old(self)@,
            old(self)@.grabbed ==> {
                &&& final(self)@ == (Keyboards {
                    at_grab: Set::empty(),
                    grabbed: false,
                    escape_armed: false,
                    ..old(self)@
                })
                &&& stale@.no_duplicates()
                &&& forall|code: u32| #[trigger]
                    stale@.contains(code) <==> old(self)@.at_grab.contains(code) && !reported(
                        states@,
                        code as u16,
                    )
            },
    {
        let mut stale: Vec<u32> = Vec::new();
        if !self.grabbed {
            return stale;
        }
        self.grabbed = false;
        self.escape_armed = false;
        let codes: Vec<u32> = keys_of(&self.keys_at_grab);
        let mut i: usize = 0;
        while i < codes.len()
            invariant
                i <= codes@.len(),
                codes@.no_duplicates(),
                stale@.no_duplicates(),
                forall|code: u32| #[trigger]
                    stale@.contains(code) <==> codes@.take(i as int).contains(code) && !reported(
                        states@,
                        code as u16,
                    ),
            decreases codes@.len() - i,
        {
            let ghost before = stale@;
            let ghost taken = codes@.take(i as int);
            let code: u32 = codes[i];
            assert(codes@.take(i + 1) =~= taken.push(code));
            assert(!taken.contains(code) && !before.contains(code));
            if !is_reported(states, code as u16) {
                stale.push(code);
            }
            assert forall|c: u32| #[trigger] stale@.contains(c) <==> codes@.take(i + 1).contains(c)
                && !reported(states@, c as u16) by {
                lemma_push_contains(taken, code, c);
                lemma_push_contains(before, code, c);
            }
            i += 1;
        }
        assert(codes@.take(i as int) =~= codes@);
        self.keys_at_grab.clear();
        assert forall|code: u32| #[trigger] stale@.contains(code) <==> old(
            self,
        )@.at_grab.contains(code) && !reported(states@, code as u16) by {
            assert(codes@.to_set().contains(code) <==> codes@.contains(code));
        }
        stale
    }

    /// The modifiers that some keyboard reports down, each once.
    pub fn held_modifiers(&self, states: &Vec<Option<KeySet>>) -> (held: Vec<u32>)
        ensures
            held@.no_duplicates(),
            forall|code: u32| #[trigger]
                held@.contains(code) <==> modifier(code) && reported(states@, code as u16),
    {
        let mut held: Vec<u32> = Vec::new();
        let mut i: usize = 0;
        while i < MODIFIER_KEYS.len()
            invariant
                i <= MODIFIER_KEYS@.len(),
                held@.no_duplicates(),
                forall|code: u32| #[trigger]
                    held@.contains(code) <==> MODIFIER_KEYS@.take(i as int).contains(code)
                        && reported(states@, code as u16),
            decreases MODIFIER_KEYS@.len() - i,
        {
            let ghost before = held@;
            let ghost taken = MODIFIER_KEYS@.take(i as int);
            let code: u32 = MODIFIER_KEYS[i];
            assert(MODIFIER_KEYS@.take(i + 1) =~= taken.push(code));
            assert(!taken.contains(code) && !before.contains(code));
            if is_reported(states, code as u16) {
                held.push(code);
            }
            assert forall|c: u32| #[trigger] held@.contains(c) <==> MODIFIER_KEYS@.take(
                i + 1,
            ).contains(c) && reported(states@, c as u16) by {
                lemma_push_contains(taken, code, c);
                lemma_push_contains(before, code, c);
            }
            i += 1;
        }
        assert(MODIFIER_KEYS@.take(i as int) =~= MODIFIER_KEYS@);
        held
    }

    /// Takes in that the press of these keys was sent.
    pub fn hold(&mut self, codes: &Vec<u32>)
        ensures
            final(self)@ == (Keyboards {
                held: old(self)@.held.union(codes@.to_set()),
                ..old(self)@
            }),
    {
        let ghost before = self@;
        let mut i: usize = 0;
        assert(before.held.union(codes@.take(0).to_set()) =~= before.held);
        while i < codes.len()
            invariant
                i <= codes@.len(),
                self@ == (Keyboards {
                    held: before.held.union(codes@.take(i as int).to_set()),
                    ..before
                }),
            decreases codes@.len() - i,
        {
            self.held_keys.insert(codes[i]);
            proof {
                let taken = codes@.take(i as int);
                assert(codes@.take(i + 1) =~= taken.push(codes@[i as int]));
                taken.lemma_push_to_set_commute(codes@[i as int]);
                assert(self@.held =~= before.held.union(codes@.take(i + 1).to_set()));
                assert(self@ =~= (Keyboards {
                    held: before.held.union(codes@.take(i + 1).to_set()),
                    ..before
                }));
            }
            i += 1;
        }
        assert(codes@.take(i as int) =~= codes@);
    }

    /// Forgets the held keys; what comes out releases each of them.
    pub fn release_all(&mut self) -> (events: Vec<Event>)
        ensures
            releases_each(events@, old(self)@.held),
            final(self)@ == (Keyboards { held: Set::empty(), ..old(self)@ }),
    {
        let codes: Vec<u32> = keys_of(&self.held_keys);
        let mut events: Vec<Event> = Vec::new();
        let mut i: usize = 0;
        let ghost release = |code: u32| Event::KeyRelease { code };
        while i < codes.len()
            invariant
                i <= codes@.len(),
                release == (|code: u32| Event::KeyRelease { code }),
                events@ == codes@.take(i as int).map_values(release),
            decreases codes@.len() - i,
        {
            events.push(Event::KeyRelease { code: codes[i] });
            assert(events@ =~= codes@.take(i + 1).map_values(release));
            i += 1;
        }
        assert(codes@.take(i as int) =~= codes@);
        self.held_keys.clear();
        assert(self@ =~= (Keyboards { held: Set::empty(), ..old(self)@ }));
        events
    }

    /// Whether a Super+M was intercepted since the last call.
    pub fn take_escape_signal(&mut self) -> (signal: bool)
        ensures
            signal == old(self)@.escape_signal,
            final(self)@ == (Keyboards { escape_signal: false, ..old(self)@ }),
    {
        let signal: bool = self.escape_signal;
        self.escape_signal = false;
        signal
    }

    /// Which of the listed keyboards are not open yet, in the order of the listing.
    pub fn rescan(&self, found: &Vec<Vec<u8>>) -> (new: Vec<Vec<u8>>)
        ensures
            contents(new@) == contents(found@).filter(
                |path: Seq<u8>| !self@.devices.contains(path),
            ),
    {
        let mut new: Vec<Vec<u8>> = Vec::new();
        let mut i: usize = 0;
        let ghost all = contents(found@);
        let ghost unknown = |path: Seq<u8>| !self@.devices.contains(path);
        assert(contents(new@) =~= all.take(0).filter(unknown)) by {
            reveal(Seq::filter);
        }
        while i < found.len()
            invariant
                i <= found@.len(),
                all == contents(found@),
                unknown == (|path: Seq<u8>| !self@.devices.contains(path)),
                contents(new@) == all.take(i as int).filter(unknown),
            decreases found@.len() - i,
        {
            let ghost before = contents(new@);
            assert(all.take(i + 1).drop_last() =~= all.take(i as int));
            assert(all.take(i + 1).last() == found@[i as int]@);
            reveal(Seq::filter);
            if !self.knows(&found[i]) {
                new.push(copy_bytes(&found[i]));
                assert(contents(new@) =~= before.push(all[i as int]));
            }
            i += 1;
        }
        assert(all.take(i as int) =~= all);
        new
    }

    /// Whether the keyboard is open.
    fn knows(&self, path: &Vec<u8>) -> (b: bool)
        ensures
            b == self@.devices.contains(path@),
    {
        let mut i: usize = 0;
        while i < self.devices.len()
            invariant
                i <= self.devices@.len(),
                forall|k: int| 0 <= k < i ==> (#[trigger] self@.devices[k]) != path@,
            decreases self.devices@.len() - i,
        {
            if same_bytes(&self.devices[i], path) {
                assert(self@.devices[i as int] == path@);
                return true;
            }
            i += 1;
        }
        false
    }

    /// Takes in which of the new keyboards could be opened: they are added in their order.
    /// Tells whether they must be grabbed like the others; they stay whether or not that
    /// works.
    pub fn rescanned(&mut self, new: &Vec<Vec<u8>>, opened: &Vec<bool>) -> (grab: bool)
        requires
            new@.len() == opened@.len(),
        ensures
            grab == old(self)@.grabbed,
            final(self)@ == (Keyboards {
                devices: old(self)@.devices + opened_paths(contents(new@), opened@),
                ..old(self)@
            }),
    {
        let ghost before = self@;
        let mut i: usize = 0;
        let ghost all = contents(new@);
        assert(before.devices + opened_paths(all.take(0), opened@.take(0)) =~= before.devices);
        while i < new.len()
            invariant
                new@.len() == opened@.len(),
                all == contents(new@),
                i <= new@.len(),
                self@ == (Keyboards {
                    devices: before.devices + opened_paths(
                        all.take(i as int),
                        opened@.take(i as int),
                    ),
                    ..before
                }),
            decreases new@.len() - i,
        {
            let ghost devices = self@.devices;
            assert(all.take(i + 1).drop_last() =~= all.take(i as int));
            assert(opened@.take(i + 1).drop_last() =~= opened@.take(i as int));
            if opened[i] {
                self.devices.push(copy_bytes(&new[i]));
                assert(self@.devices =~= devices.push(all[i as int]));
            }
            i += 1;
            assert(self@.devices =~= before.devices + opened_paths(
                all.take(i as int),
                opened@.take(i as int),
            ));
            assert(self@ =~= (Keyboards {
                devices: before.devices + opened_paths(all.take(i as int), opened@.take(i as int)),
                ..before
            }));
        }
        assert(all.take(i as int) =~= all && opened@.take(i as int) =~= opened@);
        self.grabbed
    }

    /// Paths of the open keyboards.
    pub fn devices(&self) -> (devices: &Vec<Vec<u8>>)
        ensures
            contents(devices@) == self@.devices,
    {
        &self.devices
    }
}

/// The keys that are down at the other end after events, if `down` were down before.
pub open spec fn keys_down(down: Set<u32>, events: Seq<Event>) -> Set<u32>
    decreases events.len(),
{
    if events.len() == 0 {
        down
    } else {
        let before = keys_down(down, events.drop_last());
        match events.last() {
            Event::KeyPress { code } => before.insert(code),
            Event::KeyRelease { code } => before.remove(code),
            _ => before,
        }
    }
}

/// Events in two parts leave down what the second part leaves of what the first leaves.
pub(crate) proof fn lemma_keys_down_of_parts(down: Set<u32>, a: Seq<Event>, b: Seq<Event>)
    ensures
        keys_down(down, a + b) == keys_down(keys_down(down, a), b),
    decreases b.len(),
{
    if b.len() == 0 {
        assert(a + b =~= a);
    } else {
        assert((a + b).drop_last() =~= a + b.drop_last());
        lemma_keys_down_of_parts(down, a, b.drop_last());
    }
}

/// Whatever is typed, the keys that are down at the other end are the held ones.
pub proof fn held_keys_are_down(keyboards: Keyboards, events: Seq<RawEvent>)
    ensures
        keys_down(keyboards.held, keyboards.translated_all(events).1) == keyboards.translated_all(
            events,
        ).0.held,
    decreases events.len(),
{
    if events.len() > 0 {
        let before = keyboards.translated_all(events.drop_last());
        let last = before.0.translated(events.last());
        held_keys_are_down(keyboards, events.drop_last());
        lemma_keys_down_of_parts(keyboards.held, before.1, last.1);
        reveal_with_fuel(keys_down, 2);
        if last.1.len() > 0 {
            assert(last.1.drop_last() =~= Seq::<Event>::empty());
        }
        assert(keys_down(keyboards.held, before.1 + last.1) =~= last.0.held);
    }
}

proof fn lemma_releases_lift(down: Set<u32>, codes: Seq<u32>)
    ensures
        keys_down(down, codes.map_values(|code: u32| Event::KeyRelease { code }))
            == down.difference(codes.to_set()),
    decreases codes.len(),
{
    let release = |code: u32| Event::KeyRelease { code };
    let events = codes.map_values(release);
    if codes.len() == 0 {
        assert(down.difference(codes.to_set()) =~= down);
    } else {
        let rest = codes.drop_last();
        lemma_releases_lift(down, rest);
        assert(events.drop_last() =~= rest.map_values(release));
        assert(codes =~= rest.push(codes.last()));
        rest.lemma_push_to_set_commute(codes.last());
        assert(keys_down(down, events) =~= down.difference(codes.to_set()));
    }
}

/// Releasing each held key leaves none of the held keys down at the other end.
pub proof fn release_all_lifts_held_keys(down: Set<u32>, held: Set<u32>, events: Seq<Event>)
    requires
        releases_each(events, held),
    ensures
        keys_down(down, events) == down.difference(held),
{
    let codes = choose|codes: Seq<u32>|
        {
            &&& #[trigger] codes.to_set() == held
            &&& codes.no_duplicates()
            &&& events == codes.map_values(|code: u32| Event::KeyRelease { code })
        };
    lemma_releases_lift(down, codes);
}

/// Whatever was typed, once the held keys are released no key is left down at the other
/// end.
pub proof fn no_key_is_left_down(
    keyboards: Keyboards,
    events: Seq<RawEvent>,
    releases: Seq<Event>,
)
    requires
        releases_each(releases, keyboards.translated_all(events).0.held),
    ensures
        keys_down(keyboards.held, keyboards.translated_all(events).1 + releases)
            == Set::<u32>::empty(),
{
    let (after, sent) = keyboards.translated_all(events);
    held_keys_are_down(keyboards, events);
    lemma_keys_down_of_parts(keyboards.held, sent, releases);
    release_all_lifts_held_keys(after.held, after.held, releases);
    assert(after.held.difference(after.held) =~= Set::<u32>::empty());
}

/// While a Super key is held, pressing M, holding it for any time and letting it go
/// forwards nothing; all that is left of it is the signal.
pub proof fn super_m_is_swallowed(keyboards: Keyboards, repeats: nat)
    requires
        keyboards.super_held(),
    ensures
        ({
            let m = KEY_M as u16;
            let press = seq![RawEvent { kind: EV_KEY, code: m, value: 1 }];
            let hold = Seq::new(repeats, |i: int| RawEvent { kind: EV_KEY, code: m, value: 2 });
            let release = seq![RawEvent { kind: EV_KEY, code: m, value: 0 }];
            keyboards.translated_all(press + hold + release) == (
                Keyboards { escape_signal: true, escape_armed: false, ..keyboards },
                Seq::<Event>::empty(),
            )
        }),
{
    let m = KEY_M as u16;
    let press = seq![RawEvent { kind: EV_KEY, code: m, value: 1 }];
    let hold = Seq::new(repeats, |i: int| RawEvent { kind: EV_KEY, code: m, value: 2 });
    let release = RawEvent { kind: EV_KEY, code: m, value: 0 };
    lemma_super_m_held(keyboards, repeats);
    assert((press + hold + seq![release]).drop_last() =~= press + hold);
    assert(keyboards.translated_all(press + hold + seq![release]).1 =~= Seq::<Event>::empty());
    assert(keyboards.translated_all(press + hold + seq![release]).0 =~= (Keyboards {
        escape_signal: true,
        escape_armed: false,
        ..keyboards
    }));
}

proof fn lemma_super_m_held(keyboards: Keyboards, repeats: nat)
    requires
        keyboards.super_held(),
    ensures
        ({
            let m = KEY_M as u16;
            let press = seq![RawEvent { kind: EV_KEY, code: m, value: 1 }];
            let hold = Seq::new(repeats, |i: int| RawEvent { kind: EV_KEY, code: m, value: 2 });
            keyboards.translated_all(press + hold) == (
                Keyboards { escape_signal: true, escape_armed: true, ..keyboards },
                Seq::<Event>::empty(),
            )
        }),
    decreases repeats,
{
    let m = KEY_M as u16;
    let press = seq![RawEvent { kind: EV_KEY, code: m, value: 1 }];
    let hold = Seq::new(repeats, |i: int| RawEvent { kind: EV_KEY, code: m, value: 2 });
    if repeats == 0 {
        assert(press + hold =~= press);
        assert(press.drop_last() =~= Seq::<RawEvent>::empty());
        reveal_with_fuel(Keyboards::translated_all, 2);
        assert(keyboards.translated_all(press).1 =~= Seq::<Event>::empty());
    } else {
        let fewer = (repeats - 1) as nat;
        lemma_super_m_held(keyboards, fewer);
        assert((press + hold).drop_last() =~= press + Seq::new(
            fewer,
            |i: int| RawEvent { kind: EV_KEY, code: m, value: 2 },
        ));
        assert(keyboards.translated_all(press + hold).1 =~= Seq::<Event>::empty());
    }
}

/// Once the stale keys are released, the compositor takes no key for pressed that went down
/// before the grab and that no keyboard reports down any more.
pub proof fn no_key_is_stuck_locally(
    at_grab: Set<u32>,
    states: Seq<Option<KeySet>>,
    stale: Seq<u32>,
    code: u32,
)
    requires
        forall|c: u32| #[trigger]
            stale.contains(c) <==> at_grab.contains(c) && !reported(states, c as u16),
        at_grab.difference(stale.to_set()).contains(code),
    ensures
        reported(states, code as u16),
{
    assert(stale.to_set().contains(code) <==> stale.contains(code));
}

/// It does not matter in how many batches the kernel's events are read.
pub proof fn batches_do_not_matter(keyboards: Keyboards, first: Seq<RawEvent>, second: Seq<RawEvent>)
    ensures
        ({
            let (between, sent) = keyboards.translated_all(first);
            let (after, sent_later) = between.translated_all(second);
            keyboards.translated_all(first + second) == (after, sent + sent_later)
        }),
    decreases second.len(),
{
    let (between, sent) = keyboards.translated_all(first);
    if second.len() == 0 {
        assert(first + second =~= first);
        assert(sent + Seq::<Event>::empty() =~= sent);
    } else {
        assert((first + second).drop_last() =~= first + second.drop_last());
        batches_do_not_matter(keyboards, first, second.drop_last());
        let (before, earlier) = between.translated_all(second.drop_last());
        let last = before.translated(second.last()).1;
        assert((sent + earlier) + last =~= sent + (earlier + last));
    }
}

/// Typing changes neither the open keyboards nor the grab.
pub proof fn translation_keeps_grab(keyboards: Keyboards, events: Seq<RawEvent>)
    ensures
        keyboards.translated_all(events).0.devices == keyboards.devices,
        keyboards.translated_all(events).0.at_grab == keyboards.at_grab,
        keyboards.translated_all(events).0.grabbed == keyboards.grabbed,
    decreases events.len(),
{
    if events.len() > 0 {
        translation_keeps_grab(keyboards, events.drop_last());
    }
}

/// The keyboards that a scan adds: those of the listing that are not open yet and that can be
/// opened, in the order of the listing.
pub open spec fn scan_adds(
    devices: Seq<Seq<u8>>,
    found: Seq<Seq<u8>>,
    openable: Set<Seq<u8>>,
) -> Seq<Seq<u8>> {
    found.filter(|path: Seq<u8>| !devices.contains(path) && openable.contains(path))
}

/// A scan adds exactly the keyboards of the listing that were not open yet and can be opened,
/// behind those that were open; and a second scan of the same listing adds nothing.
///
/// `opened` tells which of the keyboards that were not open yet could be opened.
pub proof fn rescan_finds_a_keyboard_once(
    devices: Seq<Seq<u8>>,
    found: Seq<Seq<u8>>,
    openable: Set<Seq<u8>>,
    opened: Seq<bool>,
)
    requires
        ({
            let new = found.filter(|path: Seq<u8>| !devices.contains(path));
            &&& opened.len() == new.len()
            &&& forall|i: int| 0 <= i < new.len() ==> opened[i] == openable.contains(
                #[trigger] new[i],
            )
        }),
    ensures
        ({
            let new = found.filter(|path: Seq<u8>| !devices.contains(path));
            let added = opened_paths(new, opened);
            &&& added == scan_adds(devices, found, openable)
            &&& scan_adds(devices + added, found, openable).len() == 0
        }),
{
    let unknown = |path: Seq<u8>| !devices.contains(path);
    let new = found.filter(unknown);
    let added = opened_paths(new, opened);
    lemma_opened_are_openable(new, opened, openable);
    lemma_filter_twice(found, devices, openable);
    let all = devices + added;
    let left_over = |path: Seq<u8>| !all.contains(path) && openable.contains(path);
    let left = found.filter(left_over);
    if left.len() > 0 {
        let path = left[0];
        found.lemma_filter_pred(left_over, 0);
        assert(left.contains(path));
        found.lemma_filter_contains_rev(left_over, path);
        if devices.contains(path) {
            assert(all[devices.index_of(path)] == path);
        } else {
            let k = found.index_of(path);
            found.lemma_filter_contains(
                |path: Seq<u8>| !devices.contains(path) && openable.contains(path),
                k,
            );
            assert(added.contains(path));
            assert(all[devices.len() + added.index_of(path)] == path);
        }
    }
}

proof fn lemma_opened_are_openable(
    new: Seq<Seq<u8>>,
    opened: Seq<bool>,
    openable: Set<Seq<u8>>,
)
    requires
        opened.len() == new.len(),
        forall|i: int| 0 <= i < new.len() ==> opened[i] == openable.contains(#[trigger] new[i]),
    ensures
        opened_paths(new, opened) == new.filter(|path: Seq<u8>| openable.contains(path)),
    decreases new.len(),
{
    reveal(Seq::filter);
    if new.len() > 0 {
        let rest = new.drop_last();
        assert forall|i: int| 0 <= i < rest.len() implies opened.drop_last()[i]
            == openable.contains(#[trigger] rest[i]) by {
            assert(rest[i] == new[i]);
        }
        lemma_opened_are_openable(rest, opened.drop_last(), openable);
        assert(opened.last() == openable.contains(new[new.len() - 1]));
    }
}

proof fn lemma_filter_twice(found: Seq<Seq<u8>>, devices: Seq<Seq<u8>>, openable: Set<Seq<u8>>)
    ensures
        found.filter(|path: Seq<u8>| !devices.contains(path)).filter(
            |path: Seq<u8>| openable.contains(path),
        ) == scan_adds(devices, found, openable),
    decreases found.len(),
{
    reveal(Seq::filter);
    if found.len() > 0 {
        let unknown = |path: Seq<u8>| !devices.contains(path);
        let rest = found.drop_last();
        lemma_filter_twice(rest, devices, openable);
        if unknown(found.last()) {
            let before = rest.filter(unknown);
            assert(before.push(found.last()).drop_last() =~= before);
        }
    }
}

/// Every press and every release of a key is forwarded, and nothing more, whatever other keys
/// are held; the pressed key is held from then on, and the released one no longer. Only two
/// are not: a press of M (50) while a Super key (125 or 126) is held, which is intercepted,
/// and the release of M that ends that. Nothing else changes.
pub proof fn presses_and_releases_are_forwarded(keyboards: Keyboards, code: u16)
    ensures
        ({
            let press = RawEvent { kind: 1, code, value: 1 };
            let (after, sent) = keyboards.translated(press);
            let with_super = keyboards.held.contains(125) || keyboards.held.contains(126);
            &&& code != 50 || !with_super ==> {
                &&& sent == seq![Event::KeyPress { code: code as u32 }]
                &&& after.held == keyboards.held.insert(code as u32)
                &&& after.escape_armed == keyboards.escape_armed
                &&& after.escape_signal == keyboards.escape_signal
            }
            &&& code == 50 && with_super ==> {
                &&& sent.len() == 0
                &&& after.held == keyboards.held
                &&& after.escape_armed
                &&& after.escape_signal
            }
            &&& after.devices == keyboards.devices
            &&& after.at_grab == keyboards.at_grab
            &&& after.grabbed == keyboards.grabbed
        }),
        ({
            let release = RawEvent { kind: 1, code, value: 0 };
            let (after, sent) = keyboards.translated(release);
            &&& code != 50 || !keyboards.escape_armed ==> {
                &&& sent == seq![Event::KeyRelease { code: code as u32 }]
                &&& after.held == keyboards.held.remove(code as u32)
                &&& after.escape_armed == keyboards.escape_armed
            }
            &&& code == 50 && keyboards.escape_armed ==> {
                &&& sent.len() == 0
                &&& after.held == keyboards.held
                &&& !after.escape_armed
            }
            &&& after.escape_signal == keyboards.escape_signal
            &&& after.devices == keyboards.devices
            &&& after.at_grab == keyboards.at_grab
            &&& after.grabbed == keyboards.grabbed
        }),
{
}

/// A repeat of a key is forwarded as a press, and the key is held, unless it is a modifier or
/// an M that was intercepted: those repeats change nothing.
pub proof fn repeats_are_presses_but_for_modifiers(keyboards: Keyboards, code: u16)
    ensures
        ({
            let (after, sent) = keyboards.translated(RawEvent { kind: 1, code, value: 2 });
            let is_modifier = code == 29 || code == 97 || code == 42 || code == 54 || code == 56
                || code == 100 || code == 125 || code == 126;
            &&& is_modifier || (code == 50 && keyboards.escape_armed) ==> sent.len() == 0 && after
                == keyboards
            &&& !is_modifier && (code != 50 || !keyboards.escape_armed) ==> {
                &&& sent == seq![Event::KeyPress { code: code as u32 }]
                &&& after == (Keyboards { held: keyboards.held.insert(code as u32), ..keyboards })
            }
        }),
{
    modifiers_are_these(code as u32);
}

/// Nothing is swallowed but what is no press, release or repeat of a key, the M of Super+M, and
/// repeats of modifiers; and one event of the kernel becomes one event at most, of its own key.
pub proof fn only_the_chord_and_modifier_repeats_are_swallowed(
    keyboards: Keyboards,
    event: RawEvent,
)
    ensures
        ({
            let (after, sent) = keyboards.translated(event);
            let key = event.kind == 1 && 0 <= event.value <= 2;
            &&& sent.len() <= 1
            &&& sent.len() == 1 ==> key && (sent[0] == Event::KeyPress { code: event.code as u32 }
                && event.value != 0 || sent[0] == Event::KeyRelease { code: event.code as u32 }
                && event.value == 0)
            &&& sent.len() == 0 && key ==> event.code == 50 || (event.value == 2 && modifier(
                event.code as u32,
            ))
            &&& !key ==> sent.len() == 0 && after == keyboards
        }),
{
}

/// Events of the kernel are translated one after the other.
pub proof fn events_are_translated_in_order(
    keyboards: Keyboards,
    events: Seq<RawEvent>,
    event: RawEvent,
)
    ensures
        keyboards.translated_all(Seq::empty()) == (keyboards, Seq::<Event>::empty()),
        keyboards.translated_all(seq![event]) == keyboards.translated(event),
        ({
            let (before, sent) = keyboards.translated_all(events);
            let (after, more) = before.translated(event);
            keyboards.translated_all(events.push(event)) == (after, sent + more)
        }),
{
    assert(events.push(event).drop_last() =~= events);
    assert(seq![event].drop_last() =~= Seq::<RawEvent>::empty());
    reveal_with_fuel(Keyboards::translated_all, 2);
    assert(Seq::<Event>::empty() + keyboards.translated(event).1 =~= keyboards.translated(event).1);
}

/// All that the reads of a keyboard gave comes out, in order, once they give nothing more; if
/// a read fails, nothing does.
pub proof fn reads_are_put_together(
    batches: Seq<Vec<RawEvent>>,
    rest: Seq<Fetch>,
)
    ensures
        ({
            let reads = Seq::new(batches.len(), |i: int| Fetch::Events(batches[i]));
            let all = Seq::new(batches.len(), |i: int| batches[i]@).flatten();
            &&& fetched(reads) == Some(all)
            &&& fetched(reads + seq![Fetch::WouldBlock] + rest) == Some(all)
            &&& fetched(reads + seq![Fetch::Failed] + rest) is None
        }),
    decreases batches.len(),
{
    let reads = Seq::new(batches.len(), |i: int| Fetch::Events(batches[i]));
    let contents_of = Seq::new(batches.len(), |i: int| batches[i]@);
    let blocked = reads + seq![Fetch::WouldBlock] + rest;
    let failed = reads + seq![Fetch::Failed] + rest;
    if batches.len() > 0 {
        let tail = batches.skip(1);
        reads_are_put_together(tail, rest);
        let tail_reads = Seq::new(tail.len(), |i: int| Fetch::Events(tail[i]));
        assert(reads.skip(1) =~= tail_reads);
        assert(blocked.skip(1) =~= tail_reads + seq![Fetch::WouldBlock] + rest);
        assert(failed.skip(1) =~= tail_reads + seq![Fetch::Failed] + rest);
        assert(contents_of.drop_first() =~= Seq::new(tail.len(), |i: int| tail[i]@));
    }
}

/// A key is reported if some keyboard that answered has it: more keyboards report what each of
/// them reports.
pub proof fn keyboards_report_together(
    a: Seq<Option<KeySet>>,
    b: Seq<Option<KeySet>>,
    set: KeySet,
    code: u16,
)
    ensures
        !reported(Seq::empty(), code),
        !reported(seq![None], code),
        reported(seq![Some(set)], code) <==> set@.contains(code),
        reported(a + b, code) <==> reported(a, code) || reported(b, code),
        keys_reported(a).contains(code as u32) <==> reported(a, code),
{
    let one = seq![Some(set)];
    assert(one[0] == Some(set));
    if reported(a, code) {
        let i = choose|i: int|
            0 <= i < a.len() && (#[trigger] a[i]) is Some && a[i]->0@.contains(code);
        assert((a + b)[i] == a[i]);
    }
    if reported(b, code) {
        let i = choose|i: int|
            0 <= i < b.len() && (#[trigger] b[i]) is Some && b[i]->0@.contains(code);
        assert((a + b)[a.len() + i] == b[i]);
    }
    if reported(a + b, code) {
        let i = choose|i: int|
            0 <= i < (a + b).len() && (#[trigger] (a + b)[i]) is Some && (a + b)[i]->0@.contains(
                code,
            );
        if i < a.len() {
            assert(a[i] == (a + b)[i]);
        } else {
            assert(b[i - a.len()] == (a + b)[i]);
        }
    }
}

/// Releasing each of some keys is a release of every one of them, of no other key, and of none
/// twice.
pub proof fn each_key_is_released_once(events: Seq<Event>, keys: Set<u32>, code: u32)
    requires
        releases_each(events, keys),
    ensures
        keys.contains(code) <==> events.contains(Event::KeyRelease { code }),
        forall|i: int| 0 <= i < events.len() ==> (#[trigger] events[i]) is KeyRelease,
        events.no_duplicates(),
{
    let codes = choose|codes: Seq<u32>|
        {
            &&& #[trigger] codes.to_set() == keys
            &&& codes.no_duplicates()
            &&& events == codes.map_values(|code: u32| Event::KeyRelease { code })
        };
    assert(codes.to_set().contains(code) <==> codes.contains(code));
    if codes.contains(code) {
        let i = choose|i: int| 0 <= i < codes.len() && codes[i] == code;
        assert(events[i] == Event::KeyRelease { code });
    }
    if events.contains(Event::KeyRelease { code }) {
        let i = choose|i: int|
            0 <= i < events.len() && events[i] == Event::KeyRelease { code };
        assert(codes[i] == code);
    }
    assert forall|i: int, j: int| 0 <= i < events.len() && 0 <= j < events.len() && i != j implies
        events[i] != events[j] by {
        assert(codes[i] != codes[j]);
    }
}

/// Of the given keyboards, those that could be opened are kept, in their order.
pub proof fn opened_keyboards_are_kept(
    paths: Seq<Seq<u8>>,
    opened: Seq<bool>,
    path: Seq<u8>,
)
    requires
        paths.len() == opened.len(),
    ensures
        opened_paths(Seq::empty(), Seq::empty()).len() == 0,
        opened_paths(paths.push(path), opened.push(true)) == opened_paths(paths, opened).push(path),
        opened_paths(paths.push(path), opened.push(false)) == opened_paths(paths, opened),
{
    assert(paths.push(path).drop_last() =~= paths);
    assert(opened.push(true).drop_last() =~= opened);
    assert(opened.push(false).drop_last() =~= opened);
}

} // verus!
