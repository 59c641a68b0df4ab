//! Key input: the debounce state machine and the joypad mapping.
//!
//! The firmware offers one queue of key strokes and no key-up events. The
//! debouncer reads that queue at most once per [`POLL_INTERVAL`], remembers
//! the last printable key together with the time it arrived, and lets it go
//! once [`RELEASE_THRESHOLD`] has passed without a new stroke. The caller does
//! the reading: it asks [`InputDebouncer::poll_due`], reads the queue when the
//! answer is yes, and hands what it got to [`InputDebouncer::tick`].

use vstd::prelude::*;
use crate::time::{due, elapsed, elapsed_between, is_due};

verus! {

/// Least time between two reads of the input queue, in microseconds.
pub const POLL_INTERVAL: u64 = 20_000;

/// Time after which a key that was not struck again counts as released.
pub const RELEASE_THRESHOLD: u64 = 200_000;

/// Scan code of the escape key, which ends the session.
pub const SCAN_ESCAPE: u16 = 0x17;

/// One stroke read from the firmware's input queue.
#[derive(Clone, Copy, Debug, PartialEq, Eq, Structural)]
pub enum KeyEvent {
    /// A key without a character, named by its scan code.
    Special(u16),
    /// A key that produced a character.
    Printable(char),
}

/// A button of the emulated joypad.
#[derive(Clone, Copy, Debug, PartialEq, Eq, Structural)]
pub enum LogicalKey {
    Right,
    Left,
    Up,
    Down,
    A,
    B,
    Select,
    Start,
}

/// The key that is held down, and when it was struck last.
#[derive(Clone, Copy, Debug, PartialEq, Eq, Structural)]
pub struct KeyState {
    pub key: char,
    pub press_time: u64,
}

/// What the debouncer knows: the held key, if any, and the time of the last
/// read of the input queue.
pub struct DebounceView {
    pub pressed: Option<KeyState>,
    pub last_poll: u64,
}

/// Debounce state: idle, or exactly one pressed key.
pub struct InputDebouncer {
    pressed: Option<KeyState>,
    last_poll: u64,
}

/// The joypad button that a character stands for. Each button has one
/// character, every other character has no button.
pub open spec fn key_mapping(raw: char) -> Option<LogicalKey> {
    if raw == 'd' {
        Some(LogicalKey::Right)
    } else if raw == 'a' {
        Some(LogicalKey::Left)
    } else if raw == 'w' {
        Some(LogicalKey::Up)
    } else if raw == 's' {
        Some(LogicalKey::Down)
    } else if raw == 'z' {
        Some(LogicalKey::A)
    } else if raw == 'x' {
        Some(LogicalKey::B)
    } else if raw == ' ' {
        Some(LogicalKey::Select)
    } else if raw == '\r' {
        Some(LogicalKey::Start)
    } else {
        None
    }
}

/// Whether a stroke asks to end the session.
pub open spec fn is_cancel(event: KeyEvent) -> bool {
    event == KeyEvent::Special(SCAN_ESCAPE)
}

/// Whether a key struck at `held.press_time` has been let go by `now`.
pub open spec fn is_released(held: KeyState, now: u64) -> bool {
    elapsed_between(held.press_time, now) >= RELEASE_THRESHOLD
}

/// Whether a tick at `now` reads the input queue.
pub open spec fn polls(s: DebounceView, now: u64) -> bool {
    is_due(s.last_poll, now, POLL_INTERVAL)
}

/// The held key after the queue was read at `now` and gave `polled`.
pub open spec fn pressed_after_poll(
    pressed: Option<KeyState>,
    now: u64,
    polled: Option<KeyEvent>,
) -> Option<KeyState> {
    match polled {
        Some(KeyEvent::Printable(c)) => Some(KeyState { key: c, press_time: now }),
        Some(KeyEvent::Special(code)) if code == SCAN_ESCAPE => pressed,
        _ => match pressed {
            Some(held) if is_released(held, now) => None,
            _ => pressed,
        },
    }
}

/// The state after a tick at `now`. `polled` is what the queue gave; it is
/// looked at only when the tick reads the queue.
pub open spec fn after_tick(s: DebounceView, now: u64, polled: Option<KeyEvent>) -> DebounceView {
    if polls(s, now) {
        DebounceView { pressed: pressed_after_poll(s.pressed, now, polled), last_poll: now }
    } else {
        s
    }
}

/// Whether a tick at `now` lets the session go on: it does unless it read the
/// queue and found the cancel key.
pub open spec fn tick_continues(s: DebounceView, now: u64, polled: Option<KeyEvent>) -> bool {
    !(polls(s, now) && polled is Some && is_cancel(polled->Some_0))
}

/// Whether the held key is the one that stands for `key`.
pub open spec fn is_pressed(s: DebounceView, key: LogicalKey) -> bool {
    s.pressed is Some && key_mapping(s.pressed->Some_0.key) == Some(key)
}

/// The joypad button of a character, if it has one.
pub fn logical_key(raw: char) -> (key: Option<LogicalKey>)
    ensures
        key == key_mapping(raw),
{
    if raw == 'd' {
        Some(LogicalKey::Right)
    } else if raw == 'a' {
        Some(LogicalKey::Left)
    } else if raw == 'w' {
        Some(LogicalKey::Up)
    } else if raw == 's' {
        Some(LogicalKey::Down)
    } else if raw == 'z' {
        Some(LogicalKey::A)
    } else if raw == 'x' {
        Some(LogicalKey::B)
    } else if raw == ' ' {
        Some(LogicalKey::Select)
    } else if raw == '\r' {
        Some(LogicalKey::Start)
    } else {
        None
    }
}

impl View for InputDebouncer {
    type V = DebounceView;

    closed spec fn view(&self) -> DebounceView {
        DebounceView { pressed: self.pressed, last_poll: self.last_poll }
    }
}

impl InputDebouncer {
    /// An idle debouncer whose last read of the queue lies at time zero.
    pub fn new() -> (d: Self)
        ensures
            d@ == (DebounceView { pressed: None, last_poll: 0 }),
    {
        InputDebouncer { pressed: None, last_poll: 0 }
    }

    /// Whether a tick at `now` is to be given a fresh read of the input queue.
    pub fn poll_due(&self, now: u64) -> (b: bool)
        ensures
            b == polls(self@, now),
    {
        due(self.last_poll, now, POLL_INTERVAL)
    }

    /// One tick of the debouncer. When the queue is due, `polled` is the
    /// stroke that was read from it, or `None` if it was empty; otherwise
    /// `polled` is ignored and nothing changes. Returns `false` when the
    /// cancel key was read.
    pub fn tick(&mut self, now: u64, polled: Option<KeyEvent>) -> (cont: bool)
        ensures
            final(self)@ == after_tick(old(self)@, now, polled),
            cont == tick_continues(old(self)@, now, polled),
    {
        if !due(self.last_poll, now, POLL_INTERVAL) {
            return true;
        }
        self.last_poll = now;
        match polled {
            Some(KeyEvent::Printable(c)) => {
                self.pressed = Some(KeyState { key: c, press_time: now });
                true
            },
            Some(KeyEvent::Special(code)) => {
                if code == SCAN_ESCAPE {
                    false
                } else {
                    self.release_if_stale(now);
                    true
                }
            },
            None => {
                self.release_if_stale(now);
                true
            },
        }
    }

    /// Lets the held key go if it was struck too long ago.
    fn release_if_stale(&mut self, now: u64)
        ensures
            final(self).last_poll == old(self).last_poll,
            final(self).pressed == pressed_after_poll(old(self).pressed, now, None),
    {
        let stale = match self.pressed {
            Some(held) => elapsed(held.press_time, now) >= RELEASE_THRESHOLD,
            None => false,
        };
        if stale {
            self.pressed = None;
        }
    }

    /// Whether the joypad button `key` is held down.
    pub fn joypad_pressed(&self, key: LogicalKey) -> (b: bool)
        ensures
            b == is_pressed(self@, key),
    {
        match self.pressed {
            Some(held) => logical_key(held.key) == Some(key),
            None => false,
        }
    }

    /// The held key and the time of its last stroke, if a key is held.
    pub fn pressed(&self) -> (p: Option<KeyState>)
        ensures
            p == self@.pressed,
    {
        self.pressed
    }
}

/// The state after a run of ticks, each given as its time and what the input
/// queue held for it.
pub open spec fn after_ticks(s: DebounceView, ticks: Seq<(u64, Option<KeyEvent>)>) -> DebounceView
    decreases ticks.len(),
{
    if ticks.len() == 0 {
        s
    } else {
        after_tick(after_ticks(s, ticks.drop_last()), ticks.last().0, ticks.last().1)
    }
}

/// Whether the input queue is empty at every tick of the run.
pub open spec fn is_silent(ticks: Seq<(u64, Option<KeyEvent>)>) -> bool {
    forall|i: int| 0 <= i < ticks.len() ==> (#[trigger] ticks[i]).1 is None
}

/// Whether every tick of the run comes less than `span` after `start`.
pub open spec fn all_within(ticks: Seq<(u64, Option<KeyEvent>)>, start: u64, span: u64) -> bool {
    forall|i: int| 0 <= i < ticks.len() ==> elapsed_between(start, (#[trigger] ticks[i]).0) < span
}

/// The joypad mapping is one to one: no two characters stand for the same
/// button.
pub proof fn lemma_key_mapping_injective(c1: char, c2: char)
    requires
        key_mapping(c1) is Some,
        key_mapping(c1) == key_mapping(c2),
    ensures
        c1 == c2,
{
}

/// At most one joypad button is pressed at any time.
pub proof fn lemma_one_key_at_a_time(s: DebounceView, k1: LogicalKey, k2: LogicalKey)
    requires
        is_pressed(s, k1),
        is_pressed(s, k2),
    ensures
        k1 == k2,
{
}

/// A key that is read replaces whatever was held: right after the read, the
/// buttons that count as pressed are exactly those of the new key.
pub proof fn lemma_latest_press_wins(s: DebounceView, now: u64, c: char, key: LogicalKey)
    requires
        polls(s, now),
    ensures
        after_tick(s, now, Some(KeyEvent::Printable(c))).pressed == Some(
            KeyState { key: c, press_time: now },
        ),
        is_pressed(after_tick(s, now, Some(KeyEvent::Printable(c))), key) <==> key_mapping(c)
            == Some(key),
{
}

/// The cancel key ends the session and leaves the held key as it was.
pub proof fn lemma_cancel_keeps_key(s: DebounceView, now: u64)
    requires
        polls(s, now),
    ensures
        !tick_continues(s, now, Some(KeyEvent::Special(SCAN_ESCAPE))),
        after_tick(s, now, Some(KeyEvent::Special(SCAN_ESCAPE))).pressed == s.pressed,
{
}

/// While the input queue stays empty, the held key is either still held as
/// it was or has been let go; no other key appears.
pub proof fn lemma_silence_presses_nothing(s: DebounceView, ticks: Seq<(u64, Option<KeyEvent>)>)
    requires
        is_silent(ticks),
    ensures
        after_ticks(s, ticks).pressed == s.pressed || after_ticks(s, ticks).pressed is None,
    decreases ticks.len(),
{
    if ticks.len() > 0 {
        assert(ticks.last().1 is None);
        lemma_silence_presses_nothing(s, ticks.drop_last());
    }
}

/// A key struck at `held.press_time` stays held through every tick that
/// comes less than [`RELEASE_THRESHOLD`] after the stroke, if no other stroke
/// is read.
pub proof fn lemma_key_held_before_threshold(
    s: DebounceView,
    held: KeyState,
    ticks: Seq<(u64, Option<KeyEvent>)>,
)
    requires
        s.pressed == Some(held),
        is_silent(ticks),
        all_within(ticks, held.press_time, RELEASE_THRESHOLD),
    ensures
        after_ticks(s, ticks).pressed == Some(held),
    decreases ticks.len(),
{
    if ticks.len() > 0 {
        assert(ticks.last().1 is None);
        assert(elapsed_between(held.press_time, ticks.last().0) < RELEASE_THRESHOLD);
        lemma_key_held_before_threshold(s, held, ticks.drop_last());
    }
}

/// A key is let go by the first read of an empty queue that comes
/// [`RELEASE_THRESHOLD`] or more after its stroke.
pub proof fn lemma_key_released_at_threshold(s: DebounceView, held: KeyState, now: u64)
    requires
        s.pressed == Some(held),
        polls(s, now),
        elapsed_between(held.press_time, now) >= RELEASE_THRESHOLD,
    ensures
        after_tick(s, now, None).pressed is None,
{
}

/// Press a key and strike nothing after it. Then the key's button is pressed
/// after every run of ticks that stays below the release threshold, and no
/// button is pressed after a run whose last tick reads the queue at or past
/// the threshold.
pub proof fn lemma_press_then_silence(
    s: DebounceView,
    c: char,
    start: u64,
    ticks: Seq<(u64, Option<KeyEvent>)>,
    key: LogicalKey,
)
    requires
        polls(s, start),
        is_silent(ticks),
    ensures
        ({
            let pressed = after_tick(s, start, Some(KeyEvent::Printable(c)));
            let end = after_ticks(pressed, ticks);
            &&& all_within(ticks, start, RELEASE_THRESHOLD) ==> (is_pressed(end, key)
                <==> key_mapping(c) == Some(key))
            &&& ticks.len() > 0 && polls(after_ticks(pressed, ticks.drop_last()), ticks.last().0)
                && elapsed_between(start, ticks.last().0) >= RELEASE_THRESHOLD ==> !is_pressed(
                end,
                key,
            )
        }),
{
    let pressed = after_tick(s, start, Some(KeyEvent::Printable(c)));
    let held = KeyState { key: c, press_time: start };
    if all_within(ticks, start, RELEASE_THRESHOLD) {
        lemma_key_held_before_threshold(pressed, held, ticks);
    }
    if ticks.len() > 0 {
        assert(ticks.last().1 is None);
        assert forall|i: int| 0 <= i < ticks.drop_last().len() implies (#[trigger] ticks.drop_last()[i]).1
            is None by {
            assert(ticks.drop_last()[i] == ticks[i]);
        }
        lemma_silence_presses_nothing(pressed, ticks.drop_last());
    }
}

/// The input queue is read at most once per [`POLL_INTERVAL`]: after a tick
/// at `start` that read it, no tick that comes less than the interval later
/// reads it again, whatever it holds, and the debouncer stays as that read
/// left it.
pub proof fn lemma_poll_once_per_interval(
    s: DebounceView,
    start: u64,
    polled: Option<KeyEvent>,
    ticks: Seq<(u64, Option<KeyEvent>)>,
)
    requires
        polls(s, start),
        all_within(ticks, start, POLL_INTERVAL),
    ensures
        after_ticks(after_tick(s, start, polled), ticks) == after_tick(s, start, polled),
        forall|i: int|
            0 <= i < ticks.len() ==> !polls(
                #[trigger] after_ticks(after_tick(s, start, polled), ticks.take(i)),
                ticks[i].0,
            ),
    decreases ticks.len(),
{
    let first = after_tick(s, start, polled);
    if ticks.len() > 0 {
        let earlier = ticks.drop_last();
        assert forall|i: int| 0 <= i < earlier.len() implies elapsed_between(
            start,
            (#[trigger] earlier[i]).0,
        ) < POLL_INTERVAL by {
            assert(earlier[i] == ticks[i]);
        }
        lemma_poll_once_per_interval(s, start, polled, earlier);
        assert(elapsed_between(start, ticks.last().0) < POLL_INTERVAL);
        assert forall|i: int| 0 <= i < ticks.len() implies !polls(
            #[trigger] after_ticks(first, ticks.take(i)),
            ticks[i].0,
        ) by {
            assert(elapsed_between(start, ticks[i].0) < POLL_INTERVAL);
            if i < earlier.len() {
                assert(ticks.take(i) =~= earlier.take(i));
                assert(earlier[i] == ticks[i]);
            } else {
                assert(ticks.take(i) =~= earlier);
            }
        }
    } else {
        assert forall|i: int| 0 <= i < ticks.len() implies !polls(
            #[trigger] after_ticks(first, ticks.take(i)),
            ticks[i].0,
        ) by {}
    }
}

} // verus!
