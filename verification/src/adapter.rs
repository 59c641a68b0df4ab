//! The adapter: what the emulator core sees of the machine.
//!
//! The core calls the adapter once per step and for every key query, line of
//! picture and byte of cartridge memory. The adapter answers from its own
//! state. A scheduler tick needs two things from the firmware, the time and,
//! when the input queue is due, one read of that queue; the caller fetches
//! both and passes them to [`Adapter::sched`], which returns what is to be
//! done on the machine afterwards as a [`TickPlan`].

use vstd::prelude::*;
use crate::frame::{
    after_flush, can_composite, cleared, flushes, initial_compositor, scanline_error,
    with_scanline, CompositorView, FrameCompositor, FrameError, Resolution, REFRESH_INTERVAL,
};
use crate::input::{
    after_tick, all_within, is_pressed, polls, tick_continues, DebounceView, InputDebouncer,
    KeyEvent, LogicalKey, POLL_INTERVAL,
};
use crate::power::{action_at, stage_after, PowerAction, PowerSequencer, PowerStage};
use crate::time::elapsed_between;

verus! {

/// The byte that fills cartridge memory that was never saved.
pub const RAM_FILLER: u8 = 9;

/// What the caller is to do after a scheduler tick, in this order: copy the
/// surface to the screen if `present` is set, wait for `stall` microseconds
/// if there is a stall, and return `proceed` to the core.
#[derive(Clone, Copy, Debug, PartialEq, Eq, Structural)]
pub struct TickPlan {
    pub proceed: bool,
    pub present: bool,
    pub stall: Option<u64>,
}

/// An adapter as a value.
pub struct AdapterView {
    pub input: DebounceView,
    pub video: CompositorView,
    /// The wait that ends every tick, if the core is paced.
    pub pacing: Option<u64>,
    /// Whether a tick has asked to stop.
    pub stopped: bool,
    pub power: PowerStage,
}

/// The adapter's state: debouncer, compositor, pacing, and how far the
/// session has come.
pub struct Adapter {
    input: InputDebouncer,
    video: FrameCompositor,
    pacing: Option<u64>,
    stopped: bool,
    power: PowerSequencer,
}

/// The adapter as it is made: no key held, the compositor as it is made, and
/// the session running.
pub open spec fn initial_adapter(
    width: usize,
    height: usize,
    res: Resolution,
    pacing: Option<u64>,
) -> AdapterView {
    AdapterView {
        input: DebounceView { pressed: None, last_poll: 0 },
        video: initial_compositor(width, height, res),
        pacing,
        stopped: false,
        power: PowerStage::Armed,
    }
}

/// The plan of a tick that ends the session, and of every tick after it.
pub open spec fn stop_plan() -> TickPlan {
    TickPlan { proceed: false, present: false, stall: None }
}

/// The plan of a tick at `now`. `polled` is what the input queue gave; it
/// counts only when the queue was due.
pub open spec fn sched_plan(a: AdapterView, now: u64, polled: Option<KeyEvent>) -> TickPlan {
    if a.stopped || !tick_continues(a.input, now, polled) {
        stop_plan()
    } else {
        TickPlan { proceed: true, present: flushes(a.video, now), stall: a.pacing }
    }
}

/// The adapter after a tick at `now`: input first; if that asks to stop,
/// nothing else; otherwise the flush.
pub open spec fn after_sched(a: AdapterView, now: u64, polled: Option<KeyEvent>) -> AdapterView {
    if a.stopped {
        a
    } else if !tick_continues(a.input, now, polled) {
        AdapterView { input: after_tick(a.input, now, polled), stopped: true, ..a }
    } else {
        AdapterView {
            input: after_tick(a.input, now, polled),
            video: after_flush(a.video, now),
            ..a
        }
    }
}

/// The adapter after a step of the shutdown sequence: the session is over,
/// and the first step clears the surface.
pub open spec fn after_shutdown_step(a: AdapterView) -> AdapterView {
    AdapterView {
        video: if a.power == PowerStage::Armed {
            CompositorView { surface: cleared(a.video.surface), ..a.video }
        } else {
            a.video
        },
        stopped: true,
        power: stage_after(a.power),
        ..a
    }
}

impl View for Adapter {
    type V = AdapterView;

    closed spec fn view(&self) -> AdapterView {
        AdapterView {
            input: self.input@,
            video: self.video@,
            pacing: self.pacing,
            stopped: self.stopped,
            power: self.power@,
        }
    }
}

impl Adapter {
    /// An adapter for a core whose picture is `width` by `height` cells, on a
    /// surface of resolution `res`. `pacing` is the wait that ends each tick,
    /// or `None` for a core that runs unthrottled. No key is held, the frame
    /// is black, the surface is white, and the session runs. There is no
    /// adapter where there is no compositor, see [`FrameCompositor::new`].
    pub fn new(width: usize, height: usize, res: Resolution, pacing: Option<u64>) -> (made: Option<
        Self,
    >)
        ensures
            made is Some <==> can_composite(width, height, res),
            made is Some ==> made->Some_0@ == initial_adapter(width, height, res, pacing)
                && made->Some_0@.video.wf(),
    {
        match FrameCompositor::new(width, height, res) {
            Some(video) => {
                Some(
                    Adapter {
                        input: InputDebouncer::new(),
                        video,
                        pacing,
                        stopped: false,
                        power: PowerSequencer::new(),
                    },
                )
            },
            None => None,
        }
    }

    /// Whether the session has been asked to stop.
    pub fn is_stopped(&self) -> (stopped: bool)
        ensures
            stopped == self@.stopped,
    {
        self.stopped
    }

    /// Whether a tick at `now` is to be given a fresh read of the input
    /// queue. A stopped session reads no input.
    pub fn input_due(&self, now: u64) -> (b: bool)
        ensures
            b == (!self@.stopped && polls(self@.input, now)),
    {
        !self.stopped && self.input.poll_due(now)
    }

    /// One scheduler tick at time `now`. When [`Adapter::input_due`] said so,
    /// `polled` is what the read of the input queue gave; otherwise it is
    /// ignored. The debouncer runs first. If it reads the cancel key the
    /// session is stopped and nothing else is done. Otherwise the surface is
    /// redrawn if a redraw is due. Once the session is stopped every tick
    /// returns the stop plan and changes nothing.
    pub fn sched(&mut self, now: u64, polled: Option<KeyEvent>) -> (plan: TickPlan)
        ensures
            plan == sched_plan(old(self)@, now, polled),
            final(self)@ == after_sched(old(self)@, now, polled),
            old(self)@.video.wf() ==> final(self)@.video.wf(),
    {
        if self.stopped {
            return TickPlan { proceed: false, present: false, stall: None };
        }
        if !self.input.tick(now, polled) {
            self.stopped = true;
            return TickPlan { proceed: false, present: false, stall: None };
        }
        let present = self.video.flush(now);
        TickPlan { proceed: true, present, stall: self.pacing }
    }

    /// Whether the joypad button `key` is held down.
    pub fn joypad_pressed(&self, key: LogicalKey) -> (b: bool)
        ensures
            b == is_pressed(self@.input, key),
    {
        self.input.joypad_pressed(key)
    }

    /// Takes one line of picture from the core; see
    /// [`FrameCompositor::write_scanline`].
    pub fn vram_update(&mut self, line: usize, row: &[u32]) -> (done: Result<(), FrameError>)
        ensures
            match done {
                Ok(()) => scanline_error(old(self)@.video.frame, line as int, row@.len() as int)
                    is None && final(self)@ == (AdapterView {
                    video: CompositorView {
                        frame: with_scanline(old(self)@.video.frame, line as int, row@),
                        ..old(self)@.video
                    },
                    ..old(self)@
                }),
                Err(e) => scanline_error(old(self)@.video.frame, line as int, row@.len() as int)
                    == Some(e) && final(self)@ == old(self)@,
            },
            old(self)@.video.wf() ==> final(self)@.video.wf(),
    {
        self.video.write_scanline(line, row)
    }

    /// Cartridge memory of `size` bytes. Nothing is ever saved, so every
    /// byte is [`RAM_FILLER`].
    pub fn load_ram(&self, size: usize) -> (ram: Vec<u8>)
        requires
            size <= isize::MAX,
        ensures
            ram@ == Seq::new(size as nat, |i: int| RAM_FILLER),
    {
        let ram = vec![RAM_FILLER; size];
        assert(ram@ =~= Seq::new(size as nat, |i: int| RAM_FILLER));
        ram
    }

    /// Takes cartridge memory to be saved, and drops it.
    pub fn save_ram(&mut self, ram: &[u8])
        ensures
            final(self)@ == old(self)@,
    {
    }

    /// Takes a byte for the serial link, and drops it.
    pub fn send_byte(&mut self, byte: u8)
        ensures
            final(self)@ == old(self)@,
    {
    }

    /// A byte from the serial link. There never is one.
    pub fn recv_byte(&mut self) -> (byte: Option<u8>)
        ensures
            byte is None,
            final(self)@ == old(self)@,
    {
        None
    }

    /// The debouncer, for the key that is held.
    pub fn input(&self) -> (input: &InputDebouncer)
        ensures
            input@ == self@.input,
    {
        &self.input
    }

    /// The compositor, for the surface that is to be copied to the screen.
    pub fn video(&self) -> (video: &FrameCompositor)
        ensures
            video@ == self@.video,
    {
        &self.video
    }

    /// Takes the next step of the shutdown sequence and says what the caller
    /// is to do on the machine. The first step ends the session and clears
    /// the surface.
    pub fn shutdown_step(&mut self) -> (action: PowerAction)
        ensures
            action == action_at(old(self)@.power),
            final(self)@ == after_shutdown_step(old(self)@),
            old(self)@.video.wf() ==> final(self)@.video.wf(),
    {
        self.stopped = true;
        let action = self.power.step();
        if action == PowerAction::ClearSurface {
            self.video.clear();
        }
        action
    }
}

/// The adapter after a run of ticks, each given as its time and what the
/// input queue held for it.
pub open spec fn after_scheds(a: AdapterView, ticks: Seq<(u64, Option<KeyEvent>)>) -> AdapterView
    decreases ticks.len(),
{
    if ticks.len() == 0 {
        a
    } else {
        after_sched(after_scheds(a, ticks.drop_last()), ticks.last().0, ticks.last().1)
    }
}

/// The plan that tick `i` of a run returns.
pub open spec fn plan_at(a: AdapterView, ticks: Seq<(u64, Option<KeyEvent>)>, i: int) -> TickPlan {
    sched_plan(after_scheds(a, ticks.take(i)), ticks[i].0, ticks[i].1)
}

/// A tick refuses to proceed exactly when it leaves the session stopped.
pub proof fn lemma_stop_latches(a: AdapterView, now: u64, polled: Option<KeyEvent>)
    ensures
        sched_plan(a, now, polled).proceed <==> !after_sched(a, now, polled).stopped,
        !sched_plan(a, now, polled).proceed ==> sched_plan(a, now, polled) == stop_plan(),
{
}

/// In a stopped session a tick does nothing and refuses to proceed.
pub proof fn lemma_stopped_tick_does_nothing(a: AdapterView, now: u64, polled: Option<KeyEvent>)
    requires
        a.stopped,
    ensures
        sched_plan(a, now, polled) == stop_plan(),
        after_sched(a, now, polled) == a,
{
}

/// Stopping is final. Once a tick of a run has refused to proceed, the
/// session is stopped before every later tick, so that no later tick stops
/// it again; every later tick refuses to proceed; and the adapter stays as
/// the refusing tick left it.
pub proof fn lemma_stop_is_terminal(
    a: AdapterView,
    ticks: Seq<(u64, Option<KeyEvent>)>,
    i: int,
    j: int,
)
    requires
        0 <= i < j < ticks.len(),
        !plan_at(a, ticks, i).proceed,
    ensures
        after_scheds(a, ticks.take(j)).stopped,
        !plan_at(a, ticks, j).proceed,
        after_scheds(a, ticks.take(j + 1)) == after_scheds(a, ticks.take(i + 1)),
    decreases j - i,
{
    let before = after_scheds(a, ticks.take(j));
    assert(ticks.take(j).drop_last() =~= ticks.take(j - 1));
    assert(ticks.take(j).last() == ticks[j - 1]);
    assert(ticks.take(j + 1).drop_last() =~= ticks.take(j));
    assert(ticks.take(j + 1).last() == ticks[j]);
    if j == i + 1 {
        lemma_stop_latches(after_scheds(a, ticks.take(i)), ticks[i].0, ticks[i].1);
    } else {
        lemma_stop_is_terminal(a, ticks, i, j - 1);
    }
}

/// The input queue is read at most once per [`POLL_INTERVAL`]: after a tick
/// at `start` that read it, no tick that comes less than the interval later
/// asks for another read, and the debouncer stays as that read left it.
pub proof fn lemma_input_read_once_per_interval(
    a: AdapterView,
    start: u64,
    polled: Option<KeyEvent>,
    ticks: Seq<(u64, Option<KeyEvent>)>,
)
    requires
        !a.stopped,
        polls(a.input, start),
        all_within(ticks, start, POLL_INTERVAL),
    ensures
        after_scheds(after_sched(a, start, polled), ticks).input == after_sched(
            a,
            start,
            polled,
        ).input,
        forall|i: int|
            0 <= i < ticks.len() ==> !polls(
                (#[trigger] after_scheds(after_sched(a, start, polled), ticks.take(i))).input,
                ticks[i].0,
            ),
    decreases ticks.len(),
{
    let first = after_sched(a, start, polled);
    if ticks.len() > 0 {
        let earlier = ticks.drop_last();
        assert forall|i: int| 0 <= i < earlier.len() implies elapsed_between(
            start,
            (#[trigger] earlier[i]).0,
        ) < POLL_INTERVAL by {
            assert(earlier[i] == ticks[i]);
        }
        lemma_input_read_once_per_interval(a, start, polled, earlier);
        assert(elapsed_between(start, ticks.last().0) < POLL_INTERVAL);
        assert forall|i: int| 0 <= i < ticks.len() implies !polls(
            (#[trigger] after_scheds(first, ticks.take(i))).input,
            ticks[i].0,
        ) by {
            assert(elapsed_between(start, ticks[i].0) < POLL_INTERVAL);
            if i < earlier.len() {
                assert(ticks.take(i) =~= earlier.take(i));
            } else {
                assert(ticks.take(i) =~= earlier);
            }
        }
    } else {
        assert forall|i: int| 0 <= i < ticks.len() implies !polls(
            (#[trigger] after_scheds(first, ticks.take(i))).input,
            ticks[i].0,
        ) by {}
    }
}

/// The surface is redrawn at most once per [`REFRESH_INTERVAL`]: after a
/// tick at `start` that redrew it, no tick that comes less than the interval
/// later redraws it or asks to show it, and the compositor stays as it was
/// left.
pub proof fn lemma_surface_drawn_once_per_interval(
    a: AdapterView,
    start: u64,
    polled: Option<KeyEvent>,
    ticks: Seq<(u64, Option<KeyEvent>)>,
)
    requires
        sched_plan(a, start, polled).present,
        all_within(ticks, start, REFRESH_INTERVAL),
    ensures
        after_scheds(after_sched(a, start, polled), ticks).video == after_sched(
            a,
            start,
            polled,
        ).video,
        forall|i: int|
            0 <= i < ticks.len() ==> !(#[trigger] plan_at(
                after_sched(a, start, polled),
                ticks,
                i,
            )).present,
    decreases ticks.len(),
{
    let first = after_sched(a, start, polled);
    if ticks.len() > 0 {
        let earlier = ticks.drop_last();
        assert forall|i: int| 0 <= i < earlier.len() implies elapsed_between(
            start,
            (#[trigger] earlier[i]).0,
        ) < REFRESH_INTERVAL by {
            assert(earlier[i] == ticks[i]);
        }
        lemma_surface_drawn_once_per_interval(a, start, polled, earlier);
        assert(elapsed_between(start, ticks.last().0) < REFRESH_INTERVAL);
        assert forall|i: int| 0 <= i < ticks.len() implies !(#[trigger] plan_at(
            first,
            ticks,
            i,
        )).present by {
            assert(elapsed_between(start, ticks[i].0) < REFRESH_INTERVAL);
            if i < earlier.len() {
                assert(ticks.take(i) =~= earlier.take(i));
                assert(after_scheds(first, earlier.take(i)).video == first.video) by {
                    assert forall|k: int| 0 <= k < earlier.take(i).len() implies elapsed_between(
                        start,
                        (#[trigger] earlier.take(i)[k]).0,
                    ) < REFRESH_INTERVAL by {
                        assert(earlier.take(i)[k] == ticks[k]);
                    }
                    lemma_surface_drawn_once_per_interval(a, start, polled, earlier.take(i));
                }
            } else {
                assert(ticks.take(i) =~= earlier);
            }
        }
    } else {
        assert forall|i: int| 0 <= i < ticks.len() implies !(#[trigger] plan_at(
            first,
            ticks,
            i,
        )).present by {}
    }
}

} // verus!
