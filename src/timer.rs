use vstd::prelude::*;

verus! {

/// The delay and sound timers, counted down at 60 Hz.
#[derive(Debug, PartialEq, Eq, Structural, Clone, Copy)]
pub struct Timers {
    pub delay: u8,
    pub sound: u8,
}

/// One countdown of both timers, stopping at zero.
pub open spec fn tick_spec(t: Timers) -> Timers {
    Timers {
        delay: if t.delay > 0 { (t.delay - 1) as u8 } else { 0 },
        sound: if t.sound > 0 { (t.sound - 1) as u8 } else { 0 },
    }
}

/// The timers after `k` countdowns.
pub open spec fn ticks(t: Timers, k: nat) -> Timers
    decreases k,
{
    if k == 0 {
        t
    } else {
        tick_spec(ticks(t, (k - 1) as nat))
    }
}

/// Both timers at zero.
pub fn make_timers() -> (t: Timers)
    ensures
        t == (Timers { delay: 0, sound: 0 }),
{
    Timers { delay: 0, sound: 0 }
}

impl Timers {
    /// Counts both timers down by one, never below zero.
    pub fn tick(&mut self)
        ensures
            *final(self) == tick_spec(*old(self)),
    {
        if self.delay > 0 {
            self.delay -= 1;
        }
        if self.sound > 0 {
            self.sound -= 1;
        }
    }
}

/// A control signal sent between the driver and the timer loop.
#[derive(Debug, PartialEq, Eq, Structural, Clone, Copy)]
pub enum SystemEvent {
    Pause,
    Resume,
    Exit,
    Save,
}

/// What the timer loop found on its control channel at one tick.
#[derive(Debug, PartialEq, Eq, Structural, Clone, Copy)]
pub enum TimerInput {
    Signal(SystemEvent),
    Empty,
    Disconnected,
}

/// Whether the timer loop stops on this input.
pub open spec fn stops_on(input: TimerInput) -> bool {
    input == TimerInput::Signal(SystemEvent::Exit) || input == TimerInput::Disconnected
}

/// Whether the timer loop is paused after taking this input.
pub open spec fn paused_after(paused: bool, input: TimerInput) -> bool {
    if input == TimerInput::Signal(SystemEvent::Pause) {
        true
    } else if input == TimerInput::Signal(SystemEvent::Resume) {
        false
    } else {
        paused
    }
}

/// The decisions of the timer loop: whether it is paused.
#[derive(Debug)]
pub struct TimerTicker {
    paused: bool,
}

/// A timer loop that is running and not paused.
pub fn make_timer_ticker() -> (r: TimerTicker)
    ensures
        !r.is_paused_spec(),
{
    TimerTicker { paused: false }
}

impl TimerTicker {
    pub closed spec fn is_paused_spec(&self) -> bool {
        self.paused
    }

    pub fn is_paused(&self) -> (r: bool)
        ensures
            r == self.is_paused_spec(),
    {
        self.paused
    }

    /// One tick of the timer loop: takes what arrived on the control
    /// channel, then counts the timers down unless paused. Returns whether
    /// the loop goes on; on `Exit` or a closed channel it stops at once.
    pub fn on_tick(&mut self, input: TimerInput, timers: &mut Timers) -> (running: bool)
        ensures
            running == !stops_on(input),
            final(self).is_paused_spec() == (if stops_on(input) {
                old(self).is_paused_spec()
            } else {
                paused_after(old(self).is_paused_spec(), input)
            }),
            *final(timers) == (if stops_on(input) || paused_after(old(self).is_paused_spec(), input) {
                *old(timers)
            } else {
                tick_spec(*old(timers))
            }),
    {
        match input {
            TimerInput::Signal(SystemEvent::Exit) | TimerInput::Disconnected => {
                return false;
            },
            TimerInput::Signal(SystemEvent::Pause) => {
                self.paused = true;
            },
            TimerInput::Signal(SystemEvent::Resume) => {
                self.paused = false;
            },
            _ => {},
        }
        if !self.paused {
            timers.tick();
        }
        true
    }
}

/// After `k` countdowns the delay timer reads `delay - k`, and zero once
/// `k` reaches the starting value; it never wraps below zero. The sound
/// timer behaves the same.
pub proof fn lemma_timer_decay(t: Timers, k: nat)
    ensures
        ticks(t, k).delay == (if k >= t.delay { 0 } else { t.delay - k }),
        ticks(t, k).sound == (if k >= t.sound { 0 } else { t.sound - k }),
    decreases k,
{
    if k > 0 {
        lemma_timer_decay(t, (k - 1) as nat);
    }
}

} // verus!
