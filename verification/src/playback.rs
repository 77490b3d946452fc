//! Wall-clock pacing of the running simulation. Every speed executes the same
//! complete simulation day; time is counted in nanoseconds.
use crate::interface::Screen;
use crate::session::{ManagementSession, WorkRequest, accepts_actions, stepped};
use vstd::prelude::*;

verus! {

#[derive(Clone, Copy, Debug, PartialEq, Eq, Structural)]
pub enum SimulationSpeed {
    One,
    Two,
    Three,
    Four,
    Five,
}

impl Default for SimulationSpeed {
    fn default() -> (speed: Self)
        ensures
            speed == SimulationSpeed::One,
    {
        SimulationSpeed::One
    }
}

impl SimulationSpeed {
    /// Wall-clock time between simulated days at this speed.
    pub open spec fn spec_nanos_per_day(self) -> u64 {
        match self {
            SimulationSpeed::One => 1_000_000_000,
            SimulationSpeed::Two => 500_000_000,
            SimulationSpeed::Three => 200_000_000,
            SimulationSpeed::Four => 100_000_000,
            SimulationSpeed::Five => 0,
        }
    }

    /// Wall-clock time between simulated days at this speed.
    pub fn nanos_per_day(self) -> (nanos: u64)
        ensures
            nanos == self.spec_nanos_per_day(),
    {
        match self {
            SimulationSpeed::One => 1_000_000_000,
            SimulationSpeed::Two => 500_000_000,
            SimulationSpeed::Three => 200_000_000,
            SimulationSpeed::Four => 100_000_000,
            SimulationSpeed::Five => 0,
        }
    }

    /// All speeds, slowest first.
    pub fn all() -> (speeds: Vec<SimulationSpeed>)
        ensures
            speeds@ == seq![
                SimulationSpeed::One,
                SimulationSpeed::Two,
                SimulationSpeed::Three,
                SimulationSpeed::Four,
                SimulationSpeed::Five,
            ],
    {
        vec![
            SimulationSpeed::One,
            SimulationSpeed::Two,
            SimulationSpeed::Three,
            SimulationSpeed::Four,
            SimulationSpeed::Five,
        ]
    }
}

/// Wall-clock time accumulated towards the next simulated day, and the session
/// and speed it was accumulated for.
pub struct PlaybackClock {
    pub elapsed: u64,
    pub previous: Option<(u128, SimulationSpeed)>,
}

impl PlaybackClock {
    pub fn new() -> (clock: PlaybackClock)
        ensures
            clock.elapsed == 0,
            clock.previous is None,
    {
        PlaybackClock { elapsed: 0, previous: None }
    }
}

/// `a + b`, held at `u64::MAX`.
pub open spec fn saturating_sum(a: u64, b: u64) -> u64 {
    if a + b > u64::MAX {
        u64::MAX
    } else {
        (a + b) as u64
    }
}

/// Whether one rendered frame of `delta` nanoseconds took the session from `old`
/// to `new` and the clock from `old_clock` to `new_clock`, sending `sent`: off the
/// live management screen, while paused or behind the setup dialog, running stops
/// and the count restarts; while the worker is busy the count restarts; once a
/// full day's time has passed, one day is asked for; otherwise the time is counted.
pub open spec fn frame_advanced(
    old: ManagementSession,
    new: ManagementSession,
    old_clock: PlaybackClock,
    new_clock: PlaybackClock,
    screen: Screen,
    setup_open: bool,
    delta: u64,
    sent: Option<WorkRequest>,
) -> bool {
    let carried = if old_clock.previous == Some((old.session_id, old.speed)) {
        old_clock.elapsed
    } else {
        0
    };
    let total = saturating_sum(carried, delta);
    &&& new_clock.previous == Some((old.session_id, old.speed))
    &&& if !accepts_actions(old, screen) || !old.running || setup_open {
        &&& sent is None
        &&& new == ManagementSession { running: false, ..old }
        &&& new_clock.elapsed == 0
    } else if old.pending_jobs != 0 {
        &&& sent is None
        &&& new == old
        &&& new_clock.elapsed == 0
    } else if total >= old.speed.spec_nanos_per_day() {
        &&& stepped(old, new, sent)
        &&& new_clock.elapsed == 0
    } else {
        &&& sent is None
        &&& new == old
        &&& new_clock.elapsed == total
    }
}

/// Time stops off the live management screen and behind the setup dialog, and
/// resumes only by an explicit toggle: a frame that finds the session paused, off
/// screen or behind the dialog asks for nothing, leaves it paused, and changes
/// none of its read models; so every later frame finds it paused too.
pub proof fn lemma_paused_time_stays_paused(
    old: ManagementSession,
    new: ManagementSession,
    old_clock: PlaybackClock,
    new_clock: PlaybackClock,
    screen: Screen,
    setup_open: bool,
    delta: u64,
    sent: Option<WorkRequest>,
)
    requires
        frame_advanced(old, new, old_clock, new_clock, screen, setup_open, delta, sent),
        !old.running || !accepts_actions(old, screen) || setup_open,
    ensures
        sent is None,
        !new.running,
        new.snapshot == old.snapshot,
        new.news == old.news,
        new.pending_jobs == old.pending_jobs,
        new.revision == old.revision,
        new_clock.elapsed == 0,
{
}

impl ManagementSession {
    /// Advances running time by one rendered frame of `delta` nanoseconds.
    /// Changing session or speed restarts the count. Time runs only while
    /// management is live on this screen, the session is running and no setup
    /// dialog is open; otherwise running stops. While the worker is busy the
    /// count restarts, so a slow day causes no catch-up burst: at most one day is
    /// requested per frame, once a full day's time has passed.
    pub fn advance_running(
        &mut self,
        clock: &mut PlaybackClock,
        screen: Screen,
        setup_open: bool,
        delta: u64,
    ) -> (sent: Option<WorkRequest>)
        requires
            old(self).revision < u64::MAX,
        ensures
            frame_advanced(*old(self), *final(self), *old(clock), *final(clock), screen, setup_open, delta, sent),
    {
        let key = (self.session_id, self.speed);
        let same = match clock.previous {
            Some((session, speed)) => session == key.0 && speed == key.1,
            None => false,
        };
        if !same {
            clock.elapsed = 0;
            clock.previous = Some(key);
        }
        let live = screen == Screen::Management || (screen == Screen::WorldMap && self.geographic);
        if !live || !self.running || setup_open {
            if self.running {
                self.running = false;
            }
            clock.elapsed = 0;
            return None;
        }
        clock.elapsed = clock.elapsed.saturating_add(delta);
        if self.is_busy() {
            clock.elapsed = 0;
            return None;
        }
        if clock.elapsed >= self.speed.nanos_per_day() {
            clock.elapsed = 0;
            self.step()
        } else {
            None
        }
    }
}

/// On the world map of a geographic session, running time advances exactly as on
/// the management screen.
pub proof fn lemma_world_map_runs_like_management(
    old: ManagementSession,
    new: ManagementSession,
    old_clock: PlaybackClock,
    new_clock: PlaybackClock,
    setup_open: bool,
    delta: u64,
    sent: Option<WorkRequest>,
)
    requires
        old.geographic,
    ensures
        frame_advanced(old, new, old_clock, new_clock, Screen::WorldMap, setup_open, delta, sent) <==> frame_advanced(
            old,
            new,
            old_clock,
            new_clock,
            Screen::Management,
            setup_open,
            delta,
            sent,
        ),
{
}

/// A frame that completes a day's time while time runs, the worker is idle and
/// no dialog is open, on the management screen or the map of a geographic
/// session, asks for the next day and keeps time running.
pub proof fn lemma_full_day_steps(
    old: ManagementSession,
    new: ManagementSession,
    old_clock: PlaybackClock,
    new_clock: PlaybackClock,
    screen: Screen,
    delta: u64,
    sent: Option<WorkRequest>,
)
    requires
        frame_advanced(old, new, old_clock, new_clock, screen, false, delta, sent),
        screen == Screen::Management || (screen == Screen::WorldMap && old.geographic),
        old.running,
        old.pending_jobs == 0,
        delta >= old.speed.spec_nanos_per_day(),
    ensures
        sent == Some(WorkRequest::Step),
        new.running,
        new_clock.elapsed == 0,
{
}

} // verus!
