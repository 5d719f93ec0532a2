//! Pacing: what the keys of the harness do to the run of the simulation, on
//! which frames the world ticks, and with which scale.
use vstd::prelude::*;

verus! {

/// Highest number of frames per tick.
pub const SLOWEST_RATE: usize = 64;

/// A frame that took this many microseconds or more is not simulated.
pub const STALL_MICROS: u64 = 150_000;

/// Raw tick scale per microsecond: the scale is the time in milliseconds
/// divided by one hundred.
pub const SCALE_PER_MICRO: u64 = 10;

/// A key that the harness reports.
#[derive(Clone, Copy, Debug, PartialEq, Eq, Structural)]
pub enum Key {
    Escape,
    Space,
    P,
    Up,
    Down,
    Other,
}

/// How the simulation runs: one tick every `tick_rate` frames unless paused,
/// and whether the camera follows the particles.
#[derive(Clone, Copy, Debug, PartialEq, Eq, Structural)]
pub struct Pacing {
    pub tick_rate: usize,
    pub paused: bool,
    pub following: bool,
}

impl Pacing {
    /// The frames per tick are a power of two, from one to `SLOWEST_RATE`.
    pub open spec fn wf(self) -> bool {
        ||| self.tick_rate == 1
        ||| self.tick_rate == 2
        ||| self.tick_rate == 4
        ||| self.tick_rate == 8
        ||| self.tick_rate == 16
        ||| self.tick_rate == 32
        ||| self.tick_rate == 64
    }

    /// The pacing after `key` was pressed: space toggles the pause, `P` the
    /// following, up doubles the frames per tick below `SLOWEST_RATE`, down
    /// halves them above one.
    pub open spec fn pressed(self, key: Key) -> Pacing {
        match key {
            Key::Space => Pacing { paused: !self.paused, ..self },
            Key::P => Pacing { following: !self.following, ..self },
            Key::Up => if self.tick_rate < SLOWEST_RATE {
                Pacing { tick_rate: (self.tick_rate * 2) as usize, ..self }
            } else {
                self
            },
            Key::Down => if self.tick_rate > 1 {
                Pacing { tick_rate: self.tick_rate / 2, ..self }
            } else {
                self
            },
            _ => self,
        }
    }

    /// Whether the world ticks on the frame with number `frame`.
    pub open spec fn due_on(self, frame: int) -> bool {
        !self.paused && frame % (self.tick_rate as int) == 0
    }

    /// One tick per frame, running, camera free.
    pub fn new() -> (r: Pacing)
        ensures
            r == (Pacing { tick_rate: 1, paused: false, following: false }),
            r.wf(),
    {
        Pacing { tick_rate: 1, paused: false, following: false }
    }

    /// Applies a key, and tells whether it ends the run.
    pub fn press(&mut self, key: Key) -> (quit: bool)
        ensures
            *final(self) == old(self).pressed(key),
            quit == (key == Key::Escape),
            old(self).wf() ==> final(self).wf(),
    {
        match key {
            Key::Escape => {
                return true;
            },
            Key::Space => {
                self.paused = !self.paused;
            },
            Key::P => {
                self.following = !self.following;
            },
            Key::Up => {
                if self.tick_rate < SLOWEST_RATE {
                    self.tick_rate = self.tick_rate * 2;
                }
            },
            Key::Down => {
                if self.tick_rate > 1 {
                    self.tick_rate = self.tick_rate / 2;
                }
            },
            Key::Other => {},
        }
        false
    }

    /// Tells whether the world ticks on the frame with number `frame`.
    pub fn due(&self, frame: usize) -> (r: bool)
        requires
            self.tick_rate >= 1,
        ensures
            r == self.due_on(frame as int),
    {
        !self.paused && frame % self.tick_rate == 0
    }
}

/// The tick scale for a frame that took `micros` microseconds.
pub open spec fn scale_for(micros: int) -> Option<i64> {
    if micros < STALL_MICROS {
        Some((micros * SCALE_PER_MICRO) as i64)
    } else {
        None
    }
}

/// Computes the tick scale for a frame that took `elapsed_micros`
/// microseconds, or `None` if the frame stalled.
pub fn tick_scale(elapsed_micros: u64) -> (r: Option<i64>)
    ensures
        r == scale_for(elapsed_micros as int),
        r is Some ==> 0 <= r->Some_0 < STALL_MICROS * SCALE_PER_MICRO,
{
    if elapsed_micros < STALL_MICROS {
        Some((elapsed_micros * SCALE_PER_MICRO) as i64)
    } else {
        None
    }
}

} // verus!
