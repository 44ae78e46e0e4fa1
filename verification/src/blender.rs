//! A blender and the window of time in which it is taken.

use vstd::prelude::*;
use crate::error::StoreError;
use crate::order::{blend_time, Object};

verus! {

/// A blender: its speed, and the window it was last committed to, as the
/// instant the blend started and how long it takes. Whether the blender is
/// taken is never stored; it is read off the window and the time of asking.
#[derive(Clone, Copy, Debug, PartialEq, Eq)]
pub struct Blender {
    pub speed: u32,
    pub state: Option<(u64, u128)>,
}

/// What a blender is doing at some instant.
#[derive(Clone, Copy, Debug, PartialEq, Eq)]
pub enum BlenderStatus {
    /// Free to take an order.
    Idle,
    /// Blending, with this much time to go.
    Busy(u128),
}

/// Whether a window, given as its start and its length, still runs at the
/// instant `now`: it has some length, and less time than that has gone by
/// since the start. An instant before the start counts as the start.
pub open spec fn window_runs(window: (u64, u128), now: int) -> bool {
    window.1 > 0 && now - window.0 < window.1
}

impl Blender {
    /// Whether a window of some length is recorded. A window of length zero
    /// counts as none.
    pub open spec fn has_window(&self) -> bool {
        match self.state {
            Some((_, duration)) => duration > 0,
            None => false,
        }
    }

    /// Whether the blender is taken at the instant `now`: a window is recorded
    /// and still runs.
    pub open spec fn busy_at(&self, now: int) -> bool {
        match self.state {
            Some(window) => window_runs(window, now),
            None => false,
        }
    }

    /// The time left of the window at the instant `now`, for a blender that is
    /// taken then. An instant before the start counts as the start.
    pub open spec fn remaining_at(&self, now: int) -> int {
        match self.state {
            Some((started_at, duration)) => if now <= started_at {
                duration as int
            } else {
                duration - (now - started_at)
            },
            None => 0,
        }
    }

    /// Idle, or busy with the time that is left, at the instant `now`.
    pub open spec fn status_at(&self, now: int) -> BlenderStatus {
        if self.busy_at(now) {
            BlenderStatus::Busy(self.remaining_at(now) as u128)
        } else {
            BlenderStatus::Idle
        }
    }

    /// The blender as `clean` leaves it: a recorded window is dropped, and a
    /// blender without one stays as it is.
    pub open spec fn cleaned(&self) -> Blender {
        if self.has_window() {
            Blender { speed: self.speed, state: None }
        } else {
            *self
        }
    }

    /// The blender as `start_blend` leaves it when it starts on `objects` at
    /// the instant `now`.
    pub open spec fn started(&self, objects: Seq<Object>, now: u64) -> Blender {
        Blender {
            speed: self.speed,
            state: Some((now, blend_time(objects, self.speed as int) as u128)),
        }
    }

    /// A blender of the given speed that has never been used.
    pub fn new(speed: u32) -> (blender: Blender)
        ensures
            blender.speed == speed,
            blender.state is None,
    {
        Blender { speed, state: None }
    }

    /// Whether the blender is taken at the instant `now`.
    pub fn is_active(&self, now: u64) -> (active: bool)
        ensures
            active == self.busy_at(now as int),
    {
        match self.state {
            Some((started_at, duration)) => {
                if duration == 0 {
                    false
                } else if now <= started_at {
                    true
                } else {
                    ((now - started_at) as u128) < duration
                }
            },
            None => false,
        }
    }

    /// Idle, or busy with the time that is left, at the instant `now`.
    pub fn status(&self, now: u64) -> (status: BlenderStatus)
        ensures
            status == self.status_at(now as int),
    {
        match self.state {
            Some((started_at, duration)) => {
                if duration == 0 {
                    BlenderStatus::Idle
                } else if now <= started_at {
                    BlenderStatus::Busy(duration)
                } else {
                    let elapsed: u128 = (now - started_at) as u128;
                    if elapsed < duration {
                        BlenderStatus::Busy(duration - elapsed)
                    } else {
                        BlenderStatus::Idle
                    }
                }
            },
            None => BlenderStatus::Idle,
        }
    }

    /// Commits the blender to `objects` from the instant `now` on, and returns
    /// how long the blend takes. A blender of speed zero cannot blend: the
    /// error says so and the blender stays as it was.
    ///
    /// The blender must be free at `now`: a window still running would be
    /// overwritten and the rest of its time lost.
    pub fn start_blend(&mut self, objects: &Vec<Object>, now: u64) -> (outcome: Result<
        u128,
        StoreError,
    >)
        requires
            !old(self).busy_at(now as int),
        ensures
            old(self).speed == 0 ==> outcome == Err::<u128, StoreError>(
                StoreError::InvalidCapacity,
            ) && *final(self) == *old(self),
            old(self).speed != 0 ==> outcome is Ok && outcome->Ok_0 == blend_time(
                objects@,
                old(self).speed as int,
            ) && *final(self) == old(self).started(objects@, now),
    {
        if self.speed == 0 {
            return Err(StoreError::InvalidCapacity);
        }
        let time_to_blend: u128 = total_blend_time(objects, self.speed);
        self.state = Some((now, time_to_blend));
        Ok(time_to_blend)
    }

    /// Drops a recorded window. A blender without one is left untouched.
    pub fn clean(&mut self)
        ensures
            *final(self) == old(self).cleaned(),
    {
        let recorded: bool = match self.state {
            Some((_, duration)) => duration != 0,
            None => false,
        };
        if recorded {
            self.state = None;
        }
    }
}

/// A blender whose window starts at `started_at` and lasts `duration` is taken
/// at every instant from the start up to, and not including, the end of the
/// window, and free at every instant from the end on, however late.
pub proof fn lemma_busy_exactly_within_window(
    blender: Blender,
    started_at: u64,
    duration: u128,
    now: int,
)
    requires
        blender.state == Some((started_at, duration)),
    ensures
        started_at <= now < started_at + duration ==> blender.busy_at(now),
        now >= started_at + duration ==> !blender.busy_at(now),
{
}

/// Cleaning twice is cleaning once, and cleaning a blender that has no window
/// changes nothing.
pub proof fn lemma_clean_is_idempotent(blender: Blender)
    ensures
        blender.cleaned().cleaned() == blender.cleaned(),
        !blender.has_window() ==> blender.cleaned() == blender,
        !blender.cleaned().has_window(),
{
}

/// The time a blender of speed `speed` spends on `objects`. The sum is kept in
/// 128 bits: each term fits in 32, and no vector is long enough to overflow it.
pub fn total_blend_time(objects: &Vec<Object>, speed: u32) -> (total: u128)
    requires
        speed != 0,
    ensures
        total == blend_time(objects@, speed as int),
{
    let mut total: u128 = 0;
    let mut i: usize = 0;
    while i < objects.len()
        invariant
            speed != 0,
            i <= objects@.len(),
            total == blend_time(objects@.take(i as int), speed as int),
            total <= i * 0xFFFF_FFFF,
        decreases objects@.len() - i,
    {
        let share: u32 = objects[i].blend_ms_per_w / speed;
        proof {
            assert(objects@.take(i + 1).drop_last() == objects@.take(i as int));
            assert(objects@.take(i + 1).last() == objects@[i as int]);
        }
        total = total + share as u128;
        i = i + 1;
    }
    proof {
        assert(objects@.take(i as int) == objects@);
    }
    total
}

} // verus!
