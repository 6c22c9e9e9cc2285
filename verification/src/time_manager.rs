//! The virtual clock: a monotonically advancing time source decoupled from
//! wall-clock time, with adjustable speed, pause, resume and reset.
//!
//! The driving loop measures the real elapsed milliseconds between two ticks
//! and hands them to [`TimeManager::update`], which scales them by the current
//! speed and accumulates the result. Speed is a per-mille multiplier
//! (1000 = real time, 0 = paused), so the whole clock works on integers.

use vstd::prelude::*;

verus! {

/// Per-mille speed multiplier meaning "real time" (1.0x).
pub const NORMAL_SPEED_PERMILLE: u32 = 1000;

/// `a + b`, stopping at `u64::MAX` instead of wrapping.
pub open spec fn sat_add64(a: u64, b: u64) -> u64 {
    if a + b > u64::MAX {
        u64::MAX
    } else {
        (a + b) as u64
    }
}

/// The virtual delta produced by `real_delta_ms` real milliseconds at speed
/// `permille`/1000, truncated toward zero and saturated at `u64::MAX`.
pub open spec fn scaled_delta(real_delta_ms: u64, permille: u32) -> u64 {
    if (real_delta_ms * permille) / 1000 > u64::MAX {
        u64::MAX
    } else {
        ((real_delta_ms * permille) / 1000) as u64
    }
}

/// A point on the virtual time line: milliseconds since the clock was last
/// reset. Strictly ordered and additive.
#[derive(Clone, Copy, PartialEq, Eq, Structural, Debug)]
pub struct VirtualInstant {
    pub millis: u64,
}

impl VirtualInstant {
    /// The origin of the virtual time line.
    pub fn zero() -> (r: Self)
        ensures
            r.millis == 0,
    {
        VirtualInstant { millis: 0 }
    }

    /// This instant shifted `delta_ms` virtual milliseconds into the future,
    /// saturating at the end of the representable time line.
    pub fn plus_millis(self, delta_ms: u64) -> (r: Self)
        ensures
            r.millis == sat_add64(self.millis, delta_ms),
    {
        if self.millis > u64::MAX - delta_ms {
            VirtualInstant { millis: u64::MAX }
        } else {
            VirtualInstant { millis: self.millis + delta_ms }
        }
    }

    /// Strict order on the virtual time line.
    pub fn is_before(self, other: Self) -> (r: bool)
        ensures
            r == (self.millis < other.millis),
    {
        self.millis < other.millis
    }
}

/// A time manager that provides independent time control for the simulation:
/// speeding up, slowing down, pausing and resetting, while virtual time never
/// runs backwards.
#[derive(Clone, Debug)]
pub struct TimeManager {
    /// Virtual time accumulated since construction or the last reset.
    pub virtual_now: VirtualInstant,
    /// The virtual delta of the most recent `update`, used by consumers to
    /// scale per-tick motion.
    pub last_virtual_delta_ms: u64,
    /// Speed multiplier in per-mille (1000 = real time, 0 = paused).
    pub speed_permille: u32,
    /// The speed that `resume` restores; the last speed set to a value above
    /// zero.
    pub resume_permille: u32,
}

impl TimeManager {
    /// A fresh clock at virtual time zero running at real-time speed.
    pub fn new() -> (r: Self)
        ensures
            r.virtual_now.millis == 0,
            r.last_virtual_delta_ms == 0,
            r.speed_permille == NORMAL_SPEED_PERMILLE,
            r.resume_permille == NORMAL_SPEED_PERMILLE,
    {
        TimeManager {
            virtual_now: VirtualInstant { millis: 0 },
            last_virtual_delta_ms: 0,
            speed_permille: NORMAL_SPEED_PERMILLE,
            resume_permille: NORMAL_SPEED_PERMILLE,
        }
    }

    /// Snapshot of the accumulated virtual time.
    pub fn now(&self) -> (r: VirtualInstant)
        ensures
            r == self.virtual_now,
    {
        self.virtual_now
    }

    /// The virtual delta of the most recent `update`.
    pub fn last_virtual_delta(&self) -> (r: u64)
        ensures
            r == self.last_virtual_delta_ms,
    {
        self.last_virtual_delta_ms
    }

    /// Advance virtual time by `real_delta_ms` real milliseconds scaled by
    /// the current speed. Virtual time never decreases, whatever the speed;
    /// with speed zero it stands still.
    pub fn update(&mut self, real_delta_ms: u64)
        ensures
            final(self).speed_permille == old(self).speed_permille,
            final(self).resume_permille == old(self).resume_permille,
            final(self).last_virtual_delta_ms == scaled_delta(
                real_delta_ms,
                old(self).speed_permille,
            ),
            final(self).virtual_now.millis == sat_add64(
                old(self).virtual_now.millis,
                final(self).last_virtual_delta_ms,
            ),
            final(self).virtual_now.millis >= old(self).virtual_now.millis,
            old(self).speed_permille == 0 ==> final(self).virtual_now == old(self).virtual_now,
    {
        assert((real_delta_ms as int) * (self.speed_permille as int) <= (u64::MAX as int) * (
        u32::MAX as int)) by (nonlinear_arith)
            requires
                real_delta_ms <= u64::MAX,
                self.speed_permille <= u32::MAX,
        ;
        let product: u128 = (real_delta_ms as u128) * (self.speed_permille as u128);
        let scaled: u128 = product / 1000;
        let virtual_delta: u64 = if scaled > u64::MAX as u128 {
            u64::MAX
        } else {
            scaled as u64
        };
        self.last_virtual_delta_ms = virtual_delta;
        self.virtual_now = self.virtual_now.plus_millis(virtual_delta);
    }

    /// Set the speed multiplier in per-mille. Takes effect on the next
    /// `update`; already-accumulated time is never rescaled. A positive
    /// speed is also remembered as the speed that `resume` restores.
    pub fn set_speed(&mut self, permille: u32)
        ensures
            final(self).speed_permille == permille,
            final(self).resume_permille == if permille > 0 {
                permille
            } else {
                old(self).resume_permille
            },
            final(self).virtual_now == old(self).virtual_now,
            final(self).last_virtual_delta_ms == old(self).last_virtual_delta_ms,
    {
        self.speed_permille = permille;
        if permille > 0 {
            self.resume_permille = permille;
        }
    }

    /// The current speed multiplier in per-mille.
    pub fn speed(&self) -> (r: u32)
        ensures
            r == self.speed_permille,
    {
        self.speed_permille
    }

    /// Drive the speed to zero. Waiting deadlines and motion freeze together,
    /// because both compare against the shared virtual time.
    pub fn pause(&mut self)
        ensures
            final(self).speed_permille == 0,
            final(self).resume_permille == old(self).resume_permille,
            final(self).virtual_now == old(self).virtual_now,
            final(self).last_virtual_delta_ms == old(self).last_virtual_delta_ms,
    {
        self.speed_permille = 0;
    }

    /// Restore the last positive speed that was set.
    pub fn resume(&mut self)
        ensures
            final(self).speed_permille == old(self).resume_permille,
            final(self).resume_permille == old(self).resume_permille,
            final(self).virtual_now == old(self).virtual_now,
            final(self).last_virtual_delta_ms == old(self).last_virtual_delta_ms,
    {
        self.speed_permille = self.resume_permille;
    }

    /// Zero the accumulated virtual time without affecting the speed; used
    /// when a new scenario begins so no item carries over a stale deadline.
    pub fn reset(&mut self)
        ensures
            final(self).virtual_now.millis == 0,
            final(self).last_virtual_delta_ms == 0,
            final(self).speed_permille == old(self).speed_permille,
            final(self).resume_permille == old(self).resume_permille,
    {
        self.virtual_now = VirtualInstant { millis: 0 };
        self.last_virtual_delta_ms = 0;
    }

    /// The accumulated virtual time split into whole minutes, the seconds
    /// within the minute, and the milliseconds within the second, for a
    /// status display to format.
    pub fn time_components(&self) -> (r: (u64, u64, u64))
        ensures
            r.0 == self.virtual_now.millis / 60000,
            r.1 == (self.virtual_now.millis / 1000) % 60,
            r.2 == self.virtual_now.millis % 1000,
    {
        let ms = self.virtual_now.millis;
        (ms / 60000, (ms / 1000) % 60, ms % 1000)
    }
}

} // verus!
