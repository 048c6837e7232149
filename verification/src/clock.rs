//! Moments in time, counted from the Unix epoch.
use vstd::prelude::*;

verus! {

/// A moment: whole seconds since the Unix epoch, and nanoseconds on top of them.
#[derive(Debug, Clone, Copy, PartialEq, Eq, Structural)]
pub struct Timestamp {
    pub secs: i64,
    pub nanos: u32,
}

/// A span of three days, in nanoseconds.
pub const THREE_DAYS_NANOS: i128 = 259_200_000_000_000;

impl Timestamp {
    /// The moment in nanoseconds since the epoch.
    pub open spec fn total_nanos(self) -> int {
        self.secs * 1_000_000_000 + self.nanos
    }

    /// The nanoseconds from `earlier` to this moment; negative if it comes first.
    pub fn nanos_since(&self, earlier: &Timestamp) -> (span: i128)
        ensures
            span == self.total_nanos() - earlier.total_nanos(),
    {
        let here: i128 = self.secs as i128 * 1_000_000_000 + self.nanos as i128;
        let there: i128 = earlier.secs as i128 * 1_000_000_000 + earlier.nanos as i128;
        here - there
    }

    /// The whole seconds from `earlier` to this moment, rounded towards nought.
    pub open spec fn whole_secs_since(self, earlier: Timestamp) -> int {
        let span = self.total_nanos() - earlier.total_nanos();
        if span >= 0 {
            span / 1_000_000_000
        } else {
            -((-span) / 1_000_000_000)
        }
    }

    /// The whole seconds from `earlier` to this moment, rounded towards nought and
    /// limited to what 64 bits hold.
    pub fn secs_since(&self, earlier: &Timestamp) -> (secs: i64)
        ensures
            secs == clamp_i64(self.whole_secs_since(*earlier)),
    {
        let span = self.nanos_since(earlier);
        let secs: i128 = if span >= 0 {
            span / 1_000_000_000
        } else {
            -((-span) / 1_000_000_000)
        };
        if secs > i64::MAX as i128 {
            i64::MAX
        } else if secs < i64::MIN as i128 {
            i64::MIN
        } else {
            secs as i64
        }
    }

    /// The whole seconds since the epoch; nought before it.
    pub open spec fn seed(self) -> u64 {
        if self.secs < 0 {
            0
        } else {
            self.secs as u64
        }
    }
}

/// The nearest number that 64 bits hold.
pub open spec fn clamp_i64(value: int) -> i64 {
    if value > i64::MAX {
        i64::MAX
    } else if value < i64::MIN {
        i64::MIN
    } else {
        value as i64
    }
}

} // verus!
