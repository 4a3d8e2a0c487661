//! Time as the library sees it: nanoseconds on a monotonic clock.
use std::time::Instant;

use vstd::prelude::*;

use crate::reading::may_elapse;

verus! {

/// A length of time, or the time since some clock was started, in nanoseconds.
pub type Nanos = u128;

/// The standard library's monotonic clock reading. Nothing is known of the inside of one.
#[verifier::external_type_specification]
#[verifier::external_body]
pub struct ExInstant(Instant);

/// [`Instant::now`] reads the machine's clock. Nothing is claimed of what it returns.
pub assume_specification[ Instant::now ]() -> Instant;

/// Calls [`Instant::elapsed`] and gives the time since `origin` in nanoseconds. The result is
/// what the machine's clock says; all that is claimed of it is that it is a time that
/// [`may_elapse`]: a duration counts its whole seconds in 64 bits.
#[verifier::external_body]
fn elapsed_since(origin: &Instant) -> (nanos: Nanos)
    ensures
        may_elapse(*origin, nanos),
{
    origin.elapsed().as_nanos()
}

/// The time from `since` to `now`; none if `now` is the earlier one.
pub open spec fn age(since: Nanos, now: Nanos) -> nat {
    if since <= now {
        (now - since) as nat
    } else {
        0
    }
}

/// Returns the time from `since` to `now`; none if `now` is the earlier one.
pub(crate) fn nanos_between(since: Nanos, now: Nanos) -> (nanos: Nanos)
    ensures
        nanos == age(since, now),
{
    if since <= now {
        now - since
    } else {
        0
    }
}

/// A clock that counts from the moment it was started.
#[derive(Debug, Clone, Copy)]
pub struct Clock {
    origin: Instant,
}

impl Clock {
    /// Starts a clock.
    pub(crate) fn start() -> Self {
        Clock { origin: Instant::now() }
    }

    /// The time is one that the machine's clock may give as the time since the start. Nothing but
    /// reading this clock shows that.
    pub closed spec fn shows(self, now: Nanos) -> bool {
        may_elapse(self.origin, now)
    }

    /// Returns the time since the start, as the machine's clock has it.
    pub(crate) fn now(&self) -> (now: Nanos)
        ensures
            self.shows(now),
    {
        elapsed_since(&self.origin)
    }
}

/// Where the time comes from: a clock that goes on, or one given moment.
#[derive(Debug, Clone, Copy)]
pub enum Watch {
    Running(Clock),
    Stopped(Nanos),
}

impl Watch {
    /// The watch may show the time: a stopped one shows one time only, a running one what its
    /// clock shows.
    pub open spec fn may_show(self, now: Nanos) -> bool {
        match self {
            Watch::Running(clock) => clock.shows(now),
            Watch::Stopped(moment) => now == moment,
        }
    }

    /// Reads the watch.
    pub(crate) fn read(&self) -> (now: Nanos)
        ensures
            self.may_show(now),
    {
        match self {
            Watch::Running(clock) => clock.now(),
            Watch::Stopped(moment) => *moment,
        }
    }
}

} // verus!
