//! Units in which a length of time reads well.
use vstd::prelude::*;

use crate::clock::Nanos;

verus! {

/// A unit of time.
#[derive(Debug, Clone, Copy, PartialEq, Eq, Structural)]
pub enum TimeUnit {
    Nanos,
    Micros,
    Millis,
    Secs,
}

/// How many nanoseconds a unit has.
pub open spec fn nanos_per(unit: TimeUnit) -> nat {
    match unit {
        TimeUnit::Nanos => 1,
        TimeUnit::Micros => 1_000,
        TimeUnit::Millis => 1_000_000,
        TimeUnit::Secs => 1_000_000_000,
    }
}

/// Returns the largest unit that a length of time fills at least once; nanoseconds where it
/// fills none.
pub fn readable_unit(nanos: Nanos) -> (unit: TimeUnit)
    ensures
        unit != TimeUnit::Nanos ==> nanos_per(unit) <= nanos,
        forall|other: TimeUnit| #[trigger]
            nanos_per(other) <= nanos ==> nanos_per(other) <= nanos_per(unit),
        unit == TimeUnit::Nanos <==> nanos < 1_000,
        unit == TimeUnit::Micros <==> 1_000 <= nanos < 1_000_000,
        unit == TimeUnit::Millis <==> 1_000_000 <= nanos < 1_000_000_000,
        unit == TimeUnit::Secs <==> 1_000_000_000 <= nanos,
{
    if nanos < 1_000 {
        TimeUnit::Nanos
    } else if nanos < 1_000_000 {
        TimeUnit::Micros
    } else if nanos < 1_000_000_000 {
        TimeUnit::Millis
    } else {
        TimeUnit::Secs
    }
}

} // verus!
