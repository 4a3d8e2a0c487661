//! What is known of a reading of the machine's clock.
use std::time::Instant;

use vstd::prelude::*;

use crate::clock::Nanos;

verus! {

/// The machine's clock may give `nanos` as the time since `origin`.
///
/// Elsewhere nothing is known of which times these are, so that only reading the clock shows
/// that a time is one of them. Here it is only known that such a time has at most as many whole
/// seconds as 64 bits can count.
pub closed spec fn may_elapse(origin: Instant, nanos: Nanos) -> bool {
    nanos < 0x1_0000_0000_0000_0000 * 1_000_000_000
}

} // verus!
