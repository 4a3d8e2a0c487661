//! A circuit breaker: it refuses requests for a while after too many failures in a row.
use vstd::prelude::*;

use crate::clock::{age, nanos_between, Clock, Nanos};
use crate::metrics::{counted, lemma_counted_twice};
use crate::text::{append_decimal, decimal};

verus! {

/// How many failures in a row open the circuit, unless it is configured otherwise.
pub const DEFAULT_FAILURE_THRESHOLD: u64 = 5;

/// How long an open circuit waits before it is tried again, unless it is configured
/// otherwise: ten seconds.
pub const DEFAULT_RECOVERY_TIMEOUT: Nanos = 10_000_000_000;

/// The state of a circuit.
#[derive(Debug, Clone, Copy, PartialEq, Eq, Structural)]
pub enum CircuitState {
    /// Requests flow through.
    Closed,
    /// Requests are refused.
    Open,
    /// Requests flow through to find out whether the service has recovered.
    HalfOpen,
}

/// A circuit breaker for graceful degradation. It opens when the failures in a row reach a
/// threshold, lets requests through again once a recovery timeout has passed, and closes
/// on the first success after that. It has a clock of its own.
pub struct CircuitBreaker {
    state: CircuitState,
    consecutive_failures: u64,
    last_state_change: Nanos,
    failure_threshold: u64,
    recovery_timeout: Nanos,
    clock: Clock,
}

/// What a [`CircuitBreaker`] holds.
pub struct BreakerView {
    pub state: CircuitState,
    /// The failures since the last success.
    pub failures: u64,
    /// When the state last changed.
    pub changed_at: Nanos,
    /// The failures in a row that open the circuit.
    pub threshold: u64,
    /// The time after which an open circuit is tried again.
    pub timeout: Nanos,
    /// The clock that `changed_at` was read on.
    pub clock: Clock,
}

impl View for CircuitBreaker {
    type V = BreakerView;

    closed spec fn view(&self) -> BreakerView {
        BreakerView {
            state: self.state,
            failures: self.consecutive_failures,
            changed_at: self.last_state_change,
            threshold: self.failure_threshold,
            timeout: self.recovery_timeout,
            clock: self.clock,
        }
    }
}

/// What a state is called.
pub open spec fn state_name(state: CircuitState) -> Seq<char> {
    match state {
        CircuitState::Closed => "closed"@,
        CircuitState::Open => "open"@,
        CircuitState::HalfOpen => "half-open"@,
    }
}

/// A breaker in a log: the name of its state, and its failures.
pub open spec fn breaker_text(breaker: BreakerView) -> Seq<char> {
    "CircuitBreaker { state: \""@ + state_name(breaker.state) + "\", failures: "@ + decimal(
        breaker.failures as nat,
    ) + " }"@
}

impl BreakerView {
    /// A closed circuit with no failures counted.
    pub open spec fn is_fresh(self, threshold: u64, timeout: Nanos) -> bool {
        &&& self.state == CircuitState::Closed
        &&& self.failures == 0
        &&& self.threshold == threshold
        &&& self.timeout == timeout
    }

    /// The same breaker in another state, reached at `now`.
    pub open spec fn switched(self, state: CircuitState, now: Nanos) -> BreakerView {
        BreakerView { state, changed_at: now, ..self }
    }

    /// The circuit has been open for the whole recovery timeout.
    pub open spec fn due_for_recovery(self, now: Nanos) -> bool {
        self.state == CircuitState::Open && age(self.changed_at, now) >= self.timeout
    }

    /// A request at `now` is let through: the circuit is not open, or was for long enough.
    pub open spec fn allows(self, now: Nanos) -> bool {
        self.state != CircuitState::Open || self.due_for_recovery(now)
    }

    /// The breaker after a request was admitted or refused at `now`.
    pub open spec fn after_request(self, now: Nanos) -> BreakerView {
        if self.due_for_recovery(now) {
            self.switched(CircuitState::HalfOpen, now)
        } else {
            self
        }
    }

    /// The breaker after a success at `now`.
    pub open spec fn after_success(self, now: Nanos) -> BreakerView {
        let counted = BreakerView { failures: 0, ..self };
        if self.state == CircuitState::HalfOpen {
            counted.switched(CircuitState::Closed, now)
        } else {
            counted
        }
    }

    /// The breaker after a failure at `now`.
    pub open spec fn after_failure(self, now: Nanos) -> BreakerView {
        let counted = BreakerView { failures: self.failures.wrapping_add(1), ..self };
        if self.state == CircuitState::HalfOpen || (self.state == CircuitState::Closed
            && counted.failures >= self.threshold) {
            counted.switched(CircuitState::Open, now)
        } else {
            counted
        }
    }

    /// The breaker after failures at each of the given times, one after the other.
    pub open spec fn after_failures(self, times: Seq<Nanos>) -> BreakerView
        decreases times.len(),
    {
        if times.len() == 0 {
            self
        } else {
            self.after_failures(times.drop_last()).after_failure(times.last())
        }
    }

    /// The breaker after one call.
    pub open spec fn after_call(self, call: BreakerCall) -> BreakerView {
        match call {
            BreakerCall::Request(now) => self.after_request(now),
            BreakerCall::Success(now) => self.after_success(now),
            BreakerCall::Failure(now) => self.after_failure(now),
        }
    }

    /// The breaker after a run of calls.
    pub open spec fn after_calls(self, calls: Seq<BreakerCall>) -> BreakerView
        decreases calls.len(),
    {
        if calls.len() == 0 {
            self
        } else {
            self.after_calls(calls.drop_last()).after_call(calls.last())
        }
    }
}

/// A call of a breaker, with its time.
pub enum BreakerCall {
    /// A request is admitted or refused.
    Request(Nanos),
    /// A success is recorded.
    Success(Nanos),
    /// A failure is recorded.
    Failure(Nanos),
}

/// The failures of a run of calls that no success follows.
pub open spec fn failures_since_success(calls: Seq<BreakerCall>) -> nat
    decreases calls.len(),
{
    if calls.len() == 0 {
        0
    } else {
        match calls.last() {
            BreakerCall::Request(_) => failures_since_success(calls.drop_last()),
            BreakerCall::Success(_) => 0,
            BreakerCall::Failure(_) => failures_since_success(calls.drop_last()) + 1,
        }
    }
}

impl Default for CircuitBreaker {
    /// Creates a closed breaker that opens after five failures in a row and is tried again
    /// after ten seconds.
    fn default() -> (breaker: Self)
        ensures
            breaker@.is_fresh(DEFAULT_FAILURE_THRESHOLD, DEFAULT_RECOVERY_TIMEOUT),
            breaker@.changed_at == 0,
            breaker@.state == CircuitState::Closed,
            breaker@.failures == 0,
            breaker@.threshold == 5,
            breaker@.timeout == 10_000_000_000,
    {
        CircuitBreaker::new(DEFAULT_FAILURE_THRESHOLD, DEFAULT_RECOVERY_TIMEOUT)
    }
}

impl CircuitBreaker {
    /// Creates a closed breaker with the given threshold and recovery timeout. Its clock
    /// starts now.
    pub fn new(failure_threshold: u64, recovery_timeout: Nanos) -> (breaker: Self)
        ensures
            breaker@.is_fresh(failure_threshold, recovery_timeout),
            breaker@.changed_at == 0,
            breaker@.state == CircuitState::Closed,
            breaker@.failures == 0,
            breaker@.threshold == failure_threshold,
            breaker@.timeout == recovery_timeout,
    {
        CircuitBreaker {
            state: CircuitState::Closed,
            consecutive_failures: 0,
            last_state_change: 0,
            failure_threshold,
            recovery_timeout,
            clock: Clock::start(),
        }
    }

    /// Returns the time on the breaker's clock.
    pub(crate) fn now(&self) -> (now: Nanos)
        ensures
            self@.clock.shows(now),
    {
        self.clock.now()
    }

    /// Returns whether a request is let through now. A circuit that has been open for the
    /// recovery timeout becomes half-open.
    pub fn allow_request(&mut self) -> (allowed: bool)
        ensures
            exists|now: Nanos|
                {
                    &&& old(self)@.clock.shows(now)
                    &&& allowed == old(self)@.allows(now)
                    &&& final(self)@ == #[trigger] old(self)@.after_request(now)
                },
    {
        let now: Nanos = self.now();
        self.allow_request_at(now)
    }

    /// Returns whether a request is let through at `now`. A circuit that has been open for
    /// the recovery timeout becomes half-open.
    pub fn allow_request_at(&mut self, now: Nanos) -> (allowed: bool)
        ensures
            allowed == old(self)@.allows(now),
            final(self)@ == old(self)@.after_request(now),
    {
        match self.state {
            CircuitState::Open => {
                if nanos_between(self.last_state_change, now) >= self.recovery_timeout {
                    self.state = CircuitState::HalfOpen;
                    self.last_state_change = now;
                    true
                } else {
                    false
                }
            },
            CircuitState::Closed | CircuitState::HalfOpen => true,
        }
    }

    /// Records a success now: the count of failures starts again, and a half-open circuit
    /// closes.
    pub fn record_success(&mut self)
        ensures
            exists|now: Nanos|
                {
                    &&& old(self)@.clock.shows(now)
                    &&& final(self)@ == #[trigger] old(self)@.after_success(now)
                },
    {
        let now: Nanos = self.now();
        self.record_success_at(now);
    }

    /// Records a success at `now`.
    pub fn record_success_at(&mut self, now: Nanos)
        ensures
            final(self)@ == old(self)@.after_success(now),
    {
        self.consecutive_failures = 0;
        if self.state == CircuitState::HalfOpen {
            self.state = CircuitState::Closed;
            self.last_state_change = now;
        }
    }

    /// Records a failure now: a closed circuit opens when the failures in a row reach the
    /// threshold, and a half-open one opens at once.
    pub fn record_failure(&mut self)
        ensures
            exists|now: Nanos|
                {
                    &&& old(self)@.clock.shows(now)
                    &&& final(self)@ == #[trigger] old(self)@.after_failure(now)
                },
    {
        let now: Nanos = self.now();
        self.record_failure_at(now);
    }

    /// Records a failure at `now`. The count of failures wraps around.
    pub fn record_failure_at(&mut self, now: Nanos)
        ensures
            final(self)@ == old(self)@.after_failure(now),
    {
        let failures: u64 = self.consecutive_failures.wrapping_add(1);
        self.consecutive_failures = failures;
        match self.state {
            CircuitState::Closed => {
                if failures >= self.failure_threshold {
                    self.state = CircuitState::Open;
                    self.last_state_change = now;
                }
            },
            CircuitState::HalfOpen => {
                self.state = CircuitState::Open;
                self.last_state_change = now;
            },
            CircuitState::Open => {},
        }
    }

    /// Returns the name of the current state.
    pub fn current_state(&self) -> (name: &'static str)
        ensures
            name@ == state_name(self@.state),
            self@.state == CircuitState::Closed ==> name@ == "closed"@,
            self@.state == CircuitState::Open ==> name@ == "open"@,
            self@.state == CircuitState::HalfOpen ==> name@ == "half-open"@,
    {
        match self.state {
            CircuitState::Closed => "closed",
            CircuitState::Open => "open",
            CircuitState::HalfOpen => "half-open",
        }
    }

    /// Returns the breaker as a text for logs.
    pub fn debug_text(&self) -> (text: String)
        ensures
            text@ == breaker_text(self@),
    {
        let mut text: String = "CircuitBreaker { state: \"".to_string();
        text.append(self.current_state());
        text.append("\", failures: ");
        append_decimal(&mut text, self.consecutive_failures);
        text.append(" }");
        text
    }

    /// Returns the number of failures since the last success.
    pub fn failure_count(&self) -> (failures: u64)
        ensures
            failures == self@.failures,
    {
        self.consecutive_failures
    }
}

/// A closed circuit opens with the failure that brings the failures in a row to the
/// threshold, and not before.
pub proof fn law_opens_at_the_threshold(breaker: BreakerView, times: Seq<Nanos>)
    requires
        breaker.state == CircuitState::Closed,
        breaker.failures < breaker.threshold,
        breaker.failures + times.len() <= breaker.threshold,
    ensures
        breaker.after_failures(times).failures == breaker.failures + times.len(),
        breaker.failures + times.len() < breaker.threshold ==> breaker.after_failures(times).state
            == CircuitState::Closed,
        breaker.failures + times.len() == breaker.threshold ==> {
            &&& breaker.after_failures(times).state == CircuitState::Open
            &&& breaker.after_failures(times).changed_at == times.last()
        },
        breaker.after_failures(times).threshold == breaker.threshold,
        breaker.after_failures(times).timeout == breaker.timeout,
    decreases times.len(),
{
    if times.len() > 0 {
        law_opens_at_the_threshold(breaker, times.drop_last());
    }
}

/// An open circuit refuses every request until the recovery timeout has passed, and
/// refusing changes nothing.
pub proof fn law_open_circuit_refuses(breaker: BreakerView, now: Nanos)
    requires
        breaker.state == CircuitState::Open,
        age(breaker.changed_at, now) < breaker.timeout,
    ensures
        !breaker.allows(now),
        breaker.after_request(now) == breaker,
{
}

/// Once the recovery timeout has passed, an open circuit lets a request through and is
/// half-open; a success then closes it with no failures counted, and a failure opens it
/// again for another whole timeout.
pub proof fn law_recovery(breaker: BreakerView, now: Nanos, later: Nanos)
    requires
        breaker.state == CircuitState::Open,
        age(breaker.changed_at, now) >= breaker.timeout,
    ensures
        breaker.allows(now),
        breaker.after_request(now).state == CircuitState::HalfOpen,
        breaker.after_request(now).after_success(later).is_fresh(
            breaker.threshold,
            breaker.timeout,
        ),
        breaker.after_request(now).after_failure(later).state == CircuitState::Open,
        breaker.after_request(now).after_failure(later).changed_at == later,
{
}

/// Only failures in a row count: a success starts the count again and never opens a
/// circuit.
pub proof fn law_success_starts_the_count_again(breaker: BreakerView, now: Nanos)
    ensures
        breaker.after_success(now).failures == 0,
        breaker.state != CircuitState::Open ==> breaker.after_success(now).state
            == CircuitState::Closed,
        breaker.state == CircuitState::Open ==> breaker.after_success(now).state
            == CircuitState::Open,
{
}

/// Whatever is called, a breaker that started fresh has counted the failures since the last
/// success, and its circuit is closed only with no failures counted or fewer than the threshold.
pub proof fn law_count_over_any_run(breaker: BreakerView, calls: Seq<BreakerCall>)
    requires
        breaker.is_fresh(breaker.threshold, breaker.timeout),
    ensures
        breaker.after_calls(calls).failures == counted(0, failures_since_success(calls)),
        breaker.after_calls(calls).state == CircuitState::Closed ==> {
            ||| breaker.after_calls(calls).failures == 0
            ||| breaker.after_calls(calls).failures < breaker.threshold
        },
        breaker.after_calls(calls).threshold == breaker.threshold,
        breaker.after_calls(calls).timeout == breaker.timeout,
    decreases calls.len(),
{
    if calls.len() > 0 {
        law_count_over_any_run(breaker, calls.drop_last());
        lemma_counted_twice(0, failures_since_success(calls.drop_last()), 1);
    }
}

/// The wait of an open circuit counts from its opening alone: until a request comes after the
/// whole timeout, neither refused requests nor recorded successes or failures change its state
/// or put the end of the wait off.
pub proof fn law_wait_counts_from_the_opening(breaker: BreakerView, calls: Seq<BreakerCall>)
    requires
        breaker.state == CircuitState::Open,
        forall|i: int|
            0 <= i < calls.len() ==> (#[trigger] calls[i] matches BreakerCall::Request(now) ==> age(
                breaker.changed_at,
                now,
            ) < breaker.timeout),
    ensures
        breaker.after_calls(calls).state == CircuitState::Open,
        breaker.after_calls(calls).changed_at == breaker.changed_at,
        breaker.after_calls(calls).timeout == breaker.timeout,
        forall|now: Nanos| #[trigger]
            breaker.after_calls(calls).allows(now) <==> age(breaker.changed_at, now)
                >= breaker.timeout,
    decreases calls.len(),
{
    if calls.len() > 0 {
        let earlier = calls.drop_last();
        assert forall|i: int| 0 <= i < earlier.len() implies (
        #[trigger] earlier[i] matches BreakerCall::Request(now) ==> age(breaker.changed_at, now)
            < breaker.timeout) by {
            assert(earlier[i] == calls[i]);
        }
        law_wait_counts_from_the_opening(breaker, earlier);
        assert(calls[calls.len() - 1] == calls.last());
    }
}

/// No call sets the clock anew or changes the configuration, so that all times of a breaker are
/// read on the one clock that it started with.
pub proof fn law_one_clock_over_any_run(breaker: BreakerView, calls: Seq<BreakerCall>)
    ensures
        breaker.after_calls(calls).clock == breaker.clock,
        breaker.after_calls(calls).threshold == breaker.threshold,
        breaker.after_calls(calls).timeout == breaker.timeout,
    decreases calls.len(),
{
    if calls.len() > 0 {
        law_one_clock_over_any_run(breaker, calls.drop_last());
    }
}

/// Only an open circuit whose timeout has not passed refuses; a closed or half-open one lets every
/// request through, at any time.
pub proof fn law_only_a_waiting_open_circuit_refuses(breaker: BreakerView, now: Nanos)
    ensures
        breaker.state != CircuitState::Open ==> breaker.allows(now),
        breaker.state == CircuitState::Open ==> (breaker.allows(now) <==> now >= breaker.changed_at
            + breaker.timeout || breaker.timeout == 0),
{
}

/// What a request does to a circuit: an open one that lets it through is half-open from then on,
/// and any other stays as it is.
pub proof fn law_what_a_request_does(breaker: BreakerView, now: Nanos)
    ensures
        ({
            let after = breaker.after_request(now);
            &&& after.failures == breaker.failures
            &&& after.threshold == breaker.threshold
            &&& after.timeout == breaker.timeout
            &&& if breaker.state == CircuitState::Open && breaker.allows(now) {
                after.state == CircuitState::HalfOpen && after.changed_at == now
            } else {
                after.state == breaker.state && after.changed_at == breaker.changed_at
            }
        }),
        breaker.after_request(now).state == CircuitState::Open <==> !breaker.allows(now),
{
}

/// What a success does to a circuit: it ends the failures in a row, and a half-open circuit
/// closes.
pub proof fn law_what_a_success_does(breaker: BreakerView, now: Nanos)
    ensures
        ({
            let after = breaker.after_success(now);
            &&& after.failures == 0
            &&& after.threshold == breaker.threshold
            &&& after.timeout == breaker.timeout
            &&& if breaker.state == CircuitState::HalfOpen {
                after.state == CircuitState::Closed && after.changed_at == now
            } else {
                after.state == breaker.state && after.changed_at == breaker.changed_at
            }
        }),
{
}

/// What a failure does to a circuit: it counts, a half-open circuit opens, and a closed one opens
/// when it is the failure that reaches the threshold.
pub proof fn law_what_a_failure_does(breaker: BreakerView, now: Nanos)
    requires
        breaker.failures < u64::MAX,
    ensures
        ({
            let after = breaker.after_failure(now);
            &&& after.failures == breaker.failures + 1
            &&& after.threshold == breaker.threshold
            &&& after.timeout == breaker.timeout
            &&& if breaker.state == CircuitState::HalfOpen || (breaker.state
                == CircuitState::Closed && breaker.failures + 1 >= breaker.threshold) {
                after.state == CircuitState::Open && after.changed_at == now
            } else {
                after.state == breaker.state && after.changed_at == breaker.changed_at
            }
        }),
{
}

} // verus!
