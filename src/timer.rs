use std::time::{Duration, Instant};
use vstd::prelude::*;

verus! {

#[verifier::external_type_specification]
#[verifier::external_body]
pub struct ExInstant(std::time::Instant);

/// Relies on `Instant::now`: a reading of the monotonic clock.
#[verifier::external_body]
fn instant_now() -> (r: Instant) {
    Instant::now()
}

/// Relies on `Instant::elapsed`: the time since `origin`. Nothing is known of
/// the value, which depends on the time.
#[verifier::external_body]
fn elapsed_since(origin: &Instant) -> (r: Duration) {
    origin.elapsed()
}

/// Relies on `Duration::as_millis`: the whole milliseconds in `d`.
#[verifier::external_body]
fn whole_millis(d: &Duration) -> (r: u128) {
    d.as_millis()
}

/// The largest value a millisecond count can hold.
pub open spec fn saturate(x: int) -> u64 {
    if x > u64::MAX {
        u64::MAX
    } else if x < 0 {
        0
    } else {
        x as u64
    }
}

/// Time that passed between the clock readings `since` and `now`; a reading
/// earlier than `since` counts as no time at all.
pub open spec fn delta(since: u64, now: u64) -> int {
    if now >= since {
        now - since
    } else {
        0
    }
}

/// The abstract state of a [`Timer`]: the time accumulated over closed running
/// intervals, and the clock reading at which the current interval began.
pub struct TimerView {
    pub elapsed: u64,
    pub since: Option<u64>,
}

impl TimerView {
    pub open spec fn is_running(self) -> bool {
        self.since.is_some()
    }

    /// What the timer reads at clock reading `now`.
    pub open spec fn reading(self, now: u64) -> u64 {
        match self.since {
            Some(s) => saturate(self.elapsed + delta(s, now)),
            None => self.elapsed,
        }
    }

    pub open spec fn started(self, now: u64) -> TimerView {
        match self.since {
            Some(_) => self,
            None => TimerView { elapsed: self.elapsed, since: Some(now) },
        }
    }

    pub open spec fn paused(self, now: u64) -> TimerView {
        TimerView { elapsed: self.reading(now), since: None }
    }

    pub open spec fn cleared(self) -> TimerView {
        TimerView { elapsed: 0, since: None }
    }

    pub open spec fn overwritten(self, value: u64, now: u64) -> TimerView {
        TimerView {
            elapsed: value,
            since: match self.since {
                Some(_) => Some(now),
                None => None,
            },
        }
    }
}

/// Tracks how long playback has been running, from the wall clock, since the
/// output device reports no position of its own.
pub struct Timer {
    origin: Instant,
    elapsed: u64,
    since: Option<u64>,
}

impl View for Timer {
    type V = TimerView;

    closed spec fn view(&self) -> TimerView {
        TimerView { elapsed: self.elapsed, since: self.since }
    }
}

impl Timer {
    /// A stopped timer that reads zero.
    pub fn new() -> (r: Timer)
        ensures
            r@ == (TimerView { elapsed: 0, since: None }),
    {
        Timer { origin: instant_now(), elapsed: 0, since: None }
    }

    /// The current reading of the clock in milliseconds since this timer was
    /// made, saturated at `u64::MAX`.
    pub fn now(&self) -> (r: u64) {
        let ms = whole_millis(&elapsed_since(&self.origin));
        if ms > u64::MAX as u128 {
            u64::MAX
        } else {
            ms as u64
        }
    }

    pub fn is_running(&self) -> (r: bool)
        ensures
            r == self@.is_running(),
    {
        self.since.is_some()
    }

    /// Starts the timer at clock reading `now`; a running timer is left as it is.
    pub fn start_at(&mut self, now: u64)
        ensures
            final(self)@ == old(self)@.started(now),
    {
        if self.since.is_none() {
            self.since = Some(now);
        }
    }

    /// Reads the timer at clock reading `now`.
    pub fn read_at(&self, now: u64) -> (r: u64)
        ensures
            r == self@.reading(now),
    {
        match self.since {
            Some(s) => {
                let d: u64 = if now >= s {
                    now - s
                } else {
                    0
                };
                self.elapsed.saturating_add(d)
            },
            None => self.elapsed,
        }
    }

    /// Stops the timer at clock reading `now`, folding the running interval
    /// into the accumulated time; a stopped timer is left as it is.
    pub fn pause_at(&mut self, now: u64)
        ensures
            final(self)@ == old(self)@.paused(now),
    {
        let r = self.read_at(now);
        self.elapsed = r;
        self.since = None;
    }

    /// Sets the reading to `value` at clock reading `now`, keeping the timer
    /// running if it was.
    pub fn overwrite_at(&mut self, value: u64, now: u64)
        ensures
            final(self)@ == old(self)@.overwritten(value, now),
    {
        self.elapsed = value;
        if self.since.is_some() {
            self.since = Some(now);
        }
    }

    /// Starts the timer now.
    pub fn start(&mut self)
        ensures
            exists|now: u64| final(self)@ == old(self)@.started(now),
    {
        let now = self.now();
        self.start_at(now);
    }

    /// Stops the timer now.
    pub fn pause(&mut self)
        ensures
            exists|now: u64| final(self)@ == old(self)@.paused(now),
    {
        let now = self.now();
        self.pause_at(now);
    }

    /// Stops the timer and resets its reading to zero.
    pub fn clear(&mut self)
        ensures
            final(self)@ == old(self)@.cleared(),
    {
        self.since = None;
        self.elapsed = 0;
    }

    /// Reads the timer now.
    pub fn read(&self) -> (r: u64)
        ensures
            exists|now: u64| r == self@.reading(now),
    {
        let now = self.now();
        self.read_at(now)
    }

    /// Sets the reading to `value` now, keeping the timer running if it was.
    pub fn overwrite(&mut self, value: u64)
        ensures
            exists|now: u64| final(self)@ == old(self)@.overwritten(value, now),
    {
        let now = self.now();
        self.overwrite_at(value, now);
    }
}

impl Default for Timer {
    fn default() -> (r: Timer)
        ensures
            r@ == (TimerView { elapsed: 0, since: None }),
    {
        Timer::new()
    }
}

/// The timer after starting and then pausing it once for each interval of
/// `intervals`, a pair of the clock readings at which it was started and paused.
pub open spec fn run_intervals(v: TimerView, intervals: Seq<(u64, u64)>) -> TimerView
    decreases intervals.len(),
{
    if intervals.len() == 0 {
        v
    } else {
        run_intervals(
            v.started(intervals[0].0).paused(intervals[0].1),
            intervals.subrange(1, intervals.len() as int),
        )
    }
}

/// The summed length of `intervals`.
pub open spec fn total_length(intervals: Seq<(u64, u64)>) -> int
    decreases intervals.len(),
{
    if intervals.len() == 0 {
        0
    } else {
        (intervals[0].1 - intervals[0].0) + total_length(
            intervals.subrange(1, intervals.len() as int),
        )
    }
}

/// A stopped timer that is started and paused over a series of intervals
/// reads, once paused, what it read before plus the lengths of the intervals,
/// saturated at `u64::MAX`.
pub proof fn lemma_reading_sums_intervals(v: TimerView, intervals: Seq<(u64, u64)>)
    requires
        !v.is_running(),
        forall|i: int| 0 <= i < intervals.len() ==> intervals[i].0 <= #[trigger] intervals[i].1,
    ensures
        run_intervals(v, intervals) == (TimerView {
            elapsed: saturate(v.elapsed + total_length(intervals)),
            since: None,
        }),
    decreases intervals.len(),
{
    if intervals.len() == 0 {
        assert(saturate(v.elapsed + 0) == v.elapsed);
    } else {
        let rest = intervals.subrange(1, intervals.len() as int);
        let w = v.started(intervals[0].0).paused(intervals[0].1);
        assert(intervals[0].0 <= intervals[0].1);
        assert forall|i: int| 0 <= i < rest.len() implies rest[i].0 <= #[trigger] rest[i].1 by {
            assert(rest[i] == intervals[i + 1]);
        }
        lemma_total_length_nonneg(rest);
        lemma_reading_sums_intervals(w, rest);
    }
}

/// Intervals that do not run backwards have a non-negative summed length.
pub proof fn lemma_total_length_nonneg(intervals: Seq<(u64, u64)>)
    requires
        forall|i: int| 0 <= i < intervals.len() ==> intervals[i].0 <= #[trigger] intervals[i].1,
    ensures
        total_length(intervals) >= 0,
    decreases intervals.len(),
{
    if intervals.len() > 0 {
        let rest = intervals.subrange(1, intervals.len() as int);
        assert(intervals[0].0 <= intervals[0].1);
        assert forall|i: int| 0 <= i < rest.len() implies rest[i].0 <= #[trigger] rest[i].1 by {
            assert(rest[i] == intervals[i + 1]);
        }
        lemma_total_length_nonneg(rest);
    }
}

/// While the timer runs, its reading never decreases as the clock advances;
/// from the start reading on, and short of saturation, it advances exactly as
/// the clock does.
pub proof fn lemma_reading_monotone(v: TimerView, earlier: u64, later: u64)
    requires
        earlier <= later,
    ensures
        v.reading(earlier) <= v.reading(later),
        v.since matches Some(s) && s <= earlier && v.reading(later) < u64::MAX ==> v.reading(later)
            - v.reading(earlier) == later - earlier,
{
}

/// Starting twice is starting once, and pausing twice is pausing once.
pub proof fn lemma_start_pause_idempotent(v: TimerView, first: u64, second: u64)
    ensures
        v.started(first).started(second) == v.started(first),
        v.paused(first).paused(second) == v.paused(first),
{
}

/// Right after an overwrite the timer reads exactly the value written, and it
/// runs after the overwrite if and only if it ran before.
pub proof fn lemma_overwrite_then_read(v: TimerView, value: u64, now: u64)
    ensures
        v.overwritten(value, now).reading(now) == value,
        v.overwritten(value, now).is_running() == v.is_running(),
{
}

} // verus!
