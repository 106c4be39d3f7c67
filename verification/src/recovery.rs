//! Initialisation recovery tracker.
//!
//! Tracks consecutive failures and asks for a re-initialisation once
//! `REINIT_THRESHOLD` of them have been seen in a row. Used to recover from
//! transient peripheral faults (contactless reader, smartcard reader).

use vstd::prelude::*;

verus! {

/// Number of consecutive failures after which a re-initialisation is due.
pub const REINIT_THRESHOLD: u8 = 3;

/// Abstract state of a tracker: the run of failures seen since the last
/// success or re-initialisation, and how many re-initialisations were asked for.
pub struct TrackerView {
    pub consecutive_failures: nat,
    pub reinit_count: nat,
}

/// `x`, clamped from above to `max`.
pub open spec fn saturate(x: int, max: int) -> int {
    if x > max {
        max
    } else {
        x
    }
}

/// The state after one failure, and whether that failure asks for a
/// re-initialisation. Both counters saturate at the bound of their type.
pub open spec fn failure_step(v: TrackerView) -> (TrackerView, bool) {
    let failures = saturate(v.consecutive_failures + 1int, u8::MAX as int);
    if failures >= REINIT_THRESHOLD {
        (
            TrackerView {
                consecutive_failures: 0,
                reinit_count: saturate(v.reinit_count + 1int, u32::MAX as int) as nat,
            },
            true,
        )
    } else {
        (TrackerView { consecutive_failures: failures as nat, reinit_count: v.reinit_count }, false)
    }
}

/// The state after one success: the run of failures is over.
pub open spec fn success_step(v: TrackerView) -> TrackerView {
    TrackerView { consecutive_failures: 0, reinit_count: v.reinit_count }
}

/// The state after `n` failures in a row, starting from `v`.
pub open spec fn failures_applied(v: TrackerView, n: nat) -> TrackerView
    decreases n,
{
    if n == 0 {
        v
    } else {
        failure_step(failures_applied(v, (n - 1) as nat)).0
    }
}

/// Whether the `k`-th of a row of failures starting from `v` (counted from 1)
/// asks for a re-initialisation.
pub open spec fn fires_on(v: TrackerView, k: nat) -> bool
    recommends
        k >= 1,
{
    failure_step(failures_applied(v, (k - 1) as nat)).1
}

/// The states a tracker can be in: the run of failures is always shorter than
/// the threshold, and the count fits its type.
pub open spec fn reachable(v: TrackerView) -> bool {
    &&& v.consecutive_failures < REINIT_THRESHOLD
    &&& v.reinit_count <= u32::MAX
}

/// A row of `n` failures from a reachable state `v` leaves the remainder of
/// `v.consecutive_failures + n` modulo `REINIT_THRESHOLD` as the current run,
/// and adds one re-initialisation for every completed run of
/// `REINIT_THRESHOLD` failures (saturating at `u32::MAX`).
pub proof fn lemma_failures_applied(v: TrackerView, n: nat)
    requires
        reachable(v),
    ensures
        failures_applied(v, n) == (TrackerView {
            consecutive_failures: ((v.consecutive_failures + n) as int % (REINIT_THRESHOLD as int)) as nat,
            reinit_count: saturate(
                v.reinit_count + (v.consecutive_failures + n) as int / (REINIT_THRESHOLD as int),
                u32::MAX as int,
            ) as nat,
        }),
        reachable(failures_applied(v, n)),
    decreases n,
{
    if n > 0 {
        lemma_failures_applied(v, (n - 1) as nat);
        let a: int = v.consecutive_failures + n as int;
        assert((a - 1) % 3 == 2 ==> a % 3 == 0 && a / 3 == (a - 1) / 3 + 1);
        assert((a - 1) % 3 != 2 ==> a % 3 == (a - 1) % 3 + 1 && a / 3 == (a - 1) / 3);
    }
}

/// From a reachable state `v`, the `k`-th failure of a row asks for a
/// re-initialisation exactly when it completes a run of `REINIT_THRESHOLD`,
/// that is when `v.consecutive_failures + k` is a multiple of it.
pub proof fn lemma_fires_every_third(v: TrackerView, k: nat)
    requires
        reachable(v),
        k >= 1,
    ensures
        fires_on(v, k) <==> (v.consecutive_failures + k) as int % (REINIT_THRESHOLD as int) == 0,
{
    lemma_failures_applied(v, (k - 1) as nat);
    let a: int = v.consecutive_failures + k as int;
    assert((a - 1) % 3 == 2 <==> a % 3 == 0);
}

/// A success restarts the count: after it, the `k`-th failure of a row asks
/// for a re-initialisation exactly when `k` is a multiple of
/// `REINIT_THRESHOLD`, and the re-initialisation count is what it was before
/// the success, plus one per completed run.
pub proof fn lemma_success_restarts_count(v: TrackerView, k: nat)
    requires
        reachable(v),
        k >= 1,
    ensures
        fires_on(success_step(v), k) <==> k as int % (REINIT_THRESHOLD as int) == 0,
        failures_applied(success_step(v), k).reinit_count == saturate(
            v.reinit_count + k as int / (REINIT_THRESHOLD as int),
            u32::MAX as int,
        ),
{
    lemma_fires_every_third(success_step(v), k);
    lemma_failures_applied(success_step(v), k);
}

/// The re-initialisation count never goes down. A failure raises it by one
/// exactly when it asks for a re-initialisation (unless the count is already
/// at `u32::MAX`), and a success leaves it as it is.
pub proof fn lemma_reinit_count_monotone(v: TrackerView)
    requires
        reachable(v),
    ensures
        failure_step(v).0.reinit_count >= v.reinit_count,
        failure_step(v).1 && v.reinit_count < u32::MAX ==> failure_step(v).0.reinit_count
            == v.reinit_count + 1,
        !failure_step(v).1 ==> failure_step(v).0.reinit_count == v.reinit_count,
        success_step(v).reinit_count == v.reinit_count,
{
}

/// Both operations keep a tracker in a reachable state, whatever state it
/// was in: the run of failures stays below `REINIT_THRESHOLD`.
pub proof fn lemma_steps_reachable(v: TrackerView)
    requires
        v.reinit_count <= u32::MAX,
    ensures
        reachable(failure_step(v).0),
        reachable(success_step(v)),
{
}

/// Tracks consecutive failures and triggers a re-initialisation after
/// `REINIT_THRESHOLD` of them.
#[derive(Debug, Clone, Copy, PartialEq, Eq, Structural)]
pub struct InitRecoveryTracker {
    consecutive_failures: u8,
    reinit_count: u32,
}

impl View for InitRecoveryTracker {
    type V = TrackerView;

    closed spec fn view(&self) -> TrackerView {
        TrackerView {
            consecutive_failures: self.consecutive_failures as nat,
            reinit_count: self.reinit_count as nat,
        }
    }
}

impl InitRecoveryTracker {
    /// Well-formedness: the state is one that the operations can produce.
    pub open spec fn wf(&self) -> bool {
        reachable(self@)
    }

    /// A fresh tracker: no failures seen, no re-initialisation asked for.
    pub fn new() -> (t: Self)
        ensures
            t@ == (TrackerView { consecutive_failures: 0, reinit_count: 0 }),
            t.wf(),
    {
        Self { consecutive_failures: 0, reinit_count: 0 }
    }

    /// Records a successful operation: the run of failures starts over.
    pub fn record_success(&mut self)
        ensures
            final(self)@ == success_step(old(self)@),
            final(self).wf(),
    {
        self.consecutive_failures = 0;
    }

    /// Records a failed operation. Returns `true` when this failure completes
    /// a run of `REINIT_THRESHOLD` and a re-initialisation is due; the run
    /// then starts over and the re-initialisation count grows by one
    /// (saturating).
    pub fn record_failure(&mut self) -> (reinit: bool)
        ensures
            (final(self)@, reinit) == failure_step(old(self)@),
            final(self).wf(),
    {
        self.consecutive_failures = self.consecutive_failures.saturating_add(1);
        if self.consecutive_failures >= REINIT_THRESHOLD {
            self.consecutive_failures = 0;
            self.reinit_count = self.reinit_count.saturating_add(1);
            true
        } else {
            false
        }
    }

    /// How many re-initialisations have been asked for.
    pub fn reinit_count(&self) -> (n: u32)
        ensures
            n == self@.reinit_count,
    {
        self.reinit_count
    }
}

impl Default for InitRecoveryTracker {
    fn default() -> (t: Self)
        ensures
            t@ == (TrackerView { consecutive_failures: 0, reinit_count: 0 }),
            t.wf(),
    {
        Self::new()
    }
}

} // verus!
