//! When the daemon broadcasts its health to the mesh.
use vstd::prelude::*;

use crate::clock::{millis_u64_of, now_millis_u64};

verus! {

/// Thermal state of the node.
#[derive(Debug, Clone, Copy, PartialEq, Eq, Structural)]
pub enum ThermalState {
    Cool,
    Warm,
    Hot,
    Critical,
}

/// Whether a report is due at `now_ms` when the last one went out at
/// `last_ms` (zero: never), reports being `interval_secs` apart.
pub open spec fn report_due(last_ms: u64, now_ms: u64, interval_secs: u64) -> bool {
    (if now_ms >= last_ms {
        now_ms - last_ms
    } else {
        0
    }) >= interval_secs * 1000
}

/// Tracks when health reports go out.
pub struct HealthReporter {
    interval_secs: u64,
    last_report_ms: u64,
    report_count: u64,
}

impl HealthReporter {
    /// Seconds between reports.
    pub closed spec fn interval_view(&self) -> u64 {
        self.interval_secs
    }

    /// Time of the last report (milliseconds since the epoch), zero before
    /// the first.
    pub closed spec fn last_view(&self) -> u64 {
        self.last_report_ms
    }

    /// Reports sent.
    pub closed spec fn count_view(&self) -> u64 {
        self.report_count
    }

    /// A reporter with reports `interval_secs` apart, none sent yet.
    pub fn new(interval_secs: u64) -> (h: Self)
        ensures
            h.interval_view() == interval_secs,
            h.last_view() == 0,
            h.count_view() == 0,
    {
        HealthReporter { interval_secs, last_report_ms: 0, report_count: 0 }
    }

    /// Whether a report is due at `now_ms`.
    pub fn should_report_at(&self, now_ms: u64) -> (b: bool)
        ensures
            b == report_due(self.last_view(), now_ms, self.interval_view()),
    {
        let elapsed: u64 = if now_ms >= self.last_report_ms {
            now_ms - self.last_report_ms
        } else {
            0
        };
        (elapsed as u128) >= (self.interval_secs as u128) * 1000
    }

    /// Whether a report is due now.
    pub fn should_report(&self) -> (b: bool)
        ensures
            exists|now: u64| b == #[trigger] report_due(self.last_view(), now, self.interval_view()),
    {
        let now = now_millis_u64();
        let b = self.should_report_at(now);
        assert(b == report_due(self.last_view(), now, self.interval_view()));
        b
    }

    /// Records a report sent at `now_ms`.
    pub fn mark_reported_at(&mut self, now_ms: u64)
        requires
            old(self).count_view() < u64::MAX,
        ensures
            final(self).last_view() == now_ms,
            final(self).count_view() == old(self).count_view() + 1,
            final(self).interval_view() == old(self).interval_view(),
    {
        self.last_report_ms = now_ms;
        self.report_count = self.report_count + 1;
    }

    /// Records a report sent now: the last report time becomes the clock's
    /// reading (as `now_millis_u64` makes it).
    pub fn mark_reported(&mut self)
        requires
            old(self).count_view() < u64::MAX,
        ensures
            exists|reading: Option<u128>| final(self).last_view() == #[trigger] millis_u64_of(reading),
            final(self).count_view() == old(self).count_view() + 1,
            final(self).interval_view() == old(self).interval_view(),
    {
        let now = now_millis_u64();
        self.mark_reported_at(now);
    }

    /// Reports sent.
    pub fn report_count(&self) -> (n: u64)
        ensures
            n == self.count_view(),
    {
        self.report_count
    }
}

/// Law: right after a report at time `t`, none is due again before the
/// interval has passed, and one is due once it has.
pub proof fn law_report_spacing(t: u64, now: u64, interval_secs: u64)
    requires
        now >= t,
    ensures
        report_due(t, now, interval_secs) <==> now - t >= interval_secs * 1000,
{
}

} // verus!
