//! Counters over the requests that were served.

use crate::api::Response;
use crate::http::StatusCode;
use crate::json::{self, ObjectWriter};
use crate::window;
use vstd::prelude::*;

verus! {

/// What a counter shows for a count. A counter that passes its greatest value starts again at
/// zero.
pub open spec fn shown(count: int) -> int {
    count % 0x1_0000_0000_0000_0000
}

/// A fraction whose denominator is not zero.
#[derive(Debug, Clone, Copy, PartialEq, Eq, Structural)]
pub struct Ratio {
    pub numerator: u64,
    pub denominator: u64,
}

/// The fraction of two counts: zero where there is nothing to divide by.
pub open spec fn ratio(numerator: u64, denominator: u64) -> Ratio {
    if denominator > 0 {
        Ratio { numerator, denominator }
    } else {
        Ratio { numerator: 0, denominator: 1 }
    }
}

fn ratio_of(numerator: u64, denominator: u64) -> (r: Ratio)
    ensures
        r == ratio(numerator, denominator),
        r.denominator > 0,
{
    if denominator > 0 {
        Ratio { numerator, denominator }
    } else {
        Ratio { numerator: 0, denominator: 1 }
    }
}

/// The figures at one point in time.
#[derive(Debug, Clone, Copy, PartialEq, Eq, Structural)]
pub struct MetricsSnapshot {
    pub requests_total: u64,
    pub requests_success: u64,
    pub requests_error: u64,
    /// The successful requests as a part of all.
    pub success_rate: Ratio,
    /// The requests of the last minute, per second.
    pub requests_per_second: Ratio,
    /// The time of all responses in milliseconds, per request.
    pub average_response_time_ms: Ratio,
    pub uptime_seconds: u64,
}

/// Counts requests. Points in time are nanoseconds of a monotonic clock.
pub struct MetricsCollector {
    requests_total: u64,
    requests_success: u64,
    requests_error: u64,
    response_time_sum_ms: u64,
    last_minute_requests: Vec<u64>,
    start_time: u64,
}

/// What a collector has counted.
pub struct Counts {
    pub total: u64,
    pub success: u64,
    pub error: u64,
    pub time_ms: u64,
    pub last_minute: Seq<u64>,
    pub started: u64,
}

/// One more, on a counter.
pub open spec fn bumped(n: u64, by: u64) -> u64 {
    shown(n + by) as u64
}

/// The counts after one more request.
pub open spec fn recorded(before: Counts, response_time_ms: u64, status_code: u16, now: u64) -> Counts {
    Counts {
        total: bumped(before.total, 1),
        success: if status_code < 400 {
            bumped(before.success, 1)
        } else {
            before.success
        },
        error: if status_code < 400 {
            before.error
        } else {
            bumped(before.error, 1)
        },
        time_ms: bumped(before.time_ms, response_time_ms),
        last_minute: window::recent(before.last_minute.push(now), now, window::seconds_window(60)),
        started: before.started,
    }
}

/// The figures that counts amount to.
pub open spec fn figures(counts: Counts, now: u64) -> MetricsSnapshot {
    MetricsSnapshot {
        requests_total: counts.total,
        requests_success: counts.success,
        requests_error: counts.error,
        success_rate: ratio(counts.success, counts.total),
        requests_per_second: Ratio {
            numerator: counts.last_minute.len() as u64,
            denominator: 60,
        },
        average_response_time_ms: ratio(counts.time_ms, counts.total),
        uptime_seconds: if now >= counts.started {
            ((now - counts.started) / window::NANOS_PER_SECOND as int) as u64
        } else {
            0
        },
    }
}

impl View for MetricsCollector {
    type V = Counts;

    closed spec fn view(&self) -> Counts {
        Counts {
            total: self.requests_total,
            success: self.requests_success,
            error: self.requests_error,
            time_ms: self.response_time_sum_ms,
            last_minute: self.last_minute_requests@,
            started: self.start_time,
        }
    }
}

impl MetricsCollector {
    #[verifier::type_invariant]
    spec fn every_request_is_counted_once(self) -> bool {
        self.requests_total == shown(self.requests_success + self.requests_error)
    }

    /// A collector that has counted nothing.
    pub fn new(now: u64) -> (r: MetricsCollector)
        ensures
            r@ == (Counts {
                total: 0,
                success: 0,
                error: 0,
                time_ms: 0,
                last_minute: Seq::empty(),
                started: now,
            }),
    {
        MetricsCollector {
            requests_total: 0,
            requests_success: 0,
            requests_error: 0,
            response_time_sum_ms: 0,
            last_minute_requests: Vec::new(),
            start_time: now,
        }
    }

    /// Counts a request: a status code below 400 is a success. Requests that are a minute old or
    /// older leave the list of the last minute.
    pub fn record_request(&mut self, response_time_ms: u64, status_code: u16, now: u64)
        ensures
            final(self)@ == recorded(old(self)@, response_time_ms, status_code, now),
    {
        proof {
            use_type_invariant(&*self);
        }
        let success: u64 = if status_code < 400 {
            self.requests_success.wrapping_add(1)
        } else {
            self.requests_success
        };
        let error: u64 = if status_code < 400 {
            self.requests_error
        } else {
            self.requests_error.wrapping_add(1)
        };
        let mut requests: Vec<u64> = Vec::new();
        std::mem::swap(&mut self.last_minute_requests, &mut requests);
        requests.push(now);
        *self = MetricsCollector {
            requests_total: self.requests_total.wrapping_add(1),
            requests_success: success,
            requests_error: error,
            response_time_sum_ms: self.response_time_sum_ms.wrapping_add(response_time_ms),
            last_minute_requests: window::keep_recent(&requests, now, window::window_of(60)),
            start_time: self.start_time,
        };
    }

    /// The figures so far.
    pub fn get_metrics(&self, now: u64) -> (r: MetricsSnapshot)
        ensures
            r == figures(self@, now),
            r.requests_total == shown(r.requests_success + r.requests_error),
            r.success_rate.denominator > 0,
            r.average_response_time_ms.denominator > 0,
            r.requests_total > 0 ==> r.success_rate.numerator * r.requests_total
                == r.requests_success * r.success_rate.denominator,
            r.requests_total > 0 ==> r.average_response_time_ms.numerator * r.requests_total
                == self@.time_ms * r.average_response_time_ms.denominator,
            r.requests_total == 0 ==> r.success_rate.numerator == 0
                && r.average_response_time_ms.numerator == 0,
            r.requests_per_second.numerator * 60 == self@.last_minute.len()
                * r.requests_per_second.denominator,
            now >= self@.started ==> self@.started + r.uptime_seconds * 1_000_000_000 <= now
                < self@.started + (r.uptime_seconds + 1) * 1_000_000_000,
    {
        proof {
            use_type_invariant(self);
        }
        MetricsSnapshot {
            requests_total: self.requests_total,
            requests_success: self.requests_success,
            requests_error: self.requests_error,
            success_rate: ratio_of(self.requests_success, self.requests_total),
            requests_per_second: Ratio {
                numerator: self.last_minute_requests.len() as u64,
                denominator: 60,
            },
            average_response_time_ms: ratio_of(self.response_time_sum_ms, self.requests_total),
            uptime_seconds: if now >= self.start_time {
                (now - self.start_time) / window::NANOS_PER_SECOND
            } else {
                0
            },
        }
    }

    /// Starts counting again. The time since the start runs on.
    pub fn reset(&mut self)
        ensures
            final(self)@ == (Counts {
                total: 0,
                success: 0,
                error: 0,
                time_ms: 0,
                last_minute: Seq::empty(),
                started: old(self)@.started,
            }),
    {
        *self = MetricsCollector {
            requests_total: 0,
            requests_success: 0,
            requests_error: 0,
            response_time_sum_ms: 0,
            last_minute_requests: Vec::new(),
            start_time: self.start_time,
        };
    }
}

/// A request that was served: the time of the response in milliseconds, its status code, and when
/// it was recorded.
pub struct Served {
    pub time_ms: u64,
    pub status_code: u16,
    pub at: u64,
}

/// The counts after requests were recorded one after the other.
pub open spec fn all_recorded(before: Counts, served: Seq<Served>) -> Counts
    decreases served.len(),
{
    if served.len() == 0 {
        before
    } else {
        let last = served.last();
        recorded(all_recorded(before, served.drop_last()), last.time_ms, last.status_code, last.at)
    }
}

/// How many of the requests were successful.
pub open spec fn successes(served: Seq<Served>) -> nat
    decreases served.len(),
{
    if served.len() == 0 {
        0
    } else {
        successes(served.drop_last()) + if served.last().status_code < 400 {
            1nat
        } else {
            0
        }
    }
}

/// The time of all responses together, in milliseconds.
pub open spec fn time_of_all(served: Seq<Served>) -> nat
    decreases served.len(),
{
    if served.len() == 0 {
        0
    } else {
        time_of_all(served.drop_last()) + served.last().time_ms as nat
    }
}

/// A collector that starts at zero adds up the times of all responses, as long as the sum fits.
pub proof fn times_are_added_up(before: Counts, served: Seq<Served>)
    requires
        before.time_ms == 0,
        time_of_all(served) <= u64::MAX,
    ensures
        all_recorded(before, served).time_ms == time_of_all(served),
    decreases served.len(),
{
    if served.len() > 0 {
        times_are_added_up(before, served.drop_last());
    }
}

/// A collector that starts at zero counts every request once: all of them, and each as a success or
/// as an error, for as many as a counter can count.
pub proof fn requests_are_counted_once(before: Counts, served: Seq<Served>)
    requires
        before.total == 0,
        before.success == 0,
        before.error == 0,
        served.len() <= u64::MAX,
    ensures
        successes(served) <= served.len(),
        all_recorded(before, served).total == served.len(),
        all_recorded(before, served).success == successes(served),
        all_recorded(before, served).error == served.len() - successes(served),
    decreases served.len(),
{
    if served.len() > 0 {
        requests_are_counted_once(before, served.drop_last());
    }
}

/// Starts counting again, and says so.
pub fn reset_metrics_handler(collector: &mut MetricsCollector) -> (r: Response)
    ensures
        final(collector)@ == (Counts {
            total: 0,
            success: 0,
            error: 0,
            time_ms: 0,
            last_minute: Seq::empty(),
            started: old(collector)@.started,
        }),
        r.is_json(
            200,
            json::object_text(
                seq![("message"@, json::JsonField::Text("Metrics reset successfully"@))],
            ),
        ),
{
    collector.reset();
    let writer = ObjectWriter::new().member(
        "message",
        json::text_scalar("Metrics reset successfully"),
    );
    proof {
        assert(writer.members() =~= seq![
            ("message"@, json::JsonField::Text("Metrics reset successfully"@)),
        ]);
    }
    Response::json(StatusCode::new(200), Some(writer.finish()))
}

// ---------------------------------------------------------------------------------------------
// What the figures say
// ---------------------------------------------------------------------------------------------

/// Successful are the requests whose status code is below 400.
pub proof fn successes_are_counted_by_status(served: Seq<Served>)
    ensures
        successes(served) == served.filter(|x: Served| x.status_code < 400).len(),
    decreases served.len(),
{
    reveal(Seq::filter);
    if served.len() > 0 {
        successes_are_counted_by_status(served.drop_last());
    }
}

/// The figures of a collector that starts at zero, for a run of requests as long as the counters
/// hold: how many there were, how many succeeded, their part of all, the time per request, and the
/// seconds since the start.
pub proof fn figures_of_a_run(before: Counts, served: Seq<Served>, now: u64)
    requires
        before.total == 0,
        before.success == 0,
        before.error == 0,
        before.time_ms == 0,
        served.len() <= u64::MAX,
        time_of_all(served) <= u64::MAX,
        now >= before.started,
    ensures
        ({
            let r = figures(all_recorded(before, served), now);
            let good = served.filter(|x: Served| x.status_code < 400).len();
            &&& r.requests_total == served.len()
            &&& r.requests_success == good
            &&& r.requests_error == served.len() - good
            &&& r.success_rate.denominator > 0
            &&& r.success_rate.numerator * served.len() == good * r.success_rate.denominator
            &&& r.average_response_time_ms.denominator > 0
            &&& r.average_response_time_ms.numerator * served.len() == time_of_all(served)
                * r.average_response_time_ms.denominator
            &&& r.uptime_seconds == (now - before.started) / 1_000_000_000
        }),
{
    requests_are_counted_once(before, served);
    times_are_added_up(before, served);
    successes_are_counted_by_status(served);
    lemma_start_stays(before, served);
    let r = figures(all_recorded(before, served), now);
    if served.len() == 0 {
        assert(r.success_rate.numerator == 0);
        assert(time_of_all(served) == 0);
    }
    assert(r.success_rate.numerator * served.len() == served.len() * r.success_rate.numerator)
        by (nonlinear_arith);
    assert(r.average_response_time_ms.numerator * served.len() == served.len()
        * r.average_response_time_ms.numerator) by (nonlinear_arith);
}

proof fn lemma_start_stays(before: Counts, served: Seq<Served>)
    ensures
        all_recorded(before, served).started == before.started,
    decreases served.len(),
{
    if served.len() > 0 {
        lemma_start_stays(before, served.drop_last());
    }
}

/// The time of all responses together grows by the time of each.
pub proof fn each_time_is_added(served: Seq<Served>, next: Served)
    ensures
        time_of_all(served.push(next)) == time_of_all(served) + next.time_ms,
        time_of_all(Seq::empty()) == 0,
{
    assert(served.push(next).drop_last() =~= served);
}

/// The points in time at which requests were recorded.
pub open spec fn recorded_at(served: Seq<Served>) -> Seq<u64> {
    served.map_values(|x: Served| x.at)
}

/// Of requests that come one after the other, those count for the last minute that lie less than a
/// minute before the latest.
pub proof fn the_last_minute_counts(before: Counts, served: Seq<Served>)
    requires
        before.last_minute.len() == 0,
        served.len() > 0,
        window::in_order(recorded_at(served)),
    ensures
        all_recorded(before, served).last_minute == recorded_at(served).filter(
            |t: u64| t + 60 * 1_000_000_000 > served.last().at,
        ),
    decreases served.len(),
{
    let front = served.drop_last();
    let times = recorded_at(served);
    let earlier = recorded_at(front);
    let now = served.last().at;
    let minute = window::seconds_window(60);
    assert(times.drop_last() =~= earlier);
    assert(times.last() == now);
    window::recent_are_those_within(times, now, 60);
    let kept = all_recorded(before, front).last_minute;
    assert(kept.push(now).drop_last() =~= kept);
    if front.len() > 0 {
        assert forall|i: int, j: int| 0 <= i <= j < earlier.len() implies #[trigger] earlier[i]
            <= #[trigger] earlier[j] by {
            assert(times[i] <= times[j]);
        }
        the_last_minute_counts(before, front);
        window::recent_are_those_within(earlier, front.last().at, 60);
        assert(front.last().at <= now) by {
            assert(times[front.len() - 1] <= times[front.len() as int]);
        }
        window::recent_twice(earlier, front.last().at, now, minute);
    } else {
        assert(kept =~= earlier);
    }
    assert(window::recent(kept, now, minute) == window::recent(earlier, now, minute));
    assert(times.filter(|t: u64| t + 60 * 1_000_000_000 > served.last().at) =~= times.filter(
        |t: u64| t + 60u64 * 1_000_000_000 > now,
    ));
}

/// A counter that passes its greatest value starts again at zero: what it shows differs from what it
/// showed and what was added by a multiple of two to the 64.
pub proof fn counters_start_again(n: u64, by: u64)
    ensures
        n + by <= u64::MAX ==> bumped(n, by) == n + by,
        n + by > u64::MAX ==> bumped(n, by) == n + by - 0x1_0000_0000_0000_0000,
{
}

/// One more request is counted as such, and either as a success or as an error, never as both.
pub proof fn one_more_request_is_counted(
    before: Counts,
    response_time_ms: u64,
    status_code: u16,
    now: u64,
)
    requires
        before.total < u64::MAX,
        before.success < u64::MAX,
        before.error < u64::MAX,
        before.time_ms + response_time_ms <= u64::MAX,
    ensures
        ({
            let after = recorded(before, response_time_ms, status_code, now);
            &&& after.total == before.total + 1
            &&& status_code < 400 ==> after.success == before.success + 1 && after.error
                == before.error
            &&& status_code >= 400 ==> after.error == before.error + 1 && after.success
                == before.success
            &&& after.time_ms == before.time_ms + response_time_ms
            &&& after.started == before.started
            &&& after.last_minute == before.last_minute.push(now).filter(
                |t: u64| t + 60 * 1_000_000_000 > now,
            )
        }),
{
    window::recent_are_those_within(before.last_minute.push(now), now, 60);
    let times = before.last_minute.push(now);
    assert(times.filter(|t: u64| t + 60 * 1_000_000_000 > now) =~= times.filter(
        |t: u64| t + 60u64 * 1_000_000_000 > now,
    ));
}

/// The figures at a moment: the requests per second are those of the last minute over sixty, and the
/// uptime is counted in whole seconds from the start; before the start there is none.
pub proof fn figures_of_the_moment(counts: Counts, now: u64)
    requires
        counts.last_minute.len() <= u64::MAX,
    ensures
        ({
            let r = figures(counts, now);
            &&& r.requests_per_second.denominator > 0
            &&& r.requests_per_second.numerator * 60 == counts.last_minute.len()
                * r.requests_per_second.denominator
            &&& now < counts.started ==> r.uptime_seconds == 0
            &&& now >= counts.started ==> r.uptime_seconds * 1_000_000_000 <= now - counts.started
                < (r.uptime_seconds + 1) * 1_000_000_000
            &&& counts.total == 0 ==> r.success_rate.numerator == 0
                && r.average_response_time_ms.numerator == 0
        }),
{
}

} // verus!
