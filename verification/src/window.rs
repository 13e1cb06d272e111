//! Points on a monotonic clock, in nanoseconds, and those of them that lie within a time window.

use vstd::prelude::*;

verus! {

/// The nanoseconds of one second.
pub const NANOS_PER_SECOND: u64 = 1_000_000_000;

/// Whether a point in time lies within the window that ends now. The window is open at its start.
pub open spec fn within(time: u64, now: u64, window: nat) -> bool {
    time + window > now
}

/// Those points that lie within the window, in their order.
pub open spec fn recent(times: Seq<u64>, now: u64, window: nat) -> Seq<u64>
    decreases times.len(),
{
    if times.len() == 0 {
        Seq::empty()
    } else {
        let before = recent(times.drop_last(), now, window);
        if within(times.last(), now, window) {
            before.push(times.last())
        } else {
            before
        }
    }
}

/// The length of a window of whole seconds.
pub open spec fn seconds_window(seconds: u64) -> nat {
    (seconds * NANOS_PER_SECOND) as nat
}

/// The nanoseconds of a number of seconds.
pub fn window_of(seconds: u64) -> (r: u128)
    ensures
        r == seconds_window(seconds),
{
    proof {
        assert(seconds as u128 * 1_000_000_000 <= u64::MAX as u128 * 1_000_000_000)
            by (nonlinear_arith)
            requires
                seconds <= u64::MAX,
        ;
    }
    seconds as u128 * NANOS_PER_SECOND as u128
}

/// Keeps the points that lie within the window.
pub fn keep_recent(times: &Vec<u64>, now: u64, window: u128) -> (r: Vec<u64>)
    requires
        window <= u64::MAX * NANOS_PER_SECOND,
    ensures
        r@ == recent(times@, now, window as nat),
{
    let mut kept: Vec<u64> = Vec::new();
    let mut i: usize = 0;
    while i < times.len()
        invariant
            i <= times@.len(),
            window <= u64::MAX * NANOS_PER_SECOND,
            kept@ == recent(times@.take(i as int), now, window as nat),
        decreases times@.len() - i,
    {
        proof {
            assert(times@.take(i + 1).drop_last() =~= times@.take(i as int));
        }
        if times[i] as u128 + window > now as u128 {
            kept.push(times[i]);
        }
        i = i + 1;
    }
    proof {
        assert(times@.take(times@.len() as int) =~= times@);
    }
    kept
}

/// Whether points in time come one after the other.
pub open spec fn in_order(times: Seq<u64>) -> bool {
    forall|i: int, j: int| 0 <= i <= j < times.len() ==> #[trigger] times[i] <= #[trigger] times[j]
}

/// Of points that come one after the other, those within the window are the last ones.
pub proof fn recent_are_the_last(times: Seq<u64>, now: u64, window: nat)
    requires
        in_order(times),
    ensures
        recent(times, now, window).len() <= times.len(),
        recent(times, now, window) == times.skip(times.len() - recent(times, now, window).len()),
        forall|i: int|
            0 <= i < times.len() ==> (within(#[trigger] times[i], now, window) <==> i >= times.len()
                - recent(times, now, window).len()),
    decreases times.len(),
{
    if times.len() > 0 {
        let front = times.drop_last();
        recent_are_the_last(front, now, window);
        let kept = recent(front, now, window);
        let all = recent(times, now, window);
        if within(times.last(), now, window) {
            assert(all =~= times.skip(times.len() - all.len()));
        } else {
            if kept.len() > 0 {
                let i = front.len() - 1;
                assert(within(front[i], now, window));
                assert(times[i] <= times[times.len() - 1]);
            }
            assert(all =~= times.skip(times.len() - all.len()));
        }
        assert forall|i: int| 0 <= i < times.len() implies (within(#[trigger] times[i], now, window)
            <==> i >= times.len() - all.len()) by {
            if i < front.len() {
                assert(front[i] == times[i]);
            }
        }
    } else {
        assert(recent(times, now, window) =~= times.skip(0));
    }
}

/// What lies within a window of seconds are the points that the length of the window, counted in
/// nanoseconds, takes past now, in their order.
pub proof fn recent_are_those_within(times: Seq<u64>, now: u64, seconds: u64)
    ensures
        recent(times, now, seconds_window(seconds)) == times.filter(
            |t: u64| t + seconds * 1_000_000_000 > now,
        ),
    decreases times.len(),
{
    reveal(Seq::filter);
    if times.len() > 0 {
        recent_are_those_within(times.drop_last(), now, seconds);
    }
}

/// What lies within a window that ends later is found among what lies within one that ends
/// earlier.
pub proof fn recent_twice(times: Seq<u64>, now: u64, later: u64, window: nat)
    requires
        now <= later,
    ensures
        recent(recent(times, now, window), later, window) == recent(times, later, window),
    decreases times.len(),
{
    if times.len() > 0 {
        let front = times.drop_last();
        recent_twice(front, now, later, window);
        let kept = recent(front, now, window);
        if within(times.last(), now, window) {
            assert(kept.push(times.last()).drop_last() =~= kept);
        }
    }
}

} // verus!
