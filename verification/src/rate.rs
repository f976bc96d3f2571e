//! The input rate limiter: a bucket that refills with time.

use vstd::prelude::*;

use crate::error;
use crate::error::{ControllerError, ErrorCode};
use crate::text;
use crate::text::format_decimal;

verus! {

/// The parts of an event that refill in one nanosecond at one event per second
/// make up a whole event in this number.
pub const PARTS: u64 = 1_000_000_000;

/// Admits input events up to a rate, with bursts of up to one second's events.
///
/// `parts` holds what may still be spent, in billionths of an event, and
/// `refilled_at` the time of the last refill in nanoseconds.
#[derive(Debug)]
pub struct RateLimiter {
    rate: u32,
    parts: u64,
    refilled_at: u64,
}

/// The state of a limiter.
pub struct Bucket {
    pub rate: int,
    pub parts: int,
    pub refilled_at: int,
}

impl Bucket {
    /// What the bucket holds when full.
    pub open spec fn full(self) -> int {
        self.rate * PARTS
    }

    /// The bucket at a later time.
    pub open spec fn refilled(self, now: int) -> Bucket {
        let elapsed = if now > self.refilled_at {
            now - self.refilled_at
        } else {
            0
        };
        let parts = self.parts + elapsed * self.rate;
        Bucket {
            parts: if parts < self.full() {
                parts
            } else {
                self.full()
            },
            refilled_at: now,
            ..self
        }
    }

    /// Whether the bucket admits this many events at a time.
    pub open spec fn admits(self, count: int, now: int) -> bool {
        self.refilled(now).parts >= count * PARTS
    }

    /// The bucket after a request for events.
    pub open spec fn after(self, count: int, now: int) -> Bucket {
        let later = self.refilled(now);
        if self.admits(count, now) {
            Bucket { parts: later.parts - count * PARTS, ..later }
        } else {
            later
        }
    }

    /// Whether the bucket is one that a limiter can be in.
    pub open spec fn valid(self) -> bool {
        &&& self.rate >= 1
        &&& 0 <= self.parts <= self.full()
    }
}

/// What is said of events that are refused.
pub open spec fn refusal(count: int, rate: int) -> Seq<char> {
    "operation needs "@ + text::decimal(count as nat) + " input events; limit is "@
        + text::decimal(rate as nat) + " events per second"@
}

impl View for RateLimiter {
    type V = Bucket;

    closed spec fn view(&self) -> Bucket {
        Bucket {
            rate: self.rate as int,
            parts: self.parts as int,
            refilled_at: self.refilled_at as int,
        }
    }
}

impl RateLimiter {
    /// Whether the limiter holds no more than it may.
    pub open spec fn well_formed(&self) -> bool {
        self@.valid() && self@.rate <= u32::MAX
    }

    /// A full limiter. The rate is at least one event per second.
    pub fn new(rate: u32, now: u64) -> (limiter: Self)
        ensures
            limiter.well_formed(),
            limiter@.rate == (if rate == 0 {
                1
            } else {
                rate as int
            }),
            limiter@.parts == limiter@.full(),
            limiter@.refilled_at == now,
    {
        let rate: u32 = if rate == 0 {
            1
        } else {
            rate
        };
        RateLimiter { rate, parts: rate as u64 * PARTS, refilled_at: now }
    }

    /// Spends this many events, or refuses them all.
    pub fn consume(&mut self, count: u32, now: u64) -> (result: Result<(), ControllerError>)
        requires
            old(self).well_formed(),
        ensures
            final(self).well_formed(),
            final(self)@ == old(self)@.after(count as int, now as int),
            match result {
                Ok(()) => old(self)@.admits(count as int, now as int),
                Err(e) => !old(self)@.admits(count as int, now as int) && error::retry_error(
                    e,
                    ErrorCode::RateLimited,
                    refusal(count as int, old(self)@.rate),
                ),
            },
    {
        let elapsed: u64 = if now > self.refilled_at {
            now - self.refilled_at
        } else {
            0
        };
        assert(elapsed * self.rate <= u64::MAX * u32::MAX) by (nonlinear_arith)
            requires
                elapsed <= u64::MAX,
                self.rate <= u32::MAX,
        ;
        assert(0 <= elapsed * self.rate) by (nonlinear_arith);
        let full: u64 = self.rate as u64 * PARTS;
        let parts: u128 = self.parts as u128 + elapsed as u128 * self.rate as u128;
        let parts: u64 = if parts < full as u128 {
            parts as u64
        } else {
            full
        };
        self.refilled_at = now;
        let wanted: u64 = count as u64 * PARTS;
        if parts < wanted {
            self.parts = parts;
            let message = "operation needs ".to_owned().concat(
                format_decimal(count as u64).as_str(),
            ).concat(" input events; limit is ").concat(
                format_decimal(self.rate as u64).as_str(),
            ).concat(" events per second");
            return Err(
                ControllerError::new(ErrorCode::RateLimited, message.as_str()).retryable(true),
            );
        }
        self.parts = parts - wanted;
        Ok(())
    }
}

/// A bucket after requests, each with a count and a time.
pub open spec fn after_all(bucket: Bucket, requests: Seq<(int, int)>) -> Bucket
    decreases requests.len(),
{
    if requests.len() == 0 {
        bucket
    } else {
        let (count, now) = requests.last();
        after_all(bucket, requests.drop_last()).after(count, now)
    }
}

/// How many events of some requests a bucket admits.
pub open spec fn admitted(bucket: Bucket, requests: Seq<(int, int)>) -> int
    decreases requests.len(),
{
    if requests.len() == 0 {
        0
    } else {
        let (count, now) = requests.last();
        let before = after_all(bucket, requests.drop_last());
        admitted(bucket, requests.drop_last()) + (if before.admits(count, now) {
            count
        } else {
            0
        })
    }
}

/// Whether no request comes before an earlier one.
pub open spec fn in_order(start: int, requests: Seq<(int, int)>) -> bool {
    &&& forall|i: int| 0 <= i < requests.len() ==> start <= (#[trigger] requests[i]).1
    &&& forall|i: int, j: int| 0 <= i <= j < requests.len() ==> requests[i].1 <= requests[j].1
}

/// What is admitted never exceeds what the bucket held and what refilled
/// since: in any stretch of time, one second's events and those of the
/// stretch.
pub proof fn rate_is_limited(bucket: Bucket, requests: Seq<(int, int)>)
    requires
        bucket.valid(),
        in_order(bucket.refilled_at, requests),
        forall|i: int| 0 <= i < requests.len() ==> (#[trigger] requests[i]).0 >= 0,
    ensures
        after_all(bucket, requests).valid(),
        after_all(bucket, requests).rate == bucket.rate,
        admitted(bucket, requests) * PARTS <= bucket.parts + bucket.rate * (after_all(
            bucket,
            requests,
        ).refilled_at - bucket.refilled_at),
        admitted(bucket, requests) * PARTS <= bucket.full() + bucket.rate * (after_all(
            bucket,
            requests,
        ).refilled_at - bucket.refilled_at),
{
    lemma_spent(bucket, requests);
}

/// What was admitted and what is left come from what was there and what refilled.
proof fn lemma_spent(bucket: Bucket, requests: Seq<(int, int)>)
    requires
        bucket.valid(),
        in_order(bucket.refilled_at, requests),
        forall|i: int| 0 <= i < requests.len() ==> (#[trigger] requests[i]).0 >= 0,
    ensures
        after_all(bucket, requests).valid(),
        after_all(bucket, requests).rate == bucket.rate,
        requests.len() > 0 ==> after_all(bucket, requests).refilled_at == requests.last().1,
        requests.len() == 0 ==> after_all(bucket, requests) == bucket,
        admitted(bucket, requests) * PARTS + after_all(bucket, requests).parts <= bucket.parts
            + bucket.rate * (after_all(bucket, requests).refilled_at - bucket.refilled_at),
    decreases requests.len(),
{
    if requests.len() > 0 {
        let rest = requests.drop_last();
        let (count, now) = requests.last();
        lemma_spent(bucket, rest);
        let before = after_all(bucket, rest);
        assert(before.refilled_at <= now) by {
            if rest.len() > 0 {
                assert(rest.last() == requests[requests.len() - 2]);
            }
        }
        let elapsed = now - before.refilled_at;
        assert(elapsed * before.rate >= 0) by (nonlinear_arith)
            requires
                elapsed >= 0,
                before.rate >= 0,
        ;
        assert(bucket.rate * (now - bucket.refilled_at) == bucket.rate * (before.refilled_at
            - bucket.refilled_at) + elapsed * bucket.rate) by (nonlinear_arith)
            requires
                elapsed == now - before.refilled_at,
        ;
    } else {
        assert(bucket.rate * 0 == 0) by (nonlinear_arith);
    }
}

/// A full limiter admits one second's events at once and not one more; it is
/// full again after a second. Refused events cost nothing, admitted ones cost
/// themselves, and what refills is the rate times the time, up to full.
pub proof fn bursts_are_one_seconds_events(bucket: Bucket, count: int, now: int)
    requires
        bucket.valid(),
        0 <= count,
        bucket.refilled_at <= now,
    ensures
        bucket.parts == bucket.rate * 1_000_000_000 ==> (bucket.admits(count, now) <==> count
            <= bucket.rate),
        now - bucket.refilled_at >= 1_000_000_000 ==> (bucket.admits(count, now) <==> count
            <= bucket.rate),
        !bucket.admits(count, now) ==> bucket.after(count, now) == bucket.refilled(now),
        bucket.admits(count, now) ==> bucket.after(count, now).parts + count * 1_000_000_000
            == bucket.refilled(now).parts,
        bucket.after(count, now).rate == bucket.rate && bucket.after(count, now).refilled_at == now,
        ({
            let gained = bucket.refilled(now).parts - bucket.parts;
            let due = (now - bucket.refilled_at) * bucket.rate;
            gained == due || (gained < due && bucket.refilled(now).parts == bucket.rate
                * 1_000_000_000)
        }),
{
    let elapsed = now - bucket.refilled_at;
    assert(0 <= elapsed * bucket.rate) by (nonlinear_arith)
        requires
            0 <= elapsed,
            1 <= bucket.rate,
    ;
    if elapsed >= 1_000_000_000 {
        assert(elapsed * bucket.rate >= 1_000_000_000 * bucket.rate) by (nonlinear_arith)
            requires
                elapsed >= 1_000_000_000,
                1 <= bucket.rate,
        ;
    }
}

/// A new limiter is full, at the given rate or at one event per second where
/// none is given, and a request is granted exactly where the limiter admits it.
pub proof fn limiters_start_full(
    rate: u32,
    now: u64,
    limiter: RateLimiter,
    used: &mut RateLimiter,
    count: u32,
    result: Result<(), ControllerError>,
)
    requires
        call_ensures(RateLimiter::new, (rate, now), limiter),
        call_ensures(RateLimiter::consume, (used, count, now), result),
    ensures
        rate > 0 ==> limiter@.rate == rate,
        rate == 0 ==> limiter@.rate == 1,
        limiter@.parts == limiter@.rate * 1_000_000_000 && limiter@.refilled_at == now,
        result is Ok <==> old(used)@.admits(count as int, now as int),
        final(used)@ == old(used)@.after(count as int, now as int),
        result is Err ==> result->Err_0.code == ErrorCode::RateLimited && result->Err_0.retryable,
{
}

} // verus!
