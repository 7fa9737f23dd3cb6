//! Timestamps in milliseconds and half-open time ranges.

use vstd::prelude::*;

verus! {

/// A point in time, in milliseconds since the epoch.
#[derive(Clone, Copy, Debug, PartialEq, Eq, Structural)]
pub struct Timestamp(pub i64);

/// Start of the segment bucket that holds `t`, for buckets of width `segment`:
/// the greatest multiple of `segment` that is not above `t`.
pub open spec fn bucket_start(t: int, segment: int) -> int {
    (t / segment) * segment
}

/// The bucket of `t` starts at or before `t` and less than one segment before it.
pub proof fn lemma_bucket_start_bounds(t: int, segment: int)
    requires
        segment > 0,
    ensures
        bucket_start(t, segment) <= t < bucket_start(t, segment) + segment,
        bucket_start(t, segment) == t - t % segment,
        bucket_start(t, segment) % segment == 0,
{
    vstd::arithmetic::div_mod::lemma_fundamental_div_mod(t, segment);
    vstd::arithmetic::div_mod::lemma_mod_bound(t, segment);
    assert(segment * (t / segment) == (t / segment) * segment) by (nonlinear_arith);
    vstd::arithmetic::div_mod::lemma_mod_multiples_basic(t / segment, segment);
}

/// Two timestamps lie in the same bucket exactly when their buckets start at
/// the same point; a bucket start is its own bucket start.
pub proof fn lemma_bucket_start_idempotent(t: int, segment: int)
    requires
        segment > 0,
    ensures
        bucket_start(bucket_start(t, segment), segment) == bucket_start(t, segment),
{
    let q = t / segment;
    vstd::arithmetic::div_mod::lemma_div_multiples_vanish(q, segment);
}

/// The quotient by a positive segment lies between the timestamp and zero.
pub proof fn lemma_quotient_bounds(t: int, segment: int)
    requires
        segment > 0,
    ensures
        t >= 0 ==> 0 <= t / segment <= t,
        t < 0 ==> t <= t / segment < 0,
{
    vstd::arithmetic::div_mod::lemma_fundamental_div_mod(t, segment);
    vstd::arithmetic::div_mod::lemma_mod_bound(t, segment);
    let q = t / segment;
    let r = t % segment;
    assert(t == segment * q + r);
    if t >= 0 {
        if q < 0 {
            assert(segment * q <= -segment) by (nonlinear_arith)
                requires
                    q <= -1,
                    segment > 0,
            ;
        }
        if q > t {
            assert(segment * q >= q) by (nonlinear_arith)
                requires
                    q > 0,
                    segment >= 1,
            ;
        }
    } else {
        if q >= 0 {
            assert(segment * q >= 0) by (nonlinear_arith)
                requires
                    q >= 0,
                    segment > 0,
            ;
        }
        if q < t {
            assert(segment * q <= segment * t - segment) by (nonlinear_arith)
                requires
                    q <= t - 1,
                    segment >= 1,
            ;
            assert(segment * t <= t) by (nonlinear_arith)
                requires
                    t < 0,
                    segment >= 1,
            ;
        }
    }
}

impl Timestamp {
    pub fn new(millis: i64) -> (t: Timestamp)
        ensures
            t.0 == millis,
    {
        Timestamp(millis)
    }

    /// The earliest timestamp.
    pub fn min_value() -> (t: Timestamp)
        ensures
            t.0 == i64::MIN,
    {
        Timestamp(i64::MIN)
    }

    /// The latest timestamp.
    pub fn max_value() -> (t: Timestamp)
        ensures
            t.0 == i64::MAX,
    {
        Timestamp(i64::MAX)
    }

    pub fn as_i64(&self) -> (millis: i64)
        ensures
            millis == self.0,
    {
        self.0
    }

    /// Aligns the timestamp down to the start of its segment bucket. `None`
    /// when that start lies before the earliest timestamp.
    pub fn truncate_by(&self, segment_millis: i64) -> (aligned: Option<Timestamp>)
        requires
            segment_millis > 0,
        ensures
            match aligned {
                Some(t) => t.0 == bucket_start(self.0 as int, segment_millis as int),
                None => bucket_start(self.0 as int, segment_millis as int) < i64::MIN,
            },
    {
        proof {
            lemma_bucket_start_bounds(self.0 as int, segment_millis as int);
        }
        match self.0.checked_rem_euclid(segment_millis) {
            Some(rem) => match self.0.checked_sub(rem) {
                Some(start) => Some(Timestamp(start)),
                None => None,
            },
            None => None,
        }
    }

    /// Number of the segment bucket that holds the timestamp, counted from the
    /// bucket that starts at the epoch.
    pub fn bucket_index(&self, segment_millis: i64) -> (index: i64)
        requires
            segment_millis > 0,
        ensures
            index == self.0 as int / segment_millis as int,
            index * segment_millis == bucket_start(self.0 as int, segment_millis as int),
    {
        proof {
            lemma_quotient_bounds(self.0 as int, segment_millis as int);
        }
        match self.0.checked_div_euclid(segment_millis) {
            Some(q) => q,
            None => 0,
        }
    }

    /// `self - millis`, or the earliest timestamp where that would underflow.
    pub fn saturating_sub_millis(&self, millis: i64) -> (t: Timestamp)
        requires
            millis >= 0,
        ensures
            t.0 == if self.0 - millis < i64::MIN { i64::MIN as int } else { self.0 - millis },
    {
        match self.0.checked_sub(millis) {
            Some(v) => Timestamp(v),
            None => Timestamp(i64::MIN),
        }
    }
}

/// A time range `[inclusive_start, exclusive_end)`.
#[derive(Clone, Copy, Debug, PartialEq, Eq, Structural)]
pub struct TimeRange {
    pub inclusive_start: Timestamp,
    pub exclusive_end: Timestamp,
}

impl TimeRange {
    /// A range is well formed when it does not end before it starts.
    pub open spec fn wf(self) -> bool {
        self.inclusive_start.0 <= self.exclusive_end.0
    }

    /// The timestamp lies in the range.
    pub open spec fn spec_contains(self, t: Timestamp) -> bool {
        self.inclusive_start.0 <= t.0 < self.exclusive_end.0
    }

    /// The two ranges share a point of the time line that neither excludes by
    /// its bounds.
    pub open spec fn spec_intersect_with(self, other: TimeRange) -> bool {
        self.inclusive_start.0 < other.exclusive_end.0 && other.inclusive_start.0
            < self.exclusive_end.0
    }

    /// The range ends at or before the expiry point, if there is one.
    pub open spec fn spec_is_expired(self, expire_time: Option<Timestamp>) -> bool {
        match expire_time {
            Some(t) => self.exclusive_end.0 <= t.0,
            None => false,
        }
    }

    /// The range from `inclusive_start` to `exclusive_end`, unless it would end
    /// before it starts.
    pub fn new(inclusive_start: Timestamp, exclusive_end: Timestamp) -> (r: Option<TimeRange>)
        ensures
            inclusive_start.0 <= exclusive_end.0 ==> r == Some(
                (TimeRange { inclusive_start, exclusive_end }),
            ),
            inclusive_start.0 > exclusive_end.0 ==> r.is_none(),
    {
        if inclusive_start.0 <= exclusive_end.0 {
            Some(TimeRange { inclusive_start, exclusive_end })
        } else {
            None
        }
    }

    /// The range that covers every timestamp but the latest.
    pub fn min_to_max() -> (r: TimeRange)
        ensures
            r.inclusive_start.0 == i64::MIN,
            r.exclusive_end.0 == i64::MAX,
            r.wf(),
    {
        TimeRange { inclusive_start: Timestamp(i64::MIN), exclusive_end: Timestamp(i64::MAX) }
    }

    /// The segment bucket that holds `t`. `None` when the bucket does not fit
    /// between the earliest and the latest timestamp.
    pub fn bucket_of(t: Timestamp, segment_millis: i64) -> (r: Option<TimeRange>)
        requires
            segment_millis > 0,
        ensures
            match r {
                Some(range) => {
                    &&& range.inclusive_start.0 == bucket_start(t.0 as int, segment_millis as int)
                    &&& range.exclusive_end.0 == range.inclusive_start.0 + segment_millis
                    &&& range.spec_contains(t)
                },
                None => bucket_start(t.0 as int, segment_millis as int) < i64::MIN
                    || bucket_start(t.0 as int, segment_millis as int) + segment_millis
                    > i64::MAX,
            },
    {
        proof {
            lemma_bucket_start_bounds(t.0 as int, segment_millis as int);
        }
        match t.truncate_by(segment_millis) {
            Some(start) => match start.0.checked_add(segment_millis) {
                Some(end) => Some(TimeRange { inclusive_start: start,
                    exclusive_end: Timestamp(end) }),
                None => None,
            },
            None => None,
        }
    }

    pub fn inclusive_start(&self) -> (t: Timestamp)
        ensures
            t == self.inclusive_start,
    {
        self.inclusive_start
    }

    pub fn exclusive_end(&self) -> (t: Timestamp)
        ensures
            t == self.exclusive_end,
    {
        self.exclusive_end
    }

    pub fn contains(&self, t: Timestamp) -> (b: bool)
        ensures
            b == self.spec_contains(t),
    {
        self.inclusive_start.0 <= t.0 && t.0 < self.exclusive_end.0
    }

    pub fn intersect_with(&self, other: TimeRange) -> (b: bool)
        ensures
            b == self.spec_intersect_with(other),
    {
        self.inclusive_start.0 < other.exclusive_end.0 && other.inclusive_start.0
            < self.exclusive_end.0
    }

    pub fn is_expired(&self, expire_time: Option<Timestamp>) -> (b: bool)
        ensures
            b == self.spec_is_expired(expire_time),
    {
        match expire_time {
            Some(t) => self.exclusive_end.0 <= t.0,
            None => false,
        }
    }
}

/// A point of a range that intersects another lies, for one of the two, in both:
/// two ranges that share a timestamp intersect.
pub proof fn lemma_shared_point_intersects(a: TimeRange, b: TimeRange, t: Timestamp)
    requires
        a.spec_contains(t),
        b.spec_contains(t),
    ensures
        a.spec_intersect_with(b),
{
}

/// A range that has expired at `expire` shares no point with a range that
/// starts at or after `expire`.
pub proof fn lemma_expired_never_intersects(file: TimeRange, expire: Timestamp, read: TimeRange)
    requires
        file.spec_is_expired(Some(expire)),
        expire.0 <= read.inclusive_start.0,
    ensures
        !file.spec_intersect_with(read),
{
}

} // verus!
