//! Clock hours, half-open hour ranges, and the hours a shift covers.
use vstd::prelude::*;

verus! {

/// Number of clock hours in a day; hours are `0..HOURS_PER_DAY`.
pub const HOURS_PER_DAY: i32 = 24;

/// Why a value was refused.
#[derive(Debug, Clone, Copy, PartialEq, Eq, Structural)]
pub enum ScheduleError {
    /// An hour outside `0..24`.
    HourOutOfRange,
    /// A range whose bounds leave `0..=24`, or whose start is not before its end.
    InvalidRange,
}

/// A clock hour: an integer in `[0, 24)`.
pub open spec fn is_hour(h: int) -> bool {
    0 <= h < 24
}

/// The bounds of a well-formed range: `0 <= start < end <= 24`.
pub open spec fn is_range(start: int, end: int) -> bool {
    0 <= start && start < end && end <= 24
}

/// A half-open interval `[start, end)` of clock hours that does not wrap
/// past midnight.
#[derive(Debug, Clone, Copy)]
pub struct TimeRange {
    start: i32,
    end: i32,
}

impl TimeRange {
    #[verifier::type_invariant]
    spec fn well_formed(self) -> bool {
        is_range(self.start as int, self.end as int)
    }

    /// First hour in the range.
    pub closed spec fn lo(&self) -> int {
        self.start as int
    }

    /// First hour after the range.
    pub closed spec fn hi(&self) -> int {
        self.end as int
    }

    /// Whether hour `h` lies in `[lo, hi)`.
    pub open spec fn covers(&self, h: int) -> bool {
        self.lo() <= h && h < self.hi()
    }

    /// Builds `[start, end)`; refused unless `0 <= start < end <= 24`.
    pub fn new(start: i32, end: i32) -> (r: Result<TimeRange, ScheduleError>)
        ensures
            is_range(start as int, end as int) <==> r is Ok,
            r matches Ok(t) ==> t.lo() == start && t.hi() == end,
            !is_range(start as int, end as int) ==> r == Err::<TimeRange, ScheduleError>(
                ScheduleError::InvalidRange,
            ),
    {
        if 0 <= start && start < end && end <= HOURS_PER_DAY {
            Ok(TimeRange { start, end })
        } else {
            Err(ScheduleError::InvalidRange)
        }
    }

    /// Whether `hour` lies in the range.
    pub fn contains(&self, hour: i32) -> (r: bool)
        ensures
            r == self.covers(hour as int),
    {
        self.start <= hour && hour < self.end
    }

    /// First hour in the range.
    pub fn start(&self) -> (r: i32)
        ensures
            r == self.lo(),
            is_range(self.lo(), self.hi()),
    {
        proof {
            use_type_invariant(self);
        }
        self.start
    }

    /// First hour after the range.
    pub fn end(&self) -> (r: i32)
        ensures
            r == self.hi(),
            is_range(self.lo(), self.hi()),
    {
        proof {
            use_type_invariant(self);
        }
        self.end
    }
}

/// The hours `a, a+1, ..., b-1`, in order (empty when `b <= a`).
pub open spec fn hour_span(a: int, b: int) -> Seq<int> {
    Seq::new(if a < b { (b - a) as nat } else { 0 }, |i: int| a + i)
}

/// The hours worked by a shift from `start` to `end`, in the order they are
/// worked: `[start, end)` when `start < end`, otherwise `[start, 24)` followed
/// by `[0, end)`.
pub open spec fn hours_worked(start: int, end: int) -> Seq<int> {
    if start < end {
        hour_span(start, end)
    } else {
        hour_span(start, 24) + hour_span(0, end)
    }
}

/// Whether hour `h` falls within a shift from `start` to `end`.
pub open spec fn in_shift(start: int, end: int, h: int) -> bool {
    if start < end {
        start <= h && h < end
    } else {
        (start <= h && h < 24) || (0 <= h && h < end)
    }
}

/// Every shift between two clock hours works each hour it covers exactly
/// once: the hours worked are distinct clock hours, they are exactly the hours
/// that the shift covers, and there are `end - start` of them when
/// `start < end`, `(24 - start) + end` otherwise.
pub proof fn lemma_hours_worked_exact(start: int, end: int)
    requires
        is_hour(start),
        is_hour(end),
    ensures
        hours_worked(start, end).len() == if start < end {
            end - start
        } else {
            (24 - start) + end
        },
        hours_worked(start, end).no_duplicates(),
        forall|i: int|
            0 <= i < hours_worked(start, end).len() ==> is_hour(
                #[trigger] hours_worked(start, end)[i],
            ),
        forall|h: int| #[trigger]
            hours_worked(start, end).contains(h) <==> in_shift(start, end, h),
{
    let w = hours_worked(start, end);
    if start < end {
        assert forall|h: int| in_shift(start, end, h) implies w.contains(h) by {
            assert(w[h - start] == h);
        }
    } else {
        let a = hour_span(start, 24);
        let b = hour_span(0, end);
        assert forall|i: int| 0 <= i < w.len() implies (w[i] == if i < a.len() {
            a[i]
        } else {
            b[i - a.len()]
        }) by {}
        assert forall|h: int| in_shift(start, end, h) implies w.contains(h) by {
            if start <= h {
                assert(w[h - start] == h);
            } else {
                assert(w[a.len() + h] == h);
            }
        }
    }
}

} // verus!
