//! A babysitting job: when it may be worked, and what it pays.
use vstd::prelude::*;
use crate::family::{lemma_rate_in_bounds, rate_in, Family};
use crate::hours::{hour_span, hours_worked, is_hour, ScheduleError, TimeRange, HOURS_PER_DAY};

verus! {

/// Both ends of a shift fall within working hours: the end in `[18, 24)` or
/// `[0, 5)`, and the start in `[17, 24)` or `[0, 4)`.
pub open spec fn within_working_hours(start: int, end: int) -> bool {
    &&& (18 <= end < 24 || 0 <= end < 5)
    &&& (17 <= start < 24 || 0 <= start < 4)
}

/// The start comes before the end on the same day, or the shift wraps past
/// midnight into the early morning (end at most 4, start at most 23).
pub open spec fn starts_before_end(start: int, end: int) -> bool {
    start < end || (end <= 4 && start <= 23)
}

/// A shift that may be worked.
pub open spec fn valid_shift(start: int, end: int) -> bool {
    within_working_hours(start, end) && starts_before_end(start, end)
}

/// What `table` pays for `hours`: the sum of each hour's rate.
pub open spec fn pay_for(table: Seq<(TimeRange, u32)>, hours: Seq<int>) -> nat
    decreases hours.len(),
{
    if hours.len() == 0 {
        0
    } else {
        pay_for(table, hours.drop_last()) + rate_in(table, hours.last())
    }
}

/// A shift from a start hour to an end hour. When the end is not after the
/// start, the shift wraps past midnight.
#[derive(Debug, Clone, Copy)]
pub struct BabysittingJob {
    start_time: i32,
    end_time: i32,
}

impl BabysittingJob {
    #[verifier::type_invariant]
    spec fn well_formed(self) -> bool {
        is_hour(self.start_time as int) && is_hour(self.end_time as int)
    }

    /// The hour the shift starts.
    pub closed spec fn start_hour(&self) -> int {
        self.start_time as int
    }

    /// The hour the shift ends (not worked).
    pub closed spec fn end_hour(&self) -> int {
        self.end_time as int
    }

    /// What the shift pays under `family`'s rates.
    pub open spec fn pay(&self, family: &Family) -> nat {
        pay_for(family.table(), hours_worked(self.start_hour(), self.end_hour()))
    }

    /// Builds a job; refused unless both hours are clock hours in `0..24`.
    pub fn new(start_time: i32, end_time: i32) -> (r: Result<BabysittingJob, ScheduleError>)
        ensures
            (is_hour(start_time as int) && is_hour(end_time as int)) <==> r is Ok,
            r matches Ok(j) ==> j.start_hour() == start_time && j.end_hour() == end_time,
            r matches Err(e) ==> e == ScheduleError::HourOutOfRange,
    {
        if 0 <= start_time && start_time < HOURS_PER_DAY && 0 <= end_time && end_time
            < HOURS_PER_DAY {
            Ok(BabysittingJob { start_time, end_time })
        } else {
            Err(ScheduleError::HourOutOfRange)
        }
    }

    /// Whether the shift may be worked: both of the checks below hold.
    pub fn is_valid(&self) -> (r: bool)
        ensures
            r == valid_shift(self.start_hour(), self.end_hour()),
            r == (within_working_hours(self.start_hour(), self.end_hour()) && starts_before_end(
                self.start_hour(),
                self.end_hour(),
            )),
    {
        self.times_within_working_hours() && self.start_time_is_before_end_time()
    }

    /// Whether the start and end hours fall within working hours.
    pub fn times_within_working_hours(&self) -> (r: bool)
        ensures
            r == within_working_hours(self.start_hour(), self.end_hour()),
    {
        ((18 <= self.end_time && self.end_time < 24) || (0 <= self.end_time && self.end_time < 5))
            && ((17 <= self.start_time && self.start_time < 24) || (0 <= self.start_time
            && self.start_time < 4))
    }

    /// Whether the start comes before the end, allowing a wrap into the early
    /// morning.
    pub fn start_time_is_before_end_time(&self) -> (r: bool)
        ensures
            r == starts_before_end(self.start_hour(), self.end_hour()),
    {
        (self.start_time < self.end_time) || (self.end_time <= 4 && self.start_time <= 23)
    }

    /// The total pay for the shift: each hour worked is paid at `family`'s
    /// rate for it, once. The shift's validity is not checked.
    pub fn calculate_pay(&self, family: &Family) -> (r: u64)
        ensures
            r == self.pay(family),
    {
        proof {
            use_type_invariant(self);
        }
        let start = self.start_time;
        let end = self.end_time;
        if start < end {
            assert(Seq::<int>::empty() + hour_span(start as int, end as int) == hour_span(
                start as int,
                end as int,
            ));
            add_span(family, 0, Ghost(Seq::empty()), start, end)
        } else {
            assert(Seq::<int>::empty() + hour_span(start as int, 24) == hour_span(
                start as int,
                24,
            ));
            let evening = add_span(family, 0, Ghost(Seq::empty()), start, HOURS_PER_DAY);
            proof {
                lemma_pay_bounds(family.table(), hour_span(start as int, 24));
            }
            add_span(family, evening, Ghost(hour_span(start as int, 24)), 0, end)
        }
    }

    /// The hour the shift starts.
    pub fn start_time(&self) -> (r: i32)
        ensures
            r == self.start_hour(),
            is_hour(r as int),
    {
        proof {
            use_type_invariant(self);
        }
        self.start_time
    }

    /// The hour the shift ends.
    pub fn end_time(&self) -> (r: i32)
        ensures
            r == self.end_hour(),
            is_hour(r as int),
    {
        proof {
            use_type_invariant(self);
        }
        self.end_time
    }
}

/// Adds the pay for hours `from..to` to `pay`, the pay already owed for `done`.
fn add_span(family: &Family, pay: u64, done: Ghost<Seq<int>>, from: i32, to: i32) -> (r: u64)
    requires
        0 <= from <= to <= 24,
        pay == pay_for(family.table(), done@),
        done@.len() + (to - from) <= 24,
        pay <= done@.len() * 0xffff_ffff,
    ensures
        r == pay_for(family.table(), done@ + hour_span(from as int, to as int)),
{
    let mut total: u64 = pay;
    let mut h: i32 = from;
    while h < to
        invariant
            from <= h <= to,
            to <= 24,
            done@.len() + (to - from) <= 24,
            total == pay_for(family.table(), done@ + hour_span(from as int, h as int)),
            total <= (done@.len() + (h - from)) * 0xffff_ffff,
        decreases to - h,
    {
        let rate = family.rate_at_hour(h);
        proof {
            lemma_rate_in_bounds(family.table(), h as int);
            let before = done@ + hour_span(from as int, h as int);
            let after = done@ + hour_span(from as int, h + 1);
            assert(after.drop_last() == before);
            assert(after.last() == h);
        }
        total = total + rate as u64;
        h = h + 1;
    }
    total
}

/// A job is valid exactly when both of its checks pass.
pub proof fn lemma_valid_iff_both_checks(start: int, end: int)
    ensures
        valid_shift(start, end) <==> (within_working_hours(start, end) && starts_before_end(
            start,
            end,
        )),
{
}

/// Pay is never negative, and is at most the largest rate for each of the at
/// most 24 hours worked.
pub proof fn lemma_pay_bounds(table: Seq<(TimeRange, u32)>, hours: Seq<int>)
    ensures
        0 <= pay_for(table, hours) <= hours.len() * 0xffff_ffff,
    decreases hours.len(),
{
    if hours.len() > 0 {
        lemma_pay_bounds(table, hours.drop_last());
        lemma_rate_in_bounds(table, hours.last());
    }
}

} // verus!
