//! A family and its rate table.
use vstd::prelude::*;
use crate::hours::{is_hour, ScheduleError, TimeRange, HOURS_PER_DAY};

verus! {

/// The rate that `table` gives hour `h`: the rate of the last entry whose
/// range covers `h`, or 0 when no entry covers it.
pub open spec fn rate_in(table: Seq<(TimeRange, u32)>, h: int) -> nat
    decreases table.len(),
{
    if table.len() == 0 {
        0
    } else if table.last().0.covers(h) {
        table.last().1 as nat
    } else {
        rate_in(table.drop_last(), h)
    }
}

/// A family: a name and an ordered table of hour ranges with their hourly
/// rates. Where ranges overlap, the later entry wins.
pub struct Family {
    name: String,
    rates: Vec<(TimeRange, u32)>,
}

impl Family {
    /// The rate table, in order.
    pub closed spec fn table(&self) -> Seq<(TimeRange, u32)> {
        self.rates@
    }

    /// The family's name.
    pub closed spec fn label(&self) -> Seq<char> {
        self.name@
    }

    /// The rate this family pays for hour `h`.
    pub open spec fn rate_at(&self, h: int) -> nat {
        rate_in(self.table(), h)
    }

    /// Builds a family from its name and its rate table.
    pub fn new(name: String, rates: Vec<(TimeRange, u32)>) -> (r: Family)
        ensures
            r.label() == name@,
            r.table() == rates@,
    {
        Family { name, rates }
    }

    /// The family's name.
    pub fn name(&self) -> (r: &str)
        ensures
            r@ == self.label(),
    {
        self.name.as_str()
    }

    /// The rate for a clock hour, which the caller has checked.
    pub(crate) fn rate_at_hour(&self, hour: i32) -> (r: u32)
        ensures
            r == self.rate_at(hour as int),
    {
        let mut rate: u32 = 0;
        let mut i: usize = 0;
        while i < self.rates.len()
            invariant
                i <= self.rates@.len(),
                rate == rate_in(self.rates@.take(i as int), hour as int),
            decreases self.rates@.len() - i,
        {
            let entry = &self.rates[i];
            assert(self.rates@.take(i + 1).drop_last() == self.rates@.take(i as int));
            if entry.0.contains(hour) {
                rate = entry.1;
            }
            i = i + 1;
        }
        assert(self.rates@.take(i as int) == self.rates@);
        rate
    }

    /// The rate for `hour`: that of the last entry whose range contains it,
    /// or 0 when none does. An hour outside `0..24` is refused.
    pub fn rate_for_hour(&self, hour: i32) -> (r: Result<u32, ScheduleError>)
        ensures
            is_hour(hour as int) ==> (r matches Ok(v) && v == self.rate_at(hour as int)),
            !is_hour(hour as int) ==> r == Err::<u32, ScheduleError>(
                ScheduleError::HourOutOfRange,
            ),
    {
        if 0 <= hour && hour < HOURS_PER_DAY {
            Ok(self.rate_at_hour(hour))
        } else {
            Err(ScheduleError::HourOutOfRange)
        }
    }
}

/// An hour that no entry of the table covers is paid nothing.
pub proof fn lemma_uncovered_hour_pays_nothing(family: &Family, h: int)
    requires
        forall|i: int| 0 <= i < family.table().len() ==> !(#[trigger] family.table()[i]).0.covers(h),
    ensures
        family.rate_at(h) == 0,
{
    lemma_uncovered_rate_in(family.table(), h);
}

proof fn lemma_uncovered_rate_in(table: Seq<(TimeRange, u32)>, h: int)
    requires
        forall|i: int| 0 <= i < table.len() ==> !(#[trigger] table[i]).0.covers(h),
    ensures
        rate_in(table, h) == 0,
    decreases table.len(),
{
    if table.len() > 0 {
        let rest = table.drop_last();
        assert forall|i: int| 0 <= i < rest.len() implies !(#[trigger] rest[i]).0.covers(h) by {
            assert(rest[i] == table[i]);
        }
        lemma_uncovered_rate_in(rest, h);
    }
}

/// A rate looked up in a table is never negative, and never more than the
/// largest rate the table can hold.
pub proof fn lemma_rate_in_bounds(table: Seq<(TimeRange, u32)>, h: int)
    ensures
        0 <= rate_in(table, h) <= u32::MAX,
    decreases table.len(),
{
    if table.len() > 0 {
        lemma_rate_in_bounds(table.drop_last(), h);
    }
}

} // verus!
