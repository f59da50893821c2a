//! Whether locally stored intraday data covers a requested date range.
use vstd::prelude::*;
use crate::calendar::Date;

verus! {

/// A stored series may end this many days before the requested end and
/// still count as covering it.
pub const FRESHNESS_DAYS: i32 = 2;

/// First and last stored dates of a series.
#[derive(Clone, Copy, Debug, PartialEq, Eq, Structural)]
pub struct StoredRange {
    pub first: Date,
    pub last: Date,
}

/// Outcome of a coverage check; the range is the one to read.
#[derive(Clone, Copy, Debug, PartialEq, Eq, Structural)]
pub enum Coverage {
    /// Nothing is stored for the key.
    Absent,
    /// Something is stored, but not all that was asked for; the range is
    /// the requested one clipped to what is stored.
    Partial { start: Date, end: Date },
    /// The stored data covers the request.
    Satisfied { start: Date, end: Date },
}

pub open spec fn max_day(a: Date, b: Date) -> Date {
    if a.days >= b.days { a } else { b }
}

pub open spec fn min_day(a: Date, b: Date) -> Date {
    if a.days <= b.days { a } else { b }
}

/// The stored range falls short of the request: it starts after the
/// requested start, or ends more than the freshness allowance before the
/// requested end.
pub open spec fn falls_short(s: StoredRange, start: Date, end: Date) -> bool {
    start.days < s.first.days || end.days > s.last.days + FRESHNESS_DAYS
}

pub open spec fn coverage_of(stored: Option<StoredRange>, start: Date, end: Date) -> Coverage {
    match stored {
        None => Coverage::Absent,
        Some(s) => if falls_short(s, start, end) {
            Coverage::Partial { start: max_day(start, s.first), end: min_day(end, s.last) }
        } else {
            Coverage::Satisfied { start, end }
        },
    }
}

/// Decides how far the stored range of a series covers [start, end].
pub fn check_intraday_coverage(stored: Option<StoredRange>, start: Date, end: Date) -> (r: Coverage)
    ensures
        r == coverage_of(stored, start, end),
        stored is None ==> r == Coverage::Absent,
{
    match stored {
        None => Coverage::Absent,
        Some(s) => {
            if start.days < s.first.days || (end.days as i64) > (s.last.days as i64) + (FRESHNESS_DAYS as i64) {
                let a = if start.days >= s.first.days { start } else { s.first };
                let b = if end.days <= s.last.days { end } else { s.last };
                Coverage::Partial { start: a, end: b }
            } else {
                Coverage::Satisfied { start, end }
            }
        },
    }
}

/// A request inside the stored range is satisfied with its own range.
pub proof fn law_inner_request_satisfied(s: StoredRange, start: Date, end: Date)
    requires
        s.first.days <= start.days,
        end.days <= s.last.days,
    ensures
        coverage_of(Some(s), start, end) == (Coverage::Satisfied { start, end }),
{
}

/// With nothing stored, the check reports absence, whatever the request.
pub proof fn law_nothing_stored_absent(start: Date, end: Date)
    ensures
        coverage_of(None, start, end) == Coverage::Absent,
{
}

/// A requested range is well formed when it does not end before it starts.
pub fn validate_range(start: Date, end: Date) -> (r: Result<(), crate::error::SyncError>)
    ensures
        r is Ok <==> start.days <= end.days,
        r matches Err(e) ==> e is ValidationError,
{
    if start.days <= end.days {
        Ok(())
    } else {
        Err(crate::error::SyncError::ValidationError)
    }
}

} // verus!
