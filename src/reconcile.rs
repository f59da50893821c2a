//! Per-request reconciliation: check coverage, backfill from the provider
//! when needed, then read the store and respond. The steps are decided
//! here; whoever performs the I/O feeds back what happened.
use vstd::prelude::*;
use crate::calendar::{as_of, as_of_date, months_before, Date};
use crate::backfill::{error_shaped, DailyClose};
use crate::coverage::{coverage_of, Coverage};
use crate::statement::{line_fields, reported, ReportedItem, StatementRecord};
use crate::store::{reads_as, PriceStore, StatementStore};
use crate::error::SyncError;

verus! {

/// Cutover for intraday series freshness: 20:30, in seconds after midnight.
pub const INTRADAY_CUTOVER: u32 = 73800;

/// Cutover for current-quote validity: 15:00, in seconds after midnight.
pub const QUOTE_CUTOVER: u32 = 54000;

/// Where a request stands.
#[derive(Clone, Copy, Debug, PartialEq, Eq, Structural)]
pub enum Phase {
    CheckCoverage,
    /// Backfilling through the `attempt`-th ticker spelling.
    Backfill { attempt: usize },
    Reread,
    Done,
}

/// What happened since the last step.
#[derive(Clone, Copy, Debug, PartialEq, Eq, Structural)]
pub enum Event {
    /// The store covers the request.
    Covered,
    /// The store holds part of the request, or nothing.
    NotCovered,
    /// The provider answered with this many rows, now upserted.
    Fetched { rows: usize },
    /// The provider could not be reached, or answered with an error.
    FetchFailed,
    /// The store was read.
    Read,
}

/// What to do next.
#[derive(Clone, Copy, Debug, PartialEq, Eq, Structural)]
pub enum Action {
    /// Ask the provider through the `attempt`-th ticker spelling.
    Fetch { attempt: usize },
    ReadStore,
    /// Answer with what the store returned, even if it is empty.
    Respond,
}

/// The next phase and action for an event; `None` for an event that does
/// not belong to the phase. `attempts` is the number of spellings to try.
pub open spec fn step_of(phase: Phase, event: Event, attempts: usize) -> Option<(Phase, Action)> {
    match (phase, event) {
        (Phase::CheckCoverage, Event::Covered) => Some((Phase::Reread, Action::ReadStore)),
        (Phase::CheckCoverage, Event::NotCovered) => if attempts > 0 {
            Some((Phase::Backfill { attempt: 0 }, Action::Fetch { attempt: 0 }))
        } else {
            Some((Phase::Reread, Action::ReadStore))
        },
        (Phase::Backfill { attempt }, Event::Fetched { rows }) => if rows > 0 || attempt + 1 >= attempts {
            Some((Phase::Reread, Action::ReadStore))
        } else {
            Some((Phase::Backfill { attempt: (attempt + 1) as usize }, Action::Fetch { attempt: (attempt + 1) as usize }))
        },
        (Phase::Backfill { attempt }, Event::FetchFailed) => if attempt + 1 >= attempts {
            Some((Phase::Reread, Action::ReadStore))
        } else {
            Some((Phase::Backfill { attempt: (attempt + 1) as usize }, Action::Fetch { attempt: (attempt + 1) as usize }))
        },
        (Phase::Reread, Event::Read) => Some((Phase::Done, Action::Respond)),
        _ => None,
    }
}

/// One step of a request: a failed backfill falls through to the next
/// spelling or to the read, never to an error; the first spelling that
/// yields rows ends the backfill.
pub fn reconcile_step(phase: Phase, event: Event, attempts: usize) -> (r: Option<(Phase, Action)>)
    ensures
        r == step_of(phase, event, attempts),
{
    match (phase, event) {
        (Phase::CheckCoverage, Event::Covered) => Some((Phase::Reread, Action::ReadStore)),
        (Phase::CheckCoverage, Event::NotCovered) => {
            if attempts > 0 {
                Some((Phase::Backfill { attempt: 0 }, Action::Fetch { attempt: 0 }))
            } else {
                Some((Phase::Reread, Action::ReadStore))
            }
        },
        (Phase::Backfill { attempt }, Event::Fetched { rows }) => {
            if rows > 0 || attempt >= attempts || attempts - attempt <= 1 {
                Some((Phase::Reread, Action::ReadStore))
            } else {
                Some((Phase::Backfill { attempt: attempt + 1 }, Action::Fetch { attempt: attempt + 1 }))
            }
        },
        (Phase::Backfill { attempt }, Event::FetchFailed) => {
            if attempt >= attempts || attempts - attempt <= 1 {
                Some((Phase::Reread, Action::ReadStore))
            } else {
                Some((Phase::Backfill { attempt: attempt + 1 }, Action::Fetch { attempt: attempt + 1 }))
            }
        },
        (Phase::Reread, Event::Read) => Some((Phase::Done, Action::Respond)),
        _ => None,
    }
}

/// The event that a coverage outcome feeds back: only `Satisfied` skips
/// the backfill.
pub open spec fn coverage_event_of(c: Coverage) -> Event {
    if c is Satisfied { Event::Covered } else { Event::NotCovered }
}

pub fn coverage_event(c: Coverage) -> (r: Event)
    ensures
        r == coverage_event_of(c),
{
    match c {
        Coverage::Satisfied { .. } => Event::Covered,
        _ => Event::NotCovered,
    }
}

/// The event that a statement existence check feeds back.
pub open spec fn existence_event_of(present: bool) -> Event {
    if present { Event::Covered } else { Event::NotCovered }
}

pub fn existence_event(present: bool) -> (r: Event)
    ensures
        r == existence_event_of(present),
{
    if present {
        Event::Covered
    } else {
        Event::NotCovered
    }
}

/// The event that a backfill attempt feeds back: an error-shaped body is
/// a failure; otherwise the number of rows it yielded.
pub open spec fn backfill_event_of(error_shaped: bool, rows: usize) -> Event {
    if error_shaped { Event::FetchFailed } else { Event::Fetched { rows } }
}

pub fn backfill_event(error_shaped: bool, rows: usize) -> (r: Event)
    ensures
        r == backfill_event_of(error_shaped, rows),
{
    if error_shaped {
        Event::FetchFailed
    } else {
        Event::Fetched { rows }
    }
}

/// A backfill is entered only from the coverage check or from an earlier
/// backfill attempt, and every attempt index stays below `attempts`.
pub proof fn law_backfill_follows_coverage(phase: Phase, event: Event, attempts: usize)
    requires
        phase matches Phase::Backfill { attempt } ==> attempt < attempts,
        step_of(phase, event, attempts) matches Some((Phase::Backfill { attempt: _ }, _)),
    ensures
        phase is CheckCoverage || phase is Backfill,
        step_of(phase, event, attempts) matches Some((Phase::Backfill { attempt }, Action::Fetch { attempt: a }))
            && attempt < attempts && a == attempt,
{
}

/// A request never ends in an error once its identity is known: from a
/// read, it always responds.
pub proof fn law_read_always_responds(attempts: usize)
    ensures
        step_of(Phase::Reread, Event::Read, attempts) == Some((Phase::Done, Action::Respond)),
{
}

/// A statement absent from the store costs exactly one backfill and then
/// one read, and the read returns the amounts just stored, an unreported
/// item reading as zero.
pub proof fn law_absent_statement_backfilled_once(
    s0: &StatementStore,
    s1: &StatementStore,
    rec: StatementRecord,
    served: Seq<ReportedItem>,
)
    requires
        s0.wf(),
        !s0.has(rec.issuer@, rec.period@, rec.kind),
        StatementStore::upserted(s0, s1, rec.issuer@, rec.period@, rec.kind, rec.values@),
        reads_as(s1.stored(rec.issuer@, rec.period@, rec.kind), rec.kind, served),
    ensures
        step_of(Phase::CheckCoverage, existence_event_of(s0.has(rec.issuer@, rec.period@, rec.kind)), 1)
            == Some((Phase::Backfill { attempt: 0 }, Action::Fetch { attempt: 0 })),
        step_of(Phase::Backfill { attempt: 0 }, backfill_event_of(false, 1), 1) == Some((Phase::Reread, Action::ReadStore)),
        step_of(Phase::Reread, Event::Read, 1) == Some((Phase::Done, Action::Respond)),
        served.len() == rec.values@.len(),
        forall|i: int| 0 <= i < served.len() ==> (#[trigger] served[i]).name@ == line_fields(rec.kind)[i].1
            && served[i].value == reported(rec.values@[i]),
{
    assert(s1.stored(rec.issuer@, rec.period@, rec.kind) == Some(rec.values@));
}

/// When the provider answers every one of the three ticker spellings with
/// an error-shaped body and nothing is stored for the key, the request
/// tries each spelling once, then reads, and responds with an empty
/// series rather than an error.
pub proof fn law_error_bodies_give_empty_series(
    bodies: Seq<Seq<char>>,
    store: &PriceStore,
    key: Seq<char>,
    start: Date,
    end: Date,
    served: Seq<DailyClose>,
)
    requires
        bodies.len() == 3,
        forall|i: int| 0 <= i < 3 ==> error_shaped(#[trigger] bodies[i]),
        store.wf(),
        forall|d: int| !(#[trigger] store.price_at(key, d) is Some),
        store.selection(key, start, end, served),
    ensures
        step_of(Phase::CheckCoverage, coverage_event_of(coverage_of(None, start, end)), 3)
            == Some((Phase::Backfill { attempt: 0 }, Action::Fetch { attempt: 0 })),
        step_of(Phase::Backfill { attempt: 0 }, backfill_event_of(error_shaped(bodies[0]), 0), 3)
            == Some((Phase::Backfill { attempt: 1 }, Action::Fetch { attempt: 1 })),
        step_of(Phase::Backfill { attempt: 1 }, backfill_event_of(error_shaped(bodies[1]), 0), 3)
            == Some((Phase::Backfill { attempt: 2 }, Action::Fetch { attempt: 2 })),
        step_of(Phase::Backfill { attempt: 2 }, backfill_event_of(error_shaped(bodies[2]), 0), 3)
            == Some((Phase::Reread, Action::ReadStore)),
        step_of(Phase::Reread, Event::Read, 3) == Some((Phase::Done, Action::Respond)),
        served.len() == 0,
{
    assert(error_shaped(bodies[0]) && error_shaped(bodies[1]) && error_shaped(bodies[2]));
    if served.len() > 0 {
        assert(store.price_at(key, served[0].date.days as int) is Some);
    }
}

/// The date range of an intraday series request: it ends on the "as of"
/// business day for the cutover and starts `months` months earlier, on a
/// business day. `ValidationError` when the start would fall before year 1.
pub fn intraday_window(today: Date, second_of_day: u32, months: u32, cutover: u32) -> (r: Result<(Date, Date), SyncError>)
    requires
        today.wf(),
        today.days > 1,
    ensures
        r matches Ok((start, end)) ==> {
            &&& start.wf() && end.wf()
            &&& end.days == as_of(today.days as int, second_of_day as int, cutover as int)
            &&& start.days == crate::calendar::last_business(
                crate::calendar::day_number(
                    crate::calendar::months_back(end.civil(), months as int).0,
                    crate::calendar::months_back(end.civil(), months as int).1,
                    crate::calendar::months_back(end.civil(), months as int).2,
                ),
            )
        },
        r is Err <==> ({
            let end = Date { days: as_of(today.days as int, second_of_day as int, cutover as int) as i32 };
            end.civil().0 * 12 + end.civil().1 - 1 - months < 12
        }),
        r matches Err(e) ==> e is ValidationError,
{
    let end = as_of_date(today, second_of_day, cutover);
    let (y, m, _) = end.to_ymd();
    if (y as i64) * 12 + (m as i64) - 1 - (months as i64) < 12 {
        return Err(SyncError::ValidationError);
    }
    let start = months_before(end, months);
    Ok((start, end))
}

} // verus!
