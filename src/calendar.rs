use vstd::prelude::*;
use chrono::Datelike;

verus! {

/// Smallest year that a calendar date can carry.
pub const MIN_YEAR: i32 = -262143;

/// Largest year that a calendar date can carry.
pub const MAX_YEAR: i32 = 262142;

/// The first day of a calendar month, given by its year and its month (1 to 12).
#[derive(Clone, Copy, Debug, PartialEq, Eq, Structural)]
pub struct YearMonth {
    pub year: i32,
    pub month: u32,
}

impl YearMonth {
    /// The month lies in 1..=12 and the year in the supported calendar range.
    pub open spec fn wf(self) -> bool {
        &&& 1 <= self.month <= 12
        &&& MIN_YEAR <= self.year <= MAX_YEAR
    }

    /// Number of whole months from the start of year 0 to this month.
    pub open spec fn ordinal(self) -> int {
        self.year as int * 12 + (self.month as int - 1)
    }
}

/// Signed number of whole calendar months from `then` to `now`.
pub open spec fn months_from(now: YearMonth, then: YearMonth) -> int {
    now.ordinal() - then.ordinal()
}

/// Signed count of whole calendar months between two first-of-month anchors:
/// positive when `then` lies before `now`.
pub fn months_between(now: YearMonth, then: YearMonth) -> (r: i32)
    requires
        now.wf(),
        then.wf(),
    ensures
        r as int == months_from(now, then),
{
    (now.year - then.year) * 12 + (now.month as i32 - then.month as i32)
}

/// The year and month of the Monday that starts ISO week `week` of ISO year `year`,
/// or nothing when that week does not exist.
pub uninterp spec fn iso_week_monday_month(year: int, week: int) -> Option<(i32, u32)>;

/// Relies on chrono's `NaiveDate::from_isoywd_opt(year, week, Weekday::Mon)`, which
/// rejects week 0 and any week past the year's 52 or 53 ISO weeks and otherwise gives
/// the Monday of that week, and on `Datelike::year` / `Datelike::month` of that date.
/// Every ISO year has at least 52 weeks, and the Monday of week 52 lies in the same
/// year, so only week 1 of the first supported year can fall outside the range.
#[verifier::external_body]
pub(crate) fn iso_week_start(year: i32, week: u32) -> (r: Option<YearMonth>)
    requires
        MIN_YEAR <= year <= MAX_YEAR,
    ensures
        match r {
            Some(ym) => iso_week_monday_month(year as int, week as int) == Some((ym.year, ym.month))
                && ym.wf(),
            None => iso_week_monday_month(year as int, week as int) is None,
        },
        week == 0 || week > 53 ==> r is None,
        MIN_YEAR < year && 1 <= week <= 52 ==> r is Some,
{
    match chrono::NaiveDate::from_isoywd_opt(year, week, chrono::Weekday::Mon) {
        Some(d) => Some(YearMonth { year: d.year(), month: d.month() }),
        None => None,
    }
}

/// Relies on chrono's `From<SystemTime> for DateTime<Utc>`, `date_naive` and
/// `Datelike::year` / `Datelike::month`: the current UTC calendar month, also for a
/// clock that reads before 1970. chrono keeps every date within its year range.
#[verifier::external_body]
fn utc_today_month() -> (r: YearMonth)
    ensures
        r.wf(),
{
    let d = chrono::DateTime::<chrono::Utc>::from(std::time::SystemTime::now()).date_naive();
    YearMonth { year: d.year(), month: d.month() }
}

/// The first day of the current month (UTC): the reference point for ages.
pub fn current_month() -> (r: YearMonth)
    ensures
        r.wf(),
{
    utc_today_month()
}

} // verus!
