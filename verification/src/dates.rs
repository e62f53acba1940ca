use vstd::prelude::*;

verus! {

/// A calendar date held as plain values: a year, a month in 1..=12 and a day
/// in 1..=31. The engine never computes on dates; it only records which date
/// a loan was opened on, when it falls due and when it was returned.
#[derive(Clone, Copy, Debug, PartialEq, Eq, Structural)]
pub struct Date {
    pub year: i32,
    pub month: u32,
    pub day: u32,
}

/// A date is valid when its month and day lie in calendar ranges.
pub open spec fn valid_date(d: Date) -> bool {
    1 <= d.month <= 12 && 1 <= d.day <= 31
}

/// The smallest seconds-since-epoch timestamp that still falls on a calendar
/// date, and the largest; timestamps outside this range have no date.
pub const MIN_DATE_TS: i64 = -8334601228800;
pub const MAX_DATE_TS: i64 = 8210266876799;

/// A timestamp can be turned into a calendar date exactly when it lies in
/// the representable range.
pub open spec fn timestamp_has_date(secs: i64) -> bool {
    MIN_DATE_TS <= secs <= MAX_DATE_TS
}

/// The calendar date, in UTC, that a seconds-since-epoch timestamp falls
/// on. It depends on the timestamp alone; its value is fixed by the
/// calendar arithmetic of the date library.
pub uninterp spec fn date_of_timestamp(secs: i64) -> Date;

/// Relies on chrono's `DateTime::<Utc>::from_timestamp`: it returns the
/// date-time of the timestamp exactly when the timestamp lies between the
/// first second of the smallest representable date and the last second of
/// the largest, the bounds above; the year, month and day accessors then
/// hand back a real calendar date.
#[verifier::external_body]
pub fn timestamp_to_date(secs: i64) -> (r: Option<Date>)
    ensures
        r is Some <==> timestamp_has_date(secs),
        r matches Some(d) ==> d == date_of_timestamp(secs) && valid_date(d),
{
    match chrono::DateTime::from_timestamp(secs, 0) {
        Some(t) => {
            let d = t.date_naive();
            Some(
                Date {
                    year: chrono::Datelike::year(&d),
                    month: chrono::Datelike::month(&d),
                    day: chrono::Datelike::day(&d),
                },
            )
        },
        None => None,
    }
}

/// Relies on chrono's `Utc::now` and `date_naive`: the current date in
/// UTC. Nothing is assumed of which date it is, only that it is a real
/// calendar date.
#[verifier::external_body]
pub fn today() -> (r: Date)
    ensures
        valid_date(r),
{
    let d = chrono::Utc::now().date_naive();
    Date {
        year: chrono::Datelike::year(&d),
        month: chrono::Datelike::month(&d),
        day: chrono::Datelike::day(&d),
    }
}

} // verus!
