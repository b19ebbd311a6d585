//! Time stamps, from the clock of the machine.

use vstd::prelude::*;
use crate::text::text_of;

verus! {

/// A moment on the calendar and on the clock, to the millisecond.
#[derive(Debug, Clone, Copy, PartialEq, Eq)]
pub struct Moment {
    pub year: i32,
    pub month: u8,
    pub day: u8,
    pub hour: u8,
    pub minute: u8,
    pub second: u8,
    pub millisecond: u16,
}

/// Whether a year of the Gregorian calendar, carried back before its
/// beginning, has a 29th of February.
pub open spec fn leap_year(year: int) -> bool {
    year % 4 == 0 && (year % 100 != 0 || year % 400 == 0)
}

/// How many days a month of a year has.
pub open spec fn days_in_month(year: int, month: int) -> int {
    if month == 2 {
        if leap_year(year) {
            29
        } else {
            28
        }
    } else if month == 4 || month == 6 || month == 9 || month == 11 {
        30
    } else {
        31
    }
}

impl Moment {
    /// Whether the date is a day of the calendar: a year from -9999 to
    /// 9999, a month from 1 to 12, and a day that the month has in that
    /// year.
    pub open spec fn on_the_calendar(self) -> bool {
        &&& -9999 <= self.year <= 9999
        &&& 1 <= self.month <= 12
        &&& 1 <= self.day <= days_in_month(self.year as int, self.month as int)
    }

    /// Whether the time of day is one that a clock shows, to the
    /// millisecond.
    pub open spec fn on_the_clock(self) -> bool {
        &&& self.hour < 24
        &&& self.minute < 60
        &&& self.second < 60
        &&& self.millisecond < 1000
    }

    /// Whether the moment is a day of the calendar and a time of day.
    pub open spec fn is_shown(self) -> bool {
        self.on_the_calendar() && self.on_the_clock()
    }
}

/// The layout of a time stamp in a record: day, month, year, then the time
/// of day to the millisecond.
pub const RECORD_LAYOUT: &'static str =
    "[day]-[month]-[year] [hour repr:24]:[minute]:[second].[subsecond digits:3]";

/// The layout of a time stamp in a file name: the same fields, joined by
/// underscores.
pub const FILE_NAME_LAYOUT: &'static str =
    "[day]_[month]_[year]_[hour repr:24]_[minute]_[second]_[subsecond digits:3]";

/// What the `time` crate writes for a date and a time of day after a
/// layout, in the first version of its syntax for layouts; `None` where it
/// refuses the layout, the date or the time, or cannot write the one after
/// the other.
pub uninterp spec fn written(
    year: i32,
    month: u8,
    day: u8,
    hour: u8,
    minute: u8,
    second: u8,
    millisecond: u16,
    layout: Seq<char>,
) -> Option<Seq<char>>;

/// What the `time` crate writes for a moment after a layout.
pub open spec fn written_moment(moment: Moment, layout: Seq<char>) -> Option<Seq<char>> {
    written(
        moment.year,
        moment.month,
        moment.day,
        moment.hour,
        moment.minute,
        moment.second,
        moment.millisecond,
        layout,
    )
}

/// The layout of a time stamp: the one for file names if `header` is set,
/// else the one for records.
pub open spec fn layout_for(header: bool) -> Seq<char> {
    if header {
        FILE_NAME_LAYOUT@
    } else {
        RECORD_LAYOUT@
    }
}

/// A text that may be absent, as a time stamp: empty where it is absent.
pub open spec fn stamp_of(text: Option<Seq<char>>) -> Seq<char> {
    match text {
        Some(t) => t,
        None => Seq::empty(),
    }
}

/// The time stamp of a moment: the moment written after the layout for
/// `header`, or the empty text where it cannot be written.
pub open spec fn stamp_at(moment: Moment, header: bool) -> Seq<char> {
    stamp_of(written_moment(moment, layout_for(header)))
}

/// Whether `stamp` is the time stamp of `moment`, a moment that a clock
/// can show: the moment is a day of the calendar and a time of day, and the
/// stamp is that moment written after the layout for `header`, which is no
/// empty text.
pub open spec fn clock_stamp(stamp: Seq<char>, moment: Moment, header: bool) -> bool {
    &&& moment.is_shown()
    &&& stamp == stamp_at(moment, header)
    &&& stamp.len() > 0
}

/// Whether `now` is the time stamp, in the layout for records, of some
/// moment that a clock can show.
pub open spec fn is_clock_stamp(now: Seq<char>) -> bool {
    exists|moment: Moment| #[trigger] clock_stamp(now, moment, false)
}

/// The current time in the local offset; `None` where that offset cannot be
/// had.
///
/// Trusted: calls `time::OffsetDateTime::now_local` and reads the fields of
/// what it returns. The moment depends on the clock and on the machine; the
/// contract claims what holds of every value of the crate's type: the date
/// is a day of the proleptic Gregorian calendar in the years from -9999 to
/// 9999, which are all that the crate holds as it is built here, and the
/// fields of the time of day are in the ranges that the crate documents.
#[verifier::external_body]
fn now_local() -> (moment: Option<Moment>)
    ensures
        moment matches Some(m) ==> m.is_shown(),
{
    let t = time::OffsetDateTime::now_local().ok()?;
    Some(Moment {
        year: t.year(),
        month: u8::from(t.month()),
        day: t.day(),
        hour: t.hour(),
        minute: t.minute(),
        second: t.second(),
        millisecond: t.millisecond(),
    })
}

/// The current time in UTC.
///
/// Trusted: calls `time::OffsetDateTime::now_utc` and reads the fields of
/// what it returns. The moment depends on the clock; the contract claims
/// what holds of every value of the crate's type, as for `now_local`.
#[verifier::external_body]
fn now_utc() -> (moment: Moment)
    ensures
        moment.is_shown(),
{
    let t = time::OffsetDateTime::now_utc();
    Moment {
        year: t.year(),
        month: u8::from(t.month()),
        day: t.day(),
        hour: t.hour(),
        minute: t.minute(),
        second: t.second(),
        millisecond: t.millisecond(),
    }
}

/// Writes a moment after a layout; `None` where the layout, the date or
/// the time is refused, or the layout cannot show the moment.
///
/// Trusted: hands the layout to `time::format_description::parse_owned`,
/// the fields to `time::Date::from_calendar_date` and
/// `time::Time::from_hms_milli`, and calls `time::PlainDateTime::format` on
/// the two. The text is a function of the fields and the layout alone, and
/// the contract gives it its name, `written`. Of the two layouts of this
/// module it claims one thing more: the crate reads both, takes every date
/// of the calendar and every time of day, and finds in a date with a time
/// all that the layouts ask for, so that such a moment is written; and the
/// text is not empty, for both layouts hold signs that are written as they
/// stand.
#[verifier::external_body]
fn write_moment(moment: Moment, layout: &str) -> (text: Option<String>)
    ensures
        text_of(text) == written(
            moment.year,
            moment.month,
            moment.day,
            moment.hour,
            moment.minute,
            moment.second,
            moment.millisecond,
            layout@,
        ),
        stamp_of(text_of(text)).len() > 0 || !(moment.is_shown() && (layout@ == RECORD_LAYOUT@
            || layout@ == FILE_NAME_LAYOUT@)),
{
    let items = time::format_description::parse_owned::<1>(layout).ok()?;
    let month = time::Month::try_from(moment.month).ok()?;
    let date = time::Date::from_calendar_date(moment.year, month, moment.day).ok()?;
    let time = time::Time::from_hms_milli(
        moment.hour,
        moment.minute,
        moment.second,
        moment.millisecond,
    ).ok()?;
    date.with_time(time).format(&items).ok()
}

/// The layout of a time stamp: the one for file names if `header` is set,
/// else the one for records.
pub fn layout_of(header: bool) -> (layout: &'static str)
    ensures
        layout@ == layout_for(header),
{
    if header {
        FILE_NAME_LAYOUT
    } else {
        RECORD_LAYOUT
    }
}

/// A text that may be absent, as a time stamp: empty where it is absent.
pub fn text_or_empty(text: Option<String>) -> (stamp: String)
    ensures
        stamp@ == stamp_of(text_of(text)),
{
    match text {
        Some(t) => t,
        None => String::new(),
    }
}

/// The time stamp of a moment: the moment written after the layout for file
/// names if `header` is set, else after the one for records; empty where
/// the moment cannot be written.
pub fn time_stamp_at(moment: Moment, header: bool) -> (stamp: String)
    ensures
        stamp@ == stamp_at(moment, header),
        moment.is_shown() ==> clock_stamp(stamp@, moment, header),
{
    text_or_empty(write_moment(moment, layout_of(header)))
}

/// The current time as text: the moment that the clock shows, in the local
/// offset where it can be had and else in UTC, written as `time_stamp_at`
/// writes it. The text is never empty.
pub fn create_time_stamp(header: bool) -> (stamp: String)
    ensures
        exists|moment: Moment| #[trigger] clock_stamp(stamp@, moment, header),
{
    let moment = match now_local() {
        Some(local) => local,
        None => now_utc(),
    };
    time_stamp_at(moment, header)
}

} // verus!
