//! The planner's values: dates, times of day, priorities, events and tasks.

use crate::calendar::{day_number, days_before_month, days_before_year, lemma_days_before_month,
    lemma_weekday_sum, month_length, weekday_of};
use crate::sorting::{lemma_stable_sort_idempotent, lemma_stable_sort_ordered,
    lemma_stable_sort_permutes, rank_fn, sort_by_rank, stable_sort, views, Ranked};
use crate::text::{decimal, push_char, push_decimal, push_text, push_zero_padded, zero_padded};
use vstd::prelude::*;

verus! {

/// A calendar date. Dates order by year, then month, then day.
///
/// Construction checks nothing: a date is *valid* when its month is one of
/// `1..=12` and its day exists in that month, and the operations below say
/// which of them need that.
#[derive(Debug, Clone, Copy, PartialEq, Eq, Ord, Structural)]
pub struct Date {
    pub year: u16,
    pub month: u8,
    pub day: u8,
}

impl Date {
    /// The month is one of the twelve and the day exists in it.
    pub open spec fn valid(self) -> bool {
        &&& 1 <= self.month <= 12
        &&& 1 <= self.day <= month_length(self.year as int, self.month as int)
    }

    /// Position of the date in the calendar, counting 0000-01-01 as day 1.
    pub open spec fn ordinal(self) -> int {
        day_number(self.year as nat, self.month as nat, self.day as nat)
    }

    /// This date comes before `other` in the order of dates: by year, then
    /// by month, then by day.
    pub open spec fn precedes(self, other: Date) -> bool {
        ||| self.year < other.year
        ||| self.year == other.year && self.month < other.month
        ||| self.year == other.year && self.month == other.month && self.day < other.day
    }

    /// A following day can be written with a 16-bit year.
    pub open spec fn has_next_day(self) -> bool {
        self.day < month_length(self.year as int, self.month as int) || self.month < 12
            || self.year < u16::MAX
    }

    /// A preceding day can be written with a 16-bit year.
    pub open spec fn has_prev_day(self) -> bool {
        self.day > 1 || self.month > 1 || self.year > 0
    }

    /// The day after this one: the day advances within the month, else the
    /// month advances to its first day, else the year advances to January 1.
    pub open spec fn spec_next_day(self) -> Date
        recommends
            self.has_next_day(),
    {
        if self.day < month_length(self.year as int, self.month as int) {
            Date { year: self.year, month: self.month, day: (self.day + 1) as u8 }
        } else if self.month < 12 {
            Date { year: self.year, month: (self.month + 1) as u8, day: 1 }
        } else {
            Date { year: (self.year + 1) as u16, month: 1, day: 1 }
        }
    }

    /// The day before this one: the day steps back within the month, else to
    /// the last day of the month before, else to December 31 of the year
    /// before.
    pub open spec fn spec_prev_day(self) -> Date
        recommends
            self.has_prev_day(),
    {
        if self.day > 1 {
            Date { year: self.year, month: self.month, day: (self.day - 1) as u8 }
        } else if self.month > 1 {
            Date {
                year: self.year,
                month: (self.month - 1) as u8,
                day: month_length(self.year as int, self.month - 1) as u8,
            }
        } else {
            Date { year: (self.year - 1) as u16, month: 12, day: 31 }
        }
    }

    /// Weekday of the date, 0 for Sunday up to 6 for Saturday.
    pub open spec fn spec_day_of_week(self) -> int {
        weekday_of(self.year as nat, self.month as nat, self.day as nat)
    }

    /// The date with these three numbers, whether or not the calendar has
    /// such a day.
    pub fn new(year: u16, month: u8, day: u8) -> (date: Date)
        ensures
            date == (Date { year, month, day }),
    {
        Date { year, month, day }
    }

    /// Whether the calendar has this day.
    pub fn is_valid(&self) -> (valid: bool)
        ensures
            valid == self.valid(),
    {
        1 <= self.month && self.month <= 12 && 1 <= self.day && self.day <= Date::days_in_month(
            self.year,
            self.month,
        )
    }

    /// Days in the given month, by the Gregorian rule.
    pub fn days_in_month(year: u16, month: u8) -> (days: u8)
        ensures
            days as int == month_length(year as int, month as int),
            28 <= days <= 31,
    {
        match month {
            1 | 3 | 5 | 7 | 8 | 10 | 12 => 31,
            4 | 6 | 9 | 11 => 30,
            2 => {
                if (year % 4 == 0 && year % 100 != 0) || year % 400 == 0 {
                    29
                } else {
                    28
                }
            },
            _ => 30,
        }
    }

    /// Advance by one day.
    ///
    /// The day after the last day that a 16-bit year can hold cannot be
    /// written; `checked_next_day` tests for it.
    pub fn next_day(&self) -> (next: Date)
        requires
            self.has_next_day(),
        ensures
            next == self.spec_next_day(),
            self.valid() ==> next.valid() && next.ordinal() == self.ordinal() + 1,
    {
        proof {
            if self.valid() {
                lemma_next_day_follows(*self);
            }
        }
        let dim = Date::days_in_month(self.year, self.month);
        if self.day < dim {
            Date::new(self.year, self.month, self.day + 1)
        } else if self.month < 12 {
            Date::new(self.year, self.month + 1, 1)
        } else {
            Date::new(self.year + 1, 1, 1)
        }
    }

    /// The day after this one, where it can be written.
    pub fn checked_next_day(&self) -> (next: Option<Date>)
        ensures
            next == if self.has_next_day() {
                Some(self.spec_next_day())
            } else {
                None
            },
    {
        let dim = Date::days_in_month(self.year, self.month);
        if self.day < dim || self.month < 12 || self.year < u16::MAX {
            Some(self.next_day())
        } else {
            None
        }
    }

    /// The day before this one, where it can be written.
    pub fn checked_prev_day(&self) -> (prev: Option<Date>)
        ensures
            prev == if self.has_prev_day() {
                Some(self.spec_prev_day())
            } else {
                None
            },
    {
        if self.day > 1 || self.month > 1 || self.year > 0 {
            Some(self.prev_day())
        } else {
            None
        }
    }

    /// Go back one day.
    ///
    /// The day before the first day of year 0 cannot be written;
    /// `checked_prev_day` tests for it.
    pub fn prev_day(&self) -> (prev: Date)
        requires
            self.has_prev_day(),
        ensures
            prev == self.spec_prev_day(),
            self.valid() ==> prev.valid() && prev.ordinal() == self.ordinal() - 1,
    {
        proof {
            if self.valid() {
                lemma_prev_day_precedes(*self);
            }
        }
        if self.day > 1 {
            Date::new(self.year, self.month, self.day - 1)
        } else if self.month > 1 {
            let prev_month = self.month - 1;
            let dim = Date::days_in_month(self.year, prev_month);
            Date::new(self.year, prev_month, dim)
        } else {
            Date::new(self.year - 1, 12, 31)
        }
    }

    /// Day of the week, 0 for Sunday up to 6 for Saturday, for a date whose
    /// month is one of the twelve.
    ///
    /// The sum below is the year, its leap days and a per-month offset; the
    /// year is moved forward by 400, a whole number of weeks, so that January
    /// and February of year 0 need no negative number.
    pub fn day_of_week(&self) -> (dow: u8)
        requires
            1 <= self.month <= 12,
        ensures
            dow as int == self.spec_day_of_week(),
            dow < 7,
    {
        let offsets: [u32; 12] = [0, 3, 2, 5, 0, 3, 5, 1, 4, 6, 2, 4];
        let mut y: u32 = self.year as u32 + 400;
        if self.month < 3 {
            y -= 1;
        }
        let sum: u32 = y + y / 4 - y / 100 + y / 400 + offsets[(self.month - 1) as usize]
            + self.day as u32;
        proof {
            lemma_weekday_sum(self.year as nat, self.month as nat, self.day as nat);
        }
        (sum % 7) as u8
    }

    /// The date as text: the year in at least four digits, the month and the
    /// day in at least two, with hyphens between.
    pub open spec fn spec_display(self) -> Seq<char> {
        zero_padded(self.year as nat, 4) + seq!['-'] + zero_padded(self.month as nat, 2)
            + seq!['-'] + zero_padded(self.day as nat, 2)
    }

    /// The month and the day as text, each in at least two digits, with a
    /// slash between.
    pub open spec fn spec_short_display(self) -> Seq<char> {
        zero_padded(self.month as nat, 2) + seq!['/'] + zero_padded(self.day as nat, 2)
    }

    /// The date as text, such as `2026-01-01`.
    pub fn display(&self) -> (text: String)
        ensures
            text@ == self.spec_display(),
    {
        let mut text = String::new();
        push_zero_padded(&mut text, self.year as u64, 4);
        push_char(&mut text, '-');
        push_zero_padded(&mut text, self.month as u64, 2);
        push_char(&mut text, '-');
        push_zero_padded(&mut text, self.day as u64, 2);
        text
    }

    /// The month and the day as text, such as `01/31`.
    pub fn short_display(&self) -> (text: String)
        ensures
            text@ == self.spec_short_display(),
    {
        let mut text = String::new();
        push_zero_padded(&mut text, self.month as u64, 2);
        push_char(&mut text, '/');
        push_zero_padded(&mut text, self.day as u64, 2);
        text
    }

    /// Three-letter name of the date's weekday.
    pub fn weekday_name(&self) -> (name: &'static str)
        requires
            1 <= self.month <= 12,
        ensures
            name@ == weekday_label(self.spec_day_of_week()),
    {
        match self.day_of_week() {
            0 => "Sun",
            1 => "Mon",
            2 => "Tue",
            3 => "Wed",
            4 => "Thu",
            5 => "Fri",
            6 => "Sat",
            _ => "???",
        }
    }

    /// English name of a month, counted from 1.
    pub fn month_name(month: u8) -> (name: &'static str)
        ensures
            name@ == month_label(month as int),
    {
        match month {
            1 => "January",
            2 => "February",
            3 => "March",
            4 => "April",
            5 => "May",
            6 => "June",
            7 => "July",
            8 => "August",
            9 => "September",
            10 => "October",
            11 => "November",
            12 => "December",
            _ => "???",
        }
    }
}

/// The date that the planner opens on.
///
/// The device keeps no calendar clock that the planner could read, so the
/// tick count plays no part: the planner opens on 2026-01-01, and the user
/// moves on from there.
pub fn epoch_to_date(_ms: u64) -> (date: Date)
    ensures
        date == (Date { year: 2026, month: 1, day: 1 }),
        date.valid(),
{
    Date::new(2026, 1, 1)
}

/// Three-letter name of a weekday, 0 for Sunday up to 6 for Saturday; `???`
/// for any other number.
pub open spec fn weekday_label(dow: int) -> Seq<char> {
    if dow == 0 {
        "Sun"@
    } else if dow == 1 {
        "Mon"@
    } else if dow == 2 {
        "Tue"@
    } else if dow == 3 {
        "Wed"@
    } else if dow == 4 {
        "Thu"@
    } else if dow == 5 {
        "Fri"@
    } else if dow == 6 {
        "Sat"@
    } else {
        "???"@
    }
}

/// English name of a month, 1 for January up to 12 for December; `???` for
/// any other number.
pub open spec fn month_label(month: int) -> Seq<char> {
    if month == 1 {
        "January"@
    } else if month == 2 {
        "February"@
    } else if month == 3 {
        "March"@
    } else if month == 4 {
        "April"@
    } else if month == 5 {
        "May"@
    } else if month == 6 {
        "June"@
    } else if month == 7 {
        "July"@
    } else if month == 8 {
        "August"@
    } else if month == 9 {
        "September"@
    } else if month == 10 {
        "October"@
    } else if month == 11 {
        "November"@
    } else if month == 12 {
        "December"@
    } else {
        "???"@
    }
}

/// The day after a valid date is a valid date, one further on in the
/// calendar, and its weekday is the next weekday.
pub proof fn lemma_next_day_follows(date: Date)
    requires
        date.valid(),
        date.has_next_day(),
    ensures
        date.spec_next_day().valid(),
        date.spec_next_day().ordinal() == date.ordinal() + 1,
        date.spec_next_day().spec_day_of_week() == (date.spec_day_of_week() + 1) % 7,
{
    let next = date.spec_next_day();
    if date.day < month_length(date.year as int, date.month as int) {
    } else if date.month < 12 {
        assert(days_before_month(date.year as int, next.month as nat) == days_before_month(
            date.year as int,
            date.month as nat,
        ) + month_length(date.year as int, date.month as int));
    } else {
        lemma_days_before_month(date.year as int, 12);
        assert(days_before_year(next.year as nat) == days_before_year(date.year as nat)
            + crate::calendar::year_length(date.year as int));
        assert(days_before_month(next.year as int, 1) == 0);
    }
}

/// The day before a valid date is a valid date, one earlier in the calendar,
/// and its weekday is the weekday before.
pub proof fn lemma_prev_day_precedes(date: Date)
    requires
        date.valid(),
        date.has_prev_day(),
    ensures
        date.spec_prev_day().valid(),
        date.spec_prev_day().ordinal() == date.ordinal() - 1,
        date.spec_prev_day().spec_day_of_week() == (date.spec_day_of_week() + 6) % 7,
{
    let prev = date.spec_prev_day();
    if date.day > 1 {
    } else if date.month > 1 {
        assert(days_before_month(date.year as int, date.month as nat) == days_before_month(
            date.year as int,
            prev.month as nat,
        ) + month_length(date.year as int, prev.month as int));
    } else {
        lemma_days_before_month(prev.year as int, 12);
        assert(days_before_year(date.year as nat) == days_before_year(prev.year as nat)
            + crate::calendar::year_length(prev.year as int));
        assert(days_before_month(date.year as int, 1) == 0);
    }
}

/// The days before a year are no more than the days before a later year.
proof fn lemma_days_before_year_grows(year: nat, later: nat)
    requires
        year <= later,
    ensures
        days_before_year(year) <= days_before_year(later),
    decreases later,
{
    if year < later {
        lemma_days_before_year_grows(year, (later - 1) as nat);
    }
}

/// Valid dates come in the order of their days in the calendar: one
/// precedes another exactly when its day comes first.
pub proof fn lemma_dates_order_as_days(a: Date, b: Date)
    requires
        a.valid(),
        b.valid(),
    ensures
        a.precedes(b) <==> a.ordinal() < b.ordinal(),
        a == b <==> a.ordinal() == b.ordinal(),
{
    lemma_days_before_month(a.year as int, a.month as nat);
    lemma_days_before_month(b.year as int, b.month as nat);
    assert(days_before_year((a.year + 1) as nat) == days_before_year(a.year as nat)
        + crate::calendar::year_length(a.year as int));
    assert(days_before_year((b.year + 1) as nat) == days_before_year(b.year as nat)
        + crate::calendar::year_length(b.year as int));
    if a.year < b.year {
        lemma_days_before_year_grows((a.year + 1) as nat, b.year as nat);
    } else if b.year < a.year {
        lemma_days_before_year_grows((b.year + 1) as nat, a.year as nat);
    }
}

/// Stepping back a day and then forward a day returns to the date where the
/// date has a day before it, its day exists in its month, and, on the first of
/// a month, the month is one of the twelve. Every valid date but 0000-01-01
/// is such a date.
pub proof fn lemma_prev_then_next(date: Date)
    requires
        date.has_prev_day(),
        1 <= date.day <= month_length(date.year as int, date.month as int),
        date.day == 1 ==> 1 <= date.month <= 12,
    ensures
        date.spec_prev_day().has_next_day(),
        date.spec_prev_day().spec_next_day() == date,
{
}

/// Stepping forward a day and then back a day returns to the date where the
/// date has a day after it, its day exists in its month, and, on the last of
/// a month, the month is one of the twelve. Every valid date but 65535-12-31
/// is such a date.
pub proof fn lemma_next_then_prev(date: Date)
    requires
        date.has_next_day(),
        1 <= date.day <= month_length(date.year as int, date.month as int),
        date.day == month_length(date.year as int, date.month as int) ==> 1 <= date.month <= 12,
    ensures
        date.spec_next_day().has_prev_day(),
        date.spec_next_day().spec_prev_day() == date,
{
}

/// A time of day on the 24-hour clock.
#[derive(Debug, Clone, Copy, PartialEq, Eq, PartialOrd, Ord, Structural)]
pub struct Time {
    pub hour: u8,
    pub minute: u8,
}

impl Time {
    /// The hour is below 24 and the minute below 60.
    pub open spec fn valid(self) -> bool {
        self.hour <= 23 && self.minute <= 59
    }

    /// Minutes since midnight.
    pub open spec fn minute_of_day(self) -> nat {
        (self.hour as nat) * 60 + self.minute as nat
    }

    /// The hour on the 12-hour clock, from 1 to 12.
    pub open spec fn hour12(self) -> nat {
        if self.hour == 0 {
            12
        } else if self.hour <= 12 {
            self.hour as nat
        } else {
            (self.hour - 12) as nat
        }
    }

    /// The time as text on the 12-hour clock: the hour, a colon, the minute
    /// in at least two digits, and `AM` before noon or `PM` from noon on.
    pub open spec fn spec_display(self) -> Seq<char> {
        decimal(self.hour12()) + seq![':'] + zero_padded(self.minute as nat, 2) + if self.hour
            < 12 {
            "AM"@
        } else {
            "PM"@
        }
    }

    /// The time with the hour capped at 23 and the minute capped at 59.
    pub open spec fn spec_new(hour: u8, minute: u8) -> Time {
        Time { hour: if hour <= 23 {
            hour
        } else {
            23u8
        }, minute: if minute <= 59 {
            minute
        } else {
            59u8
        } }
    }

    /// A time with the hour capped at 23 and the minute capped at 59.
    pub fn new(hour: u8, minute: u8) -> (time: Time)
        ensures
            time == Time::spec_new(hour, minute),
            time.valid(),
    {
        Time { hour: if hour <= 23 {
            hour
        } else {
            23
        }, minute: if minute <= 59 {
            minute
        } else {
            59
        } }
    }

    /// The time as text on the 12-hour clock, such as `9:05AM`.
    pub fn display(&self) -> (text: String)
        ensures
            text@ == self.spec_display(),
    {
        let h12: u8 = if self.hour == 0 {
            12
        } else if self.hour <= 12 {
            self.hour
        } else {
            self.hour - 12
        };
        let mut text = String::new();
        push_decimal(&mut text, h12 as u64);
        push_char(&mut text, ':');
        push_zero_padded(&mut text, self.minute as u64, 2);
        if self.hour < 12 {
            push_text(&mut text, "AM");
        } else {
            push_text(&mut text, "PM");
        }
        text
    }
}

/// How much an event or a task matters.
#[derive(Debug, Clone, Copy, PartialEq, Eq, Structural)]
pub enum Priority {
    Low,
    Normal,
    High,
}

impl Priority {
    /// The next priority in the cycle Low, Normal, High, Low.
    pub open spec fn spec_cycle(self) -> Priority {
        match self {
            Priority::Low => Priority::Normal,
            Priority::Normal => Priority::High,
            Priority::High => Priority::Low,
        }
    }

    /// Place in a sorted list: High comes first, then Normal, then Low.
    pub open spec fn spec_rank(self) -> nat {
        match self {
            Priority::High => 0,
            Priority::Normal => 1,
            Priority::Low => 2,
        }
    }

    /// Name of the priority.
    pub open spec fn spec_label(self) -> Seq<char> {
        match self {
            Priority::Low => "Low"@,
            Priority::Normal => "Normal"@,
            Priority::High => "High"@,
        }
    }

    /// The character shown beside an entry of this priority: an
    /// exclamation mark for High, an asterisk for Normal, a blank for Low.
    pub open spec fn spec_marker(self) -> Seq<char> {
        match self {
            Priority::Low => " "@,
            Priority::Normal => "*"@,
            Priority::High => "!"@,
        }
    }

    /// Name of the priority.
    pub fn label(&self) -> (text: &'static str)
        ensures
            text@ == self.spec_label(),
    {
        match self {
            Priority::Low => "Low",
            Priority::Normal => "Normal",
            Priority::High => "High",
        }
    }

    /// One character shown beside an entry.
    pub fn marker(&self) -> (text: &'static str)
        ensures
            text@ == self.spec_marker(),
    {
        match self {
            Priority::Low => " ",
            Priority::Normal => "*",
            Priority::High => "!",
        }
    }

    /// The next priority in the cycle Low, Normal, High, Low.
    pub fn cycle(&self) -> (next: Priority)
        ensures
            next == self.spec_cycle(),
    {
        match self {
            Priority::Low => Priority::Normal,
            Priority::Normal => Priority::High,
            Priority::High => Priority::Low,
        }
    }

    /// Place in a sorted list: 0 for High, 1 for Normal, 2 for Low.
    pub fn rank(&self) -> (rank: u16)
        ensures
            rank as nat == self.spec_rank(),
    {
        match self {
            Priority::High => 0,
            Priority::Normal => 1,
            Priority::Low => 2,
        }
    }
}

/// Cycling a priority three times returns to it, and no priority is its own
/// successor.
pub proof fn lemma_priority_cycle(priority: Priority)
    ensures
        priority.spec_cycle().spec_cycle().spec_cycle() == priority,
        priority.spec_cycle() != priority,
{
}

/// A scheduled event. An event without a time lasts all day.
#[derive(Debug, Clone)]
pub struct Event {
    pub id: u32,
    pub date: Date,
    pub time: Option<Time>,
    pub title: String,
    pub priority: Priority,
}

/// What an event holds, with its title as a sequence of characters.
pub struct EventView {
    pub id: u32,
    pub date: Date,
    pub time: Option<Time>,
    pub title: Seq<char>,
    pub priority: Priority,
}

impl View for Event {
    type V = EventView;

    open spec fn view(&self) -> EventView {
        EventView {
            id: self.id,
            date: self.date,
            time: self.time,
            title: self.title@,
            priority: self.priority,
        }
    }
}

/// Place of an event in a day's agenda: 0 for an all-day event, and one more
/// than the minute of the day for an event with a time.
pub open spec fn agenda_rank(time: Option<Time>) -> nat {
    match time {
        None => 0,
        Some(t) => 1 + t.minute_of_day(),
    }
}

/// The text shown for an event's time: the time, or `All day`.
pub open spec fn time_label(time: Option<Time>) -> Seq<char> {
    match time {
        None => "All day"@,
        Some(t) => t.spec_display(),
    }
}

impl Event {
    /// An all-day event of normal priority.
    pub fn new(id: u32, date: Date, title: String) -> (event: Event)
        ensures
            event@ == (EventView {
                id,
                date,
                time: None,
                title: title@,
                priority: Priority::Normal,
            }),
    {
        Event { id, date, time: None, title, priority: Priority::Normal }
    }

    /// The text shown for the event's time: the time, or `All day`.
    pub fn time_display(&self) -> (text: String)
        ensures
            text@ == time_label(self.time),
    {
        match &self.time {
            Some(t) => t.display(),
            None => {
                let mut text = String::new();
                push_text(&mut text, "All day");
                text
            },
        }
    }
}

impl Ranked for Event {
    open spec fn rank_of(v: EventView) -> nat {
        agenda_rank(v.time)
    }

    fn rank(&self) -> (rank: u16) {
        match self.time {
            None => 0,
            Some(t) => 1 + (t.hour as u16) * 60 + t.minute as u16,
        }
    }
}

impl<'a> Ranked for &'a Event {
    open spec fn rank_of(v: EventView) -> nat {
        agenda_rank(v.time)
    }

    fn rank(&self) -> (rank: u16) {
        <Event as Ranked>::rank(*self)
    }
}

/// A to-do item.
#[derive(Debug, Clone)]
pub struct Task {
    pub id: u32,
    pub title: String,
    pub done: bool,
    pub priority: Priority,
}

/// What a task holds, with its title as a sequence of characters.
pub struct TaskView {
    pub id: u32,
    pub title: Seq<char>,
    pub done: bool,
    pub priority: Priority,
}

impl View for Task {
    type V = TaskView;

    open spec fn view(&self) -> TaskView {
        TaskView { id: self.id, title: self.title@, done: self.done, priority: self.priority }
    }
}

/// Place of a task in the task list: open tasks come before done ones, and
/// within each group High comes first, then Normal, then Low.
pub open spec fn task_rank(done: bool, priority: Priority) -> nat {
    if done {
        3 + priority.spec_rank()
    } else {
        priority.spec_rank()
    }
}

impl Task {
    /// An open task of normal priority.
    pub fn new(id: u32, title: String) -> (task: Task)
        ensures
            task@ == (TaskView { id, title: title@, done: false, priority: Priority::Normal }),
    {
        Task { id, title, done: false, priority: Priority::Normal }
    }
}

impl Ranked for Task {
    open spec fn rank_of(v: TaskView) -> nat {
        task_rank(v.done, v.priority)
    }

    fn rank(&self) -> (rank: u16) {
        if self.done {
            3 + self.priority.rank()
        } else {
            self.priority.rank()
        }
    }
}

/// A value that carries an id.
pub trait Identified: View {
    /// The id of a value with view `v`.
    spec fn id_of(v: Self::V) -> u32;

    fn id(&self) -> (id: u32)
        ensures
            id == Self::id_of(self@),
    ;
}

impl Identified for Event {
    open spec fn id_of(v: EventView) -> u32 {
        v.id
    }

    fn id(&self) -> (id: u32) {
        self.id
    }
}

impl Identified for Task {
    open spec fn id_of(v: TaskView) -> u32 {
        v.id
    }

    fn id(&self) -> (id: u32) {
        self.id
    }
}

/// The condition that a value's id is not `id`.
pub open spec fn id_differs<T: Identified>(id: u32) -> spec_fn(T::V) -> bool {
    |v: T::V| T::id_of(v) != id
}

/// Removes every item whose id is `id`; the others keep their order.
pub fn remove_with_id<T: Identified>(items: &mut Vec<T>, id: u32)
    ensures
        views(final(items)@) == views(old(items)@).filter(id_differs::<T>(id)),
{
    let ghost keep = id_differs::<T>(id);
    let ghost mut scanned: int = 0;
    let mut at: usize = 0;
    proof {
        assert(views(old(items)@.take(0)) =~= Seq::empty());
        assert(views(items@.take(0)) =~= Seq::empty());
        assert(items@.skip(0) =~= old(items)@.skip(0));
        reveal(Seq::filter);
    }
    while at < items.len()
        invariant
            keep == id_differs::<T>(id),
            at <= items.len(),
            at <= scanned <= old(items)@.len(),
            items.len() - at == old(items)@.len() - scanned,
            views(items@.take(at as int)) == views(old(items)@.take(scanned)).filter(keep),
            items@.skip(at as int) == old(items)@.skip(scanned),
        decreases items.len() - at,
    {
        let ghost before = items@;
        proof {
            let so_far = views(old(items)@.take(scanned));
            assert(before[at as int] == before.skip(at as int)[0]);
            assert(old(items)@[scanned] == old(items)@.skip(scanned)[0]);
            assert(views(old(items)@.take(scanned + 1)) =~= so_far.push(old(items)@[scanned]@));
            so_far.lemma_filter_push(old(items)@[scanned]@, keep);
        }
        if items[at].id() == id {
            items.remove(at);
            proof {
                assert(items@.take(at as int) =~= before.take(at as int));
                assert(items@.skip(at as int) =~= before.skip(at as int).skip(1));
                assert(old(items)@.skip(scanned + 1) =~= old(items)@.skip(scanned).skip(1));
            }
        } else {
            at += 1;
            proof {
                assert(views(items@.take(at as int)) =~= views(before.take(at - 1)).push(
                    before[at - 1]@,
                ));
                assert(items@.skip(at as int) =~= before.skip(at - 1).skip(1));
                assert(old(items)@.skip(scanned + 1) =~= old(items)@.skip(scanned).skip(1));
            }
        }
        proof {
            scanned = scanned + 1;
        }
    }
    proof {
        assert(items@.take(at as int) =~= items@);
        assert(old(items)@.take(scanned) =~= old(items)@);
    }
}

/// Events in agenda order: all-day events first, then events with a time by
/// minute of the day; events that tie keep the order they had.
pub open spec fn sorted_events(events: Seq<EventView>) -> Seq<EventView> {
    stable_sort(events, agenda_order())
}

/// The key by which events are sorted: the agenda rank of their time.
pub open spec fn agenda_order() -> spec_fn(EventView) -> nat {
    |e: EventView| agenda_rank(e.time)
}

/// The key by which tasks are sorted: the task rank of their state and
/// priority.
pub open spec fn task_order() -> spec_fn(TaskView) -> nat {
    |t: TaskView| task_rank(t.done, t.priority)
}

/// Tasks in list order: open tasks before done ones, and within each group
/// by priority, High first; tasks that tie keep the order they had.
pub open spec fn sorted_tasks(tasks: Seq<TaskView>) -> Seq<TaskView> {
    stable_sort(tasks, task_order())
}

/// Sort events by time (all-day first, then by hour and minute).
///
/// Events that tie keep the order they had.
pub fn sort_events(events: &mut Vec<Event>)
    ensures
        views(final(events)@) == sorted_events(views(old(events)@)),
        final(events).len() == old(events).len(),
        forall|i: int, j: int|
            0 <= i <= j < final(events).len() ==> agenda_rank(#[trigger] final(events)[i].time)
                <= agenda_rank(#[trigger] final(events)[j].time),
{
    proof {
        assert(rank_fn::<Event>() =~= agenda_order());
    }
    sort_by_rank(events);
    proof {
        let before = views(old(events)@);
        let after = views(events@);
        lemma_stable_sort_permutes(before, agenda_order());
        lemma_stable_sort_ordered(before, agenda_order());
        assert forall|i: int, j: int| 0 <= i <= j < events.len() implies agenda_rank(
            #[trigger] events[i].time,
        ) <= agenda_rank(#[trigger] events[j].time) by {
            assert(agenda_order()(after[i]) <= agenda_order()(after[j]));
        }
    }
}

/// Sort tasks: open tasks first, then by priority (High first).
///
/// Tasks that tie keep the order they had.
pub fn sort_tasks(tasks: &mut Vec<Task>)
    ensures
        views(final(tasks)@) == sorted_tasks(views(old(tasks)@)),
        final(tasks).len() == old(tasks).len(),
        forall|i: int, j: int|
            0 <= i <= j < final(tasks).len() ==> task_rank(
                (#[trigger] final(tasks)[i]).done,
                final(tasks)[i].priority,
            ) <= task_rank((#[trigger] final(tasks)[j]).done, final(tasks)[j].priority),
{
    proof {
        assert(rank_fn::<Task>() =~= task_order());
    }
    sort_by_rank(tasks);
    proof {
        let before = views(old(tasks)@);
        let after = views(tasks@);
        lemma_stable_sort_permutes(before, task_order());
        lemma_stable_sort_ordered(before, task_order());
        assert forall|i: int, j: int| 0 <= i <= j < tasks.len() implies task_rank(
            (#[trigger] tasks[i]).done,
            tasks[i].priority,
        ) <= task_rank((#[trigger] tasks[j]).done, tasks[j].priority) by {
            assert(task_order()(after[i]) <= task_order()(after[j]));
        }
    }
}

/// Sorting tasks that are already sorted changes nothing.
pub proof fn lemma_sorted_tasks_idempotent(tasks: Seq<TaskView>)
    ensures
        sorted_tasks(sorted_tasks(tasks)) == sorted_tasks(tasks),
{
    lemma_stable_sort_idempotent(tasks, task_order());
}

/// In sorted tasks no done task comes before an open one, and from one open
/// task to a later open one, as from one done task to a later done one, the
/// priority goes from High through Normal to Low and never back.
pub proof fn lemma_sorted_tasks_order(tasks: Seq<TaskView>, i: int, j: int)
    requires
        0 <= i <= j < sorted_tasks(tasks).len(),
    ensures
        sorted_tasks(tasks)[i].done ==> sorted_tasks(tasks)[j].done,
        sorted_tasks(tasks)[i].done == sorted_tasks(tasks)[j].done ==> sorted_tasks(
            tasks,
        )[i].priority.spec_rank() <= sorted_tasks(tasks)[j].priority.spec_rank(),
{
    lemma_stable_sort_ordered(tasks, task_order());
    let sorted = sorted_tasks(tasks);
    assert(task_order()(sorted[i]) <= task_order()(sorted[j]));
}

/// Sorted tasks are the tasks that were sorted, each as often.
pub proof fn lemma_sorted_tasks_same_tasks(tasks: Seq<TaskView>)
    ensures
        sorted_tasks(tasks).to_multiset() == tasks.to_multiset(),
        sorted_tasks(tasks).len() == tasks.len(),
{
    lemma_stable_sort_permutes(tasks, task_order());
}

/// In sorted events no event with a time comes before an all-day event, and
/// from one event with a time to a later one the minute of the day never
/// falls.
pub proof fn lemma_sorted_events_order(events: Seq<EventView>, i: int, j: int)
    requires
        0 <= i <= j < sorted_events(events).len(),
    ensures
        sorted_events(events)[j].time.is_none() ==> sorted_events(events)[i].time.is_none(),
        sorted_events(events)[i].time.is_some() && sorted_events(events)[j].time.is_some()
            ==> sorted_events(events)[i].time.unwrap().minute_of_day() <= sorted_events(
            events,
        )[j].time.unwrap().minute_of_day(),
{
    lemma_stable_sort_ordered(events, agenda_order());
    let sorted = sorted_events(events);
    assert(agenda_order()(sorted[i]) <= agenda_order()(sorted[j]));
}

/// Sorted events are the events that were sorted, each as often.
pub proof fn lemma_sorted_events_same_events(events: Seq<EventView>)
    ensures
        sorted_events(events).to_multiset() == events.to_multiset(),
        sorted_events(events).len() == events.len(),
{
    lemma_stable_sort_permutes(events, agenda_order());
}

} // verus!
