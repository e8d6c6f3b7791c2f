//! Calendar dates, their textual forms, and the window of dates that one
//! import or report covers.
//!
//! The calendar itself (which dates exist, and their Julian day numbers) is
//! that of the `time` crate; the textual forms are this library's own.

use vstd::prelude::*;
use crate::text::{
    all_digits, chars_of, decimal_text, digit_of, digits_value, is_digit, is_digit_char,
    lemma_digits_value_padded, lemma_padded_text_shape, lemma_padded_text_value, padded_text,
    pow10, push_decimal, push_padded, same_text, string_of,
};

verus! {

/// Leap years of the proleptic Gregorian calendar.
pub open spec fn is_leap_year(year: int) -> bool {
    year % 4 == 0 && (year % 100 != 0 || year % 400 == 0)
}

/// The number of days of a month.
pub open spec fn days_in_month(year: int, month: int) -> int {
    if month == 2 {
        if is_leap_year(year) {
            29
        } else {
            28
        }
    } else if month == 4 || month == 6 || month == 9 || month == 11 {
        30
    } else {
        31
    }
}

/// The dates of the proleptic Gregorian calendar between the years -9999
/// and 9999, the years of the `time` crate without its `large-dates`
/// feature.
pub open spec fn is_calendar_date(year: int, month: int, day: int) -> bool {
    &&& -9999 <= year <= 9999
    &&& 1 <= month <= 12
    &&& 1 <= day <= days_in_month(year, month)
}

/// The Julian day number of a calendar date.
pub uninterp spec fn julian_day_number(year: int, month: int, day: int) -> int;

/// The calendar date (year, month, day) with a given Julian day number, if
/// the calendar holds one.
pub uninterp spec fn civil_of_julian_day(julian_day: int) -> Option<(int, int, int)>;

/// `Date::from_calendar_date` of the `time` crate accepts a year between
/// -9999 and 9999, a month between 1 and 12 (`Month::try_from`) and a day
/// that the month has, and nothing else; `Date::to_julian_day` then gives
/// the date's Julian day number, which is the number that
/// `Date::from_julian_day` gives the same date for.
#[verifier::external_body]
fn julian_day_from_civil(year: i32, month: u8, day: u8) -> (r: Option<i32>)
    ensures
        r is Some <==> is_calendar_date(year as int, month as int, day as int),
        r is Some ==> r->0 == julian_day_number(year as int, month as int, day as int),
        r is Some ==> civil_of_julian_day(r->0 as int) == Some(
            (year as int, month as int, day as int),
        ),
{
    match time::Month::try_from(month) {
        Ok(m) => time::Date::from_calendar_date(year, m, day).ok().map(|d| d.to_julian_day()),
        Err(_) => None,
    }
}

/// `Date::from_julian_day` of the `time` crate gives the date with a Julian
/// day number, or an error where the number lies outside the calendar; the
/// date's `year`, `month` and `day` are always those of a calendar date,
/// and `Date::to_julian_day` gives the number back for it.
#[verifier::external_body]
fn civil_from_julian_day(julian_day: i32) -> (r: Option<(i32, u8, u8)>)
    ensures
        r is None ==> civil_of_julian_day(julian_day as int) is None,
        r matches Some(c) ==> civil_of_julian_day(julian_day as int) == Some(
            (c.0 as int, c.1 as int, c.2 as int),
        ) && is_calendar_date(c.0 as int, c.1 as int, c.2 as int) && julian_day_number(
            c.0 as int,
            c.1 as int,
            c.2 as int,
        ) == julian_day,
{
    time::Date::from_julian_day(julian_day).ok().map(|d| (d.year(), u8::from(d.month()), d.day()))
}

/// A calendar date of the years 0 to 9999, the years that have a four-digit
/// form.
#[derive(Clone, Copy, Debug, PartialEq, Eq, Structural)]
pub struct CalendarDate {
    pub year: u16,
    pub month: u8,
    pub day: u8,
}

/// The date that the ledger files a Julian day under, where it has one.
pub open spec fn date_of_day(julian_day: int) -> Option<CalendarDate> {
    match civil_of_julian_day(julian_day) {
        Some(c) => if 0 <= c.0 <= 9999 && 0 <= c.1 <= 255 && 0 <= c.2 <= 255 {
            Some(CalendarDate { year: c.0 as u16, month: c.1 as u8, day: c.2 as u8 })
        } else {
            None
        },
        None => None,
    }
}

/// The Julian day number of a date.
pub open spec fn julian_of(date: CalendarDate) -> int {
    julian_day_number(date.year as int, date.month as int, date.day as int)
}

/// The form `YYYY-MM-DD`.
pub open spec fn long_text(date: CalendarDate) -> Seq<char> {
    padded_text(date.year as nat, 4) + seq!['-'] + padded_text(date.month as nat, 2) + seq!['-']
        + padded_text(date.day as nat, 2)
}

/// The form `YY-MM-DD`, with the last two digits of the year.
pub open spec fn short_text(date: CalendarDate) -> Seq<char> {
    padded_text(date.year as nat, 2) + seq!['-'] + padded_text(date.month as nat, 2) + seq!['-']
        + padded_text(date.day as nat, 2)
}

/// The form used in report headers: month and day without padding, each
/// followed by its sign.
pub open spec fn month_day_text(date: CalendarDate) -> Seq<char> {
    decimal_text(date.month as nat) + seq!['月'] + decimal_text(date.day as nat) + seq!['日']
}

/// The date that a text of the form `YYYY-MM-DD` writes: four digits, a
/// hyphen, two digits, a hyphen and two digits that name a calendar date.
pub open spec fn long_date_spec(s: Seq<char>) -> Option<CalendarDate> {
    if s.len() == 10 && s[4] == '-' && s[7] == '-' && all_digits(s.subrange(0, 4)) && all_digits(
        s.subrange(5, 7),
    ) && all_digits(s.subrange(8, 10)) {
        let year = digits_value(s.subrange(0, 4));
        let month = digits_value(s.subrange(5, 7));
        let day = digits_value(s.subrange(8, 10));
        if is_calendar_date(year as int, month as int, day as int) {
            Some(CalendarDate { year: year as u16, month: month as u8, day: day as u8 })
        } else {
            None
        }
    } else {
        None
    }
}

impl CalendarDate {
    /// The date exists in the calendar and its year has four digits.
    pub open spec fn wf(&self) -> bool {
        &&& is_calendar_date(self.year as int, self.month as int, self.day as int)
        &&& self.year <= 9999
    }

    /// The date of a year, month and day, if the calendar holds it and the
    /// year is at most 9999.
    pub fn new(year: u16, month: u8, day: u8) -> (r: Option<CalendarDate>)
        ensures
            r is Some <==> (CalendarDate { year, month, day }).wf(),
            r is Some ==> r->0 == (CalendarDate { year, month, day }),
    {
        if year > 9999 {
            return None;
        }
        match julian_day_from_civil(year as i32, month, day) {
            Some(_) => Some(CalendarDate { year, month, day }),
            None => None,
        }
    }

    /// The date of a Julian day number, if the calendar holds it with a year
    /// between 0 and 9999.
    pub fn from_julian_day(julian_day: i32) -> (r: Option<CalendarDate>)
        ensures
            r == date_of_day(julian_day as int),
            r is Some ==> r->0.wf() && julian_of(r->0) == julian_day,
    {
        match civil_from_julian_day(julian_day) {
            Some(c) => if 0 <= c.0 && c.0 <= 9999 {
                Some(CalendarDate { year: c.0 as u16, month: c.1, day: c.2 })
            } else {
                None
            },
            None => None,
        }
    }

    /// The date's Julian day number.
    pub fn to_julian_day(&self) -> (julian_day: i32)
        requires
            self.wf(),
        ensures
            julian_day == julian_of(*self),
            date_of_day(julian_day as int) == Some(*self),
    {
        match julian_day_from_civil(self.year as i32, self.month, self.day) {
            Some(julian_day) => julian_day,
            None => 0,
        }
    }

    /// The characters of the form `YYYY-MM-DD`.
    pub fn long_chars(&self) -> (out: Vec<char>)
        ensures
            out@ == long_text(*self),
    {
        let mut out: Vec<char> = Vec::new();
        push_padded(&mut out, self.year as u32, 4);
        out.push('-');
        push_padded(&mut out, self.month as u32, 2);
        out.push('-');
        push_padded(&mut out, self.day as u32, 2);
        assert(out@ =~= long_text(*self));
        out
    }

    /// The characters of the form `YY-MM-DD`.
    pub fn short_chars(&self) -> (out: Vec<char>)
        ensures
            out@ == short_text(*self),
    {
        let mut out: Vec<char> = Vec::new();
        push_padded(&mut out, self.year as u32, 2);
        out.push('-');
        push_padded(&mut out, self.month as u32, 2);
        out.push('-');
        push_padded(&mut out, self.day as u32, 2);
        assert(out@ =~= short_text(*self));
        out
    }

    /// The date as `YYYY-MM-DD`.
    pub fn long_form(&self) -> (s: String)
        ensures
            s@ == long_text(*self),
    {
        string_of(&self.long_chars())
    }

    /// The date as `YY-MM-DD`.
    pub fn short_form(&self) -> (s: String)
        ensures
            s@ == short_text(*self),
    {
        string_of(&self.short_chars())
    }

    /// Month and day as a report header shows them.
    pub fn month_day_chars(&self) -> (out: Vec<char>)
        ensures
            out@ == month_day_text(*self),
    {
        let mut out: Vec<char> = Vec::new();
        push_decimal(&mut out, self.month as u32);
        out.push('月');
        push_decimal(&mut out, self.day as u32);
        out.push('日');
        assert(out@ =~= month_day_text(*self));
        out
    }
}

/// Reads the digits of `chars` between `from` and `to` as a number.
fn read_digits(chars: &Vec<char>, from: usize, to: usize) -> (r: Option<u32>)
    requires
        from <= to <= chars.len(),
        to - from <= 4,
    ensures
        r is Some <==> all_digits(chars@.subrange(from as int, to as int)),
        r is Some ==> r->0 == digits_value(chars@.subrange(from as int, to as int)),
        r is Some ==> r->0 < pow10((to - from) as nat),
{
    let ghost part = chars@.subrange(from as int, to as int);
    let mut acc: u32 = 0;
    let mut i: usize = from;
    assert(pow10(0) == 1);
    while i < to
        invariant
            from <= i <= to <= chars.len(),
            to - from <= 4,
            part == chars@.subrange(from as int, to as int),
            all_digits(part.subrange(0, i - from)),
            acc == digits_value(part.subrange(0, i - from)),
            acc < pow10((i - from) as nat),
            pow10((i - from) as nat) <= 1000 || i == to,
        decreases to - i,
    {
        let c = chars[i];
        assert(c == part[i - from]);
        if !is_digit_char(c) {
            assert(!all_digits(part));
            return None;
        }
        proof {
            let before = part.subrange(0, i - from);
            let after = part.subrange(0, i - from + 1);
            assert(after.drop_last() =~= before);
            assert(after.last() == c);
            assert forall|j: int| 0 <= j < after.len() implies is_digit(#[trigger] after[j]) by {
                if j < before.len() {
                    assert(after[j] == before[j]);
                }
            }
            assert(pow10((i - from + 1) as nat) == 10 * pow10((i - from) as nat));
            reveal_with_fuel(pow10, 5);
        }
        acc = acc * 10 + digit_of(c) as u32;
        i += 1;
    }
    assert(part.subrange(0, to - from) =~= part);
    Some(acc)
}

/// Reads a date of the form `YYYY-MM-DD`.
pub fn parse_long_date(text: &str) -> (r: Option<CalendarDate>)
    ensures
        r == long_date_spec(text@),
        r is Some ==> r->0.wf(),
{
    let chars = chars_of(text);
    if chars.len() != 10 || chars[4] != '-' || chars[7] != '-' {
        return None;
    }
    let year = match read_digits(&chars, 0, 4) {
        Some(v) => v,
        None => { return None; },
    };
    let month = match read_digits(&chars, 5, 7) {
        Some(v) => v,
        None => { return None; },
    };
    let day = match read_digits(&chars, 8, 10) {
        Some(v) => v,
        None => { return None; },
    };
    proof {
        reveal_with_fuel(pow10, 5);
    }
    CalendarDate::new(year as u16, month as u8, day as u8)
}

/// A date written as `YYYY-MM-DD` is read back as itself.
pub proof fn lemma_long_text_round_trip(date: CalendarDate)
    requires
        date.wf(),
    ensures
        long_text(date).len() == 10,
        long_date_spec(long_text(date)) == Some(date),
{
    let y = padded_text(date.year as nat, 4);
    let m = padded_text(date.month as nat, 2);
    let d = padded_text(date.day as nat, 2);
    let s = long_text(date);
    lemma_padded_text_shape(date.year as nat, 4);
    lemma_padded_text_shape(date.month as nat, 2);
    lemma_padded_text_shape(date.day as nat, 2);
    reveal_with_fuel(pow10, 5);
    lemma_padded_text_value(date.year as nat, 4);
    lemma_padded_text_value(date.month as nat, 2);
    lemma_padded_text_value(date.day as nat, 2);
    assert(s.len() == 10);
    assert(s.subrange(0, 4) =~= y);
    assert(s.subrange(5, 7) =~= m);
    assert(s.subrange(8, 10) =~= d);
    assert(s[4] == '-');
    assert(s[7] == '-');
}

/// A text that is read as a date is the `YYYY-MM-DD` form of that date.
pub proof fn lemma_long_date_text(s: Seq<char>)
    requires
        long_date_spec(s) is Some,
    ensures
        long_date_spec(s)->0.wf(),
        long_text(long_date_spec(s)->0) == s,
{
    let y = s.subrange(0, 4);
    let m = s.subrange(5, 7);
    let d = s.subrange(8, 10);
    lemma_digits_value_padded(y);
    lemma_digits_value_padded(m);
    lemma_digits_value_padded(d);
    reveal_with_fuel(pow10, 5);
    assert(long_text(long_date_spec(s)->0) =~= s);
}

/// Two dates with the same `YYYY-MM-DD` form are the same date.
pub proof fn lemma_long_text_injective(a: CalendarDate, b: CalendarDate)
    requires
        a.wf(),
        b.wf(),
        long_text(a) == long_text(b),
    ensures
        a == b,
{
    lemma_long_text_round_trip(a);
    lemma_long_text_round_trip(b);
}

/// The dates of an import or a report, in calendar order.
#[derive(Clone, Debug, PartialEq, Eq)]
pub struct DateWindow {
    dates: Vec<CalendarDate>,
}

impl View for DateWindow {
    type V = Seq<CalendarDate>;

    closed spec fn view(&self) -> Seq<CalendarDate> {
        self.dates@
    }
}

/// Every day from `lo` to `hi` has a date.
pub open spec fn window_supported(lo: int, hi: int) -> bool {
    forall|day: int| lo <= day <= hi ==> (#[trigger] date_of_day(day)) is Some
}

/// The dates of the days from `lo` to `hi`, one after the other.
pub open spec fn window_dates(lo: int, hi: int) -> Seq<CalendarDate> {
    Seq::new((hi - lo + 1) as nat, |i: int| date_of_day(lo + i)->0)
}

/// The window between two Julian days, whichever of them comes first:
/// every day from the earlier to the later, both included. There is none
/// where one of the days has no date.
pub open spec fn expand_spec(start: int, end: int) -> Option<Seq<CalendarDate>> {
    let lo = if start <= end {
        start
    } else {
        end
    };
    let hi = if start <= end {
        end
    } else {
        start
    };
    if window_supported(lo, hi) {
        Some(window_dates(lo, hi))
    } else {
        None
    }
}

/// The first of `dates` whose `YY-MM-DD` form is `short`.
pub open spec fn find_short(dates: Seq<CalendarDate>, short: Seq<char>) -> Option<CalendarDate>
    decreases dates.len(),
{
    if dates.len() == 0 {
        None
    } else if short_text(dates[0]) == short {
        Some(dates[0])
    } else {
        find_short(dates.drop_first(), short)
    }
}

/// The date of a source sheet's date cell: only the first eight characters
/// of the cell count, and they name a date only if the window holds one of
/// that `YY-MM-DD` form.
pub open spec fn cell_date(dates: Seq<CalendarDate>, cell: Seq<char>) -> Option<CalendarDate> {
    if cell.len() >= 8 {
        find_short(dates, cell.subrange(0, 8))
    } else {
        None
    }
}

/// Every date of the sequence is well formed.
pub open spec fn all_wf(dates: Seq<CalendarDate>) -> bool {
    forall|i: int| 0 <= i < dates.len() ==> (#[trigger] dates[i]).wf()
}

/// What `find_short` finds is one of the dates, of the form asked for.
pub proof fn lemma_find_short_member(dates: Seq<CalendarDate>, short: Seq<char>)
    ensures
        find_short(dates, short) matches Some(d) ==> dates.contains(d) && short_text(d) == short,
        find_short(dates, short) is None ==> forall|i: int|
            0 <= i < dates.len() ==> short_text(#[trigger] dates[i]) != short,
    decreases dates.len(),
{
    if dates.len() > 0 {
        if short_text(dates[0]) == short {
            assert(dates.contains(dates[0]));
        } else {
            let rest = dates.drop_first();
            lemma_find_short_member(rest, short);
            if find_short(rest, short) is Some {
                let d = find_short(rest, short)->0;
                let i = choose|i: int| 0 <= i < rest.len() && rest[i] == d;
                assert(dates[i + 1] == d);
            } else {
                assert forall|i: int| 0 <= i < dates.len() implies short_text(
                    #[trigger] dates[i],
                ) != short by {
                    if i > 0 {
                        assert(dates[i] == rest[i - 1]);
                    }
                }
            }
        }
    }
}

/// The window between two days does not depend on which of them is given
/// first.
pub proof fn lemma_expand_symmetric(start: int, end: int)
    ensures
        expand_spec(start, end) == expand_spec(end, start),
{
}

impl DateWindow {
    /// Every date of the window is well formed.
    pub open spec fn wf(&self) -> bool {
        all_wf(self@)
    }

    /// The window between two Julian days, in calendar order, whichever of
    /// the two is given first.
    pub fn expand(start: i32, end: i32) -> (r: Option<DateWindow>)
        ensures
            match r {
                Some(w) => expand_spec(start as int, end as int) == Some(w@) && w.wf(),
                None => expand_spec(start as int, end as int) is None,
            },
    {
        let lo: i32 = if start <= end {
            start
        } else {
            end
        };
        let hi: i32 = if start <= end {
            end
        } else {
            start
        };
        let mut dates: Vec<CalendarDate> = Vec::new();
        let mut day: i32 = lo;
        loop
            invariant
                lo as int == (if start <= end { start as int } else { end as int }),
                hi as int == (if start <= end { end as int } else { start as int }),
                lo <= day <= hi,
                dates@.len() == day - lo,
                forall|i: int| 0 <= i < dates@.len() ==> date_of_day(lo + i) == Some(#[trigger] dates@[i]),
                all_wf(dates@),
            decreases hi - day,
        {
            match CalendarDate::from_julian_day(day) {
                Some(date) => {
                    let ghost before = dates@;
                    dates.push(date);
                    assert forall|i: int| 0 <= i < dates@.len() implies date_of_day(lo + i) == Some(
                        #[trigger] dates@[i],
                    ) by {
                        if i < before.len() {
                            assert(dates@[i] == before[i]);
                        }
                    }
                    assert forall|i: int| 0 <= i < dates@.len() implies (#[trigger] dates@[i]).wf() by {
                        if i < before.len() {
                            assert(dates@[i] == before[i]);
                        }
                    }
                },
                None => {
                    assert(!window_supported(lo as int, hi as int));
                    return None;
                },
            }
            if day == hi {
                proof {
                    assert forall|d: int| lo <= d <= hi implies (#[trigger] date_of_day(d)) is Some by {
                        assert(date_of_day(lo + (d - lo)) == Some(dates@[d - lo]));
                    }
                    assert(dates@ =~= window_dates(lo as int, hi as int));
                }
                return Some(DateWindow { dates });
            }
            day += 1;
        }
    }

    /// The window between two dates, in calendar order, whichever of the
    /// two is given first: it starts with the earlier date, ends with the
    /// later and holds every date between them.
    pub fn between(a: &CalendarDate, b: &CalendarDate) -> (r: Option<DateWindow>)
        requires
            a.wf(),
            b.wf(),
        ensures
            match r {
                Some(w) => expand_spec(julian_of(*a), julian_of(*b)) == Some(w@) && w.wf(),
                None => expand_spec(julian_of(*a), julian_of(*b)) is None,
            },
            r matches Some(w) ==> {
                &&& w@.len() >= 1
                &&& w@.first() == (if julian_of(*a) <= julian_of(*b) {
                    *a
                } else {
                    *b
                })
                &&& w@.last() == (if julian_of(*a) <= julian_of(*b) {
                    *b
                } else {
                    *a
                })
            },
    {
        DateWindow::expand(a.to_julian_day(), b.to_julian_day())
    }

    /// The number of dates in the window.
    pub fn len(&self) -> (n: usize)
        ensures
            n == self@.len(),
    {
        self.dates.len()
    }

    /// The date at position `index`, counted from the earliest.
    pub fn date(&self, index: usize) -> (d: CalendarDate)
        requires
            index < self@.len(),
        ensures
            d == self@[index as int],
    {
        self.dates[index]
    }

    /// The first date of the window whose `YY-MM-DD` form is `short`.
    pub fn lookup(&self, short: &Vec<char>) -> (r: Option<CalendarDate>)
        ensures
            r == find_short(self@, short@),
    {
        let n = self.dates.len();
        let mut i: usize = 0;
        assert(self.dates@.subrange(0, n as int) =~= self.dates@);
        while i < n
            invariant
                i <= n,
                n == self.dates@.len(),
                find_short(self.dates@, short@) == find_short(
                    self.dates@.subrange(i as int, n as int),
                    short@,
                ),
            decreases n - i,
        {
            let date = self.dates[i];
            let form = date.short_chars();
            proof {
                let rest = self.dates@.subrange(i as int, n as int);
                assert(rest[0] == date);
                assert(rest.drop_first() =~= self.dates@.subrange(i + 1, n as int));
            }
            if same_text(&form, short) {
                return Some(date);
            }
            i += 1;
        }
        None
    }

    /// The date that a source sheet's date cell names, if the window holds
    /// it.
    pub fn resolve(&self, cell: &str) -> (r: Option<CalendarDate>)
        ensures
            r == cell_date(self@, cell@),
    {
        let chars = chars_of(cell);
        if chars.len() < 8 {
            return None;
        }
        let mut short: Vec<char> = Vec::new();
        let mut i: usize = 0;
        while i < 8
            invariant
                i <= 8 <= chars.len(),
                short@ == chars@.subrange(0, i as int),
            decreases 8 - i,
        {
            short.push(chars[i]);
            i += 1;
            assert(short@ =~= chars@.subrange(0, i as int));
        }
        self.lookup(&short)
    }
}

} // verus!
