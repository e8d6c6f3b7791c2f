use attendance::config::UserInput;
use attendance::dates::{parse_long_date, CalendarDate, DateWindow};
use attendance::text::chars_of;

fn date(year: u16, month: u8, day: u8) -> CalendarDate {
    CalendarDate::new(year, month, day).unwrap()
}

#[test]
fn calendar_dates_are_validated() {
    assert_eq!(CalendarDate::new(2024, 2, 29), Some(CalendarDate { year: 2024, month: 2, day: 29 }));
    assert_eq!(CalendarDate::new(2023, 2, 29), None);
    assert_eq!(CalendarDate::new(1900, 2, 29), None);
    assert_eq!(CalendarDate::new(2000, 2, 29), Some(CalendarDate { year: 2000, month: 2, day: 29 }));
    assert_eq!(CalendarDate::new(2024, 4, 31), None);
    assert_eq!(CalendarDate::new(2024, 13, 1), None);
    assert_eq!(CalendarDate::new(2024, 0, 1), None);
    assert_eq!(CalendarDate::new(2024, 1, 0), None);
    assert_eq!(CalendarDate::new(10000, 1, 1), None);
    assert!(CalendarDate::new(0, 1, 1).is_some());
    assert!(CalendarDate::new(9999, 12, 31).is_some());
}

#[test]
fn julian_day_numbers() {
    assert_eq!(date(2000, 1, 1).to_julian_day(), 2_451_545);
    assert_eq!(date(2019, 1, 1).to_julian_day(), 2_458_485);
    assert_eq!(date(2024, 1, 5).to_julian_day(), 2_460_315);
    assert_eq!(CalendarDate::from_julian_day(2_451_545), Some(date(2000, 1, 1)));
    assert_eq!(CalendarDate::from_julian_day(2_460_315), Some(date(2024, 1, 5)));
}

#[test]
fn julian_days_outside_the_four_digit_years_have_no_date() {
    assert_eq!(CalendarDate::from_julian_day(0), None);
    assert_eq!(CalendarDate::from_julian_day(i32::MAX), None);
    assert_eq!(CalendarDate::from_julian_day(i32::MIN), None);
    let first = date(0, 1, 1).to_julian_day();
    assert_eq!(CalendarDate::from_julian_day(first), Some(date(0, 1, 1)));
    assert_eq!(CalendarDate::from_julian_day(first - 1), None);
    let last = date(9999, 12, 31).to_julian_day();
    assert_eq!(CalendarDate::from_julian_day(last), Some(date(9999, 12, 31)));
    assert_eq!(CalendarDate::from_julian_day(last + 1), None);
}

#[test]
fn long_dates_are_parsed() {
    assert_eq!(parse_long_date("2024-01-05"), Some(date(2024, 1, 5)));
    assert_eq!(parse_long_date("0001-12-31"), Some(date(1, 12, 31)));
    assert_eq!(parse_long_date("2024-02-30"), None);
    assert_eq!(parse_long_date("2024-1-05"), None);
    assert_eq!(parse_long_date("24-01-05"), None);
    assert_eq!(parse_long_date("2024/01/05"), None);
    assert_eq!(parse_long_date("2024-01-05 "), None);
    assert_eq!(parse_long_date(""), None);
    assert_eq!(parse_long_date("20２4-01-05"), None);
}

#[test]
fn date_forms() {
    let d = date(2024, 3, 4);
    assert_eq!(d.long_form(), "2024-03-04");
    assert_eq!(d.short_form(), "24-03-04");
    assert_eq!(d.month_day_chars().iter().collect::<String>(), "3月4日");
    assert_eq!(date(987, 11, 30).long_form(), "0987-11-30");
    assert_eq!(date(2005, 11, 30).short_form(), "05-11-30");
    assert_eq!(date(2024, 12, 25).month_day_chars().iter().collect::<String>(), "12月25日");
}

#[test]
fn long_form_round_trips() {
    for d in [date(2024, 2, 29), date(0, 1, 1), date(9999, 12, 31), date(1999, 10, 9)] {
        assert_eq!(parse_long_date(&d.long_form()), Some(d));
    }
}

fn window(start: CalendarDate, end: CalendarDate) -> DateWindow {
    DateWindow::expand(start.to_julian_day(), end.to_julian_day()).unwrap()
}

fn dates_of(w: &DateWindow) -> Vec<CalendarDate> {
    (0..w.len()).map(|i| w.date(i)).collect()
}

#[test]
fn window_swaps_its_bounds() {
    let forward = window(date(2024, 1, 5), date(2024, 1, 10));
    let backward = window(date(2024, 1, 10), date(2024, 1, 5));
    assert_eq!(forward, backward);
    assert_eq!(
        dates_of(&backward),
        vec![
            date(2024, 1, 5),
            date(2024, 1, 6),
            date(2024, 1, 7),
            date(2024, 1, 8),
            date(2024, 1, 9),
            date(2024, 1, 10)
        ]
    );
}

#[test]
fn window_of_one_day_and_across_months() {
    let one = window(date(2024, 3, 4), date(2024, 3, 4));
    assert_eq!(dates_of(&one), vec![date(2024, 3, 4)]);
    let leap = window(date(2024, 2, 28), date(2024, 3, 1));
    assert_eq!(dates_of(&leap), vec![date(2024, 2, 28), date(2024, 2, 29), date(2024, 3, 1)]);
    let year = window(date(2023, 12, 31), date(2024, 1, 1));
    assert_eq!(dates_of(&year), vec![date(2023, 12, 31), date(2024, 1, 1)]);
}

#[test]
fn window_outside_the_calendar_is_none() {
    let last = date(9999, 12, 31).to_julian_day();
    assert_eq!(DateWindow::expand(last, last + 1), None);
    assert_eq!(DateWindow::expand(last + 1, last), None);
    let first = date(0, 1, 1).to_julian_day();
    assert_eq!(DateWindow::expand(first - 1, first + 3), None);
    assert!(DateWindow::expand(first, first + 3).is_some());
}

#[test]
fn lookup_by_short_form() {
    let w = window(date(2024, 1, 5), date(2024, 1, 10));
    assert_eq!(w.lookup(&chars_of("24-01-08")), Some(date(2024, 1, 8)));
    assert_eq!(w.lookup(&chars_of("24-01-11")), None);
    assert_eq!(w.lookup(&chars_of("24-01-04")), None);
    assert_eq!(w.lookup(&chars_of("2024-01-08")), None);
}

#[test]
fn resolve_reads_the_first_eight_characters() {
    let w = window(date(2024, 1, 5), date(2024, 1, 10));
    assert_eq!(w.resolve("24-01-08 星期一"), Some(date(2024, 1, 8)));
    assert_eq!(w.resolve("24-01-08"), Some(date(2024, 1, 8)));
    assert_eq!(w.resolve("24-01-0"), None);
    assert_eq!(w.resolve("24-01-12 Fri"), None);
    assert_eq!(w.resolve(""), None);
    assert_eq!(w.resolve("星期一 24-01-08"), None);
}

#[test]
fn default_window_is_last_monday_to_last_friday() {
    // 2024-03-06 is a Wednesday.
    let today = date(2024, 3, 6).to_julian_day();
    let input = UserInput::default_for(today);
    assert_eq!(CalendarDate::from_julian_day(input.start_date), Some(date(2024, 2, 26)));
    assert_eq!(CalendarDate::from_julian_day(input.end_date), Some(date(2024, 3, 1)));
    // A Sunday, a Friday and a Saturday.
    let sunday = UserInput::default_for(date(2024, 3, 10).to_julian_day());
    assert_eq!(CalendarDate::from_julian_day(sunday.end_date), Some(date(2024, 3, 8)));
    let friday = UserInput::default_for(date(2024, 3, 8).to_julian_day());
    assert_eq!(CalendarDate::from_julian_day(friday.end_date), Some(date(2024, 3, 1)));
    let saturday = UserInput::default_for(date(2024, 3, 9).to_julian_day());
    assert_eq!(CalendarDate::from_julian_day(saturday.end_date), Some(date(2024, 3, 1)));
    assert_eq!(saturday.end_date - saturday.start_date, 4);
}

#[test]
fn default_columns() {
    let input = UserInput::default_for(2_460_376);
    assert_eq!(input.statistics_employee_id_col, 4);
    assert_eq!(input.statistics_date_col, 7);
    assert_eq!(input.statistics_enter_result_col, 10);
    assert_eq!(input.statistics_leave_result_col, 12);
    assert_eq!(input.statistics_work_minutes_col, 20);
    assert_eq!(input.statistics_start_row, 5);
    assert_eq!(input.record_employee_id_col, 4);
    assert_eq!(input.record_date_col, 7);
    assert_eq!(input.record_abnormal_reason_col, 14);
    assert_eq!(input.record_start_row, 4);
    assert_eq!(input.template_cfg.len(), 3);
    assert_eq!(input.template_cfg[0].employee_id_col, 1);
    assert_eq!(input.template_cfg[0].date_block_start_col, 7);
    assert_eq!(input.template_cfg[1].employee_id_col, 4);
    assert_eq!(input.template_cfg[2].date_block_start_col, 9);
    assert_eq!(input.template_cfg[2].title_row, 2);
}

#[test]
fn default_window_at_the_smallest_day() {
    let input = UserInput::default_for(i32::MIN);
    assert_eq!(input.start_date, i32::MIN);
    assert_eq!(input.end_date, i32::MIN);
}

#[test]
fn window_between_two_dates_holds_them() {
    let w = DateWindow::between(&date(2024, 1, 10), &date(2024, 1, 5)).unwrap();
    assert_eq!(w.len(), 6);
    assert_eq!(w.date(0), date(2024, 1, 5));
    assert_eq!(w.date(5), date(2024, 1, 10));
    assert_eq!(w, DateWindow::between(&date(2024, 1, 5), &date(2024, 1, 10)).unwrap());
    let one = DateWindow::between(&date(2024, 2, 29), &date(2024, 2, 29)).unwrap();
    assert_eq!(dates_of(&one), vec![date(2024, 2, 29)]);
}

#[test]
fn julian_days_and_dates_are_inverse() {
    for d in [date(0, 1, 1), date(1999, 12, 31), date(2024, 2, 29), date(9999, 12, 31)] {
        assert_eq!(CalendarDate::from_julian_day(d.to_julian_day()), Some(d));
    }
    for day in [2_451_545, 2_460_315, 1_721_060] {
        assert_eq!(CalendarDate::from_julian_day(day).unwrap().to_julian_day(), day);
    }
}
