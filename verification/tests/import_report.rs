use attendance::config::{TemplateMapping, UserInput};
use attendance::dates::CalendarDate;
use attendance::import::{update_record, update_statistics, ImportError, RecordRow, StatisticsRow};
use attendance::record::Attendance;
use attendance::report::{
    generate_report, style_range, ReportError, ReportStep, SheetProblem, TemplateSheet,
};
use attendance::store::Store;

fn open() -> (sled::Db, Store) {
    let db = sled::Config::new().temporary(true).open().unwrap();
    let store = Store::new(db.clone());
    (db, store)
}

fn date(year: u16, month: u8, day: u8) -> CalendarDate {
    CalendarDate::new(year, month, day).unwrap()
}

fn config(start: CalendarDate, end: CalendarDate, templates: Vec<TemplateMapping>) -> UserInput {
    UserInput {
        start_date: start.to_julian_day(),
        end_date: end.to_julian_day(),
        template_cfg: templates,
        ..UserInput::default_for(2_460_376)
    }
}

fn mapping(id: u32, start: u32, row: u32) -> TemplateMapping {
    TemplateMapping { employee_id_col: id, date_block_start_col: start, title_row: row }
}

fn stat(id: &str, day: &str, enter: &str, leave: &str, minutes: f64) -> StatisticsRow {
    StatisticsRow {
        employee_id: id.to_string(),
        date: day.to_string(),
        enter_info: enter.to_string(),
        leave_info: leave.to_string(),
        work_minutes_bits: minutes.to_bits(),
    }
}

fn rec(id: &str, day: &str, reason: &str) -> RecordRow {
    RecordRow { employee_id: id.to_string(), date: day.to_string(), abnormal_reason: reason.to_string() }
}

fn sheet(max_row: u32, ids: &[&str]) -> TemplateSheet {
    TemplateSheet { max_row, employee_ids: ids.iter().map(|s| s.to_string()).collect() }
}

fn text(col: u32, row: u32, text: &str) -> ReportStep {
    ReportStep::Text { col, row, text: text.to_string() }
}

fn hours(col: u32, row: u32, minutes: f64) -> ReportStep {
    ReportStep::Hours { col, row, work_minutes_bits: minutes.to_bits() }
}

const DETAIL_TITLE: &str =
    "考勤\n（正常/不正常（缺卡、补卡、虚拟打卡、非主责项目或城市打卡），不正常说明原因）";

#[test]
fn statistics_rows_are_merged() {
    let (db, mut store) = open();
    let input = config(date(2024, 3, 4), date(2024, 3, 5), vec![]);
    let rows = vec![
        stat("E100", "24-03-04 星期一", "08:55", "18:10", 540.0),
        stat("", "24-03-04 星期一", "x", "y", 1.0),
        stat("   ", "24-03-04 星期一", "x", "y", 1.0),
        stat("E101", "24-03-06 星期三", "x", "y", 1.0),
        stat("E102", "日期", "x", "y", 1.0),
        stat(" E103 ", "24-03-05", "缺卡", "", 0.0),
    ];
    update_statistics(&mut store, &input, &rows).unwrap();
    assert_eq!(db.len(), 3);
    assert_eq!(db.get("user_input").unwrap().unwrap().to_vec(), input.encode().unwrap());
    let first = Attendance::decode(&db.get("2024-03-04_E100").unwrap().unwrap()).unwrap();
    assert_eq!(first.enter_info, "08:55");
    assert_eq!(f64::from_bits(first.work_minutes_bits), 540.0);
    let second = Attendance::decode(&db.get("2024-03-05_E103").unwrap().unwrap()).unwrap();
    assert_eq!(second.employee_id, "E103");
    assert_eq!(second.enter_info, "缺卡");
}

#[test]
fn record_rows_are_merged() {
    let (db, mut store) = open();
    let input = config(date(2024, 3, 5), date(2024, 3, 4), vec![]);
    let rows = vec![
        rec("E100", "24-03-04 星期一", "虚拟打卡"),
        rec("E100", "24-03-04 星期一", "补卡"),
        rec("E100", "24-03-03 星期日", "迟到"),
    ];
    update_record(&mut store, &input, &rows).unwrap();
    assert_eq!(db.len(), 2);
    let record = Attendance::decode(&db.get("2024-03-04_E100").unwrap().unwrap()).unwrap();
    assert_eq!(record.abnormal_reason, "补卡");
    assert_eq!(record.enter_info, "");
}

#[test]
fn imports_come_in_either_order() {
    let input = config(date(2024, 3, 4), date(2024, 3, 4), vec![]);
    let stats = vec![stat("E100", "24-03-04", "08:55", "18:10", 540.0)];
    let recs = vec![rec("E100", "24-03-04", "虚拟")];
    let (db1, mut one) = open();
    update_statistics(&mut one, &input, &stats).unwrap();
    update_record(&mut one, &input, &recs).unwrap();
    let (db2, mut two) = open();
    update_record(&mut two, &input, &recs).unwrap();
    update_statistics(&mut two, &input, &stats).unwrap();
    update_statistics(&mut two, &input, &stats).unwrap();
    assert_eq!(
        db1.get("2024-03-04_E100").unwrap().unwrap(),
        db2.get("2024-03-04_E100").unwrap().unwrap()
    );
}

#[test]
fn import_without_a_window_stores_nothing() {
    let (db, mut store) = open();
    let input = UserInput { start_date: 0, ..config(date(2024, 3, 4), date(2024, 3, 4), vec![]) };
    let rows = vec![stat("E100", "24-03-04", "08:55", "18:10", 540.0)];
    assert_eq!(update_statistics(&mut store, &input, &rows), Err(ImportError::Window));
    assert_eq!(update_record(&mut store, &input, &[rec("E1", "24-03-04", "x")].to_vec()), Err(ImportError::Window));
    assert_eq!(db.len(), 0);
}

#[test]
fn end_to_end_scenario() {
    let (_db, mut store) = open();
    let input = config(date(2024, 3, 4), date(2024, 3, 4), vec![mapping(1, 7, 2)]);
    update_statistics(
        &mut store,
        &input,
        &vec![stat("E100", "24-03-04 星期一", "08:55", "18:10", 540.0)],
    )
    .unwrap();
    update_record(&mut store, &input, &vec![rec("E100", "24-03-04 星期一", "外出，虚拟打卡")])
        .unwrap();
    let found = store.scan_by_date(&date(2024, 3, 4)).unwrap();
    let record = found.get("E100").unwrap();
    assert_eq!(record.enter_info, "08:55");
    assert_eq!(record.leave_info, "18:10");
    assert_eq!(f64::from_bits(record.work_minutes_bits), 540.0);
    assert!(record.abnormal_reason.contains("虚拟"));

    let plans = generate_report(&mut store, &input, &vec![sheet(3, &["E100"])]).unwrap();
    assert_eq!(
        plans,
        vec![vec![
            text(7, 2, "3月4日个人投入度"),
            text(8, 2, &format!("3月4日{}", DETAIL_TITLE)),
            ReportStep::Width { column: "H".to_string(), width: 15 },
            hours(7, 3, 540.0),
            text(8, 3, "虚拟"),
        ]]
    );
    match &plans[0][3] {
        ReportStep::Hours { work_minutes_bits, .. } => {
            assert_eq!(f64::from_bits(*work_minutes_bits) / 60.0, 9.0)
        }
        other => panic!("{:?}", other),
    }
}

#[test]
fn report_covers_every_date_and_row() {
    let (_db, mut store) = open();
    let input = config(date(2024, 3, 4), date(2024, 3, 5), vec![mapping(1, 26, 2), mapping(4, 9, 1)]);
    update_statistics(
        &mut store,
        &input,
        &vec![
            stat("E100", "24-03-04", "缺卡", "补卡", 480.0),
            stat("E200", "24-03-05", "迟到", "", 30.5),
        ],
    )
    .unwrap();
    let sheets = vec![sheet(5, &["E100", "", " E200 "]), sheet(2, &["E300", "E100", "E200"])];
    let plans = generate_report(&mut store, &input, &sheets).unwrap();
    assert_eq!(plans.len(), 2);
    assert_eq!(
        plans[0],
        vec![
            text(26, 2, "3月4日个人投入度"),
            text(27, 2, &format!("3月4日{}", DETAIL_TITLE)),
            ReportStep::Width { column: "AA".to_string(), width: 15 },
            hours(26, 3, 480.0),
            text(27, 3, "缺早卡\n补晚卡"),
            ReportStep::Missing { employee_id: "E200".to_string() },
            text(28, 2, "3月5日个人投入度"),
            text(29, 2, &format!("3月5日{}", DETAIL_TITLE)),
            ReportStep::Width { column: "AC".to_string(), width: 15 },
            ReportStep::Missing { employee_id: "E100".to_string() },
            hours(28, 5, 30.5),
            text(29, 5, "迟到"),
        ]
    );
    // The second sheet ends at row 2: one row below its header row.
    assert_eq!(
        plans[1],
        vec![
            text(9, 1, "3月4日个人投入度"),
            text(10, 1, &format!("3月4日{}", DETAIL_TITLE)),
            ReportStep::Width { column: "J".to_string(), width: 15 },
            ReportStep::Missing { employee_id: "E300".to_string() },
            text(11, 1, "3月5日个人投入度"),
            text(12, 1, &format!("3月5日{}", DETAIL_TITLE)),
            ReportStep::Width { column: "L".to_string(), width: 15 },
            ReportStep::Missing { employee_id: "E300".to_string() },
        ]
    );
}

#[test]
fn sheet_above_its_header_row_gets_nothing() {
    let (_db, mut store) = open();
    let input = config(date(2024, 3, 4), date(2024, 3, 5), vec![mapping(1, 7, 4)]);
    let plans = generate_report(&mut store, &input, &vec![sheet(3, &["E100"])]).unwrap();
    assert_eq!(plans, vec![Vec::<ReportStep>::new()]);
    let plans = generate_report(&mut store, &input, &vec![sheet(4, &["E100"])]).unwrap();
    assert_eq!(plans[0].len(), 6);
}

#[test]
fn report_stores_the_configuration() {
    let (db, mut store) = open();
    let input = config(date(2024, 3, 4), date(2024, 3, 4), vec![]);
    assert_eq!(generate_report(&mut store, &input, &vec![]), Ok(vec![]));
    assert_eq!(db.get("user_input").unwrap().unwrap().to_vec(), input.encode().unwrap());
}

#[test]
fn report_problems_are_found_before_anything_is_stored() {
    let (db, mut store) = open();
    let window = UserInput { end_date: i32::MAX, ..config(date(2024, 3, 4), date(2024, 3, 4), vec![]) };
    assert_eq!(generate_report(&mut store, &window, &vec![]), Err(ReportError::Window));
    let missing = config(date(2024, 3, 4), date(2024, 3, 4), vec![mapping(1, 7, 2), mapping(1, 7, 2)]);
    assert_eq!(
        generate_report(&mut store, &missing, &vec![sheet(3, &[])]),
        Err(ReportError::Sheet { index: 1, problem: SheetProblem::MissingSheet })
    );
    for bad in [mapping(0, 7, 2), mapping(1, 0, 2), mapping(1, 7, 0)] {
        let invalid = config(date(2024, 3, 4), date(2024, 3, 4), vec![mapping(1, 7, 2), bad]);
        assert_eq!(
            generate_report(&mut store, &invalid, &vec![sheet(3, &[]), sheet(3, &[])]),
            Err(ReportError::Sheet { index: 1, problem: SheetProblem::InvalidMapping })
        );
    }
    let range = config(date(2024, 3, 4), date(2024, 3, 5), vec![mapping(1, u32::MAX - 2, 2)]);
    assert_eq!(
        generate_report(&mut store, &range, &vec![sheet(3, &[])]),
        Err(ReportError::Sheet { index: 0, problem: SheetProblem::ColumnRange })
    );
    let fits = config(date(2024, 3, 4), date(2024, 3, 5), vec![mapping(1, u32::MAX - 3, 2)]);
    assert_eq!(db.len(), 0);
    let plans = generate_report(&mut store, &fits, &vec![sheet(2, &[])]).unwrap();
    assert_eq!(plans[0].len(), 6);
    assert_eq!(plans[0][4], text(u32::MAX, 2, &format!("3月5日{}", DETAIL_TITLE)));
}

#[test]
fn style_ranges() {
    assert_eq!(style_range(1, 1), Some("A1:A1".to_string()));
    assert_eq!(style_range(28, 120), Some("A1:AB120".to_string()));
    assert_eq!(style_range(18278, 7), Some("A1:ZZZ7".to_string()));
    assert_eq!(style_range(0, 7), None);
}

#[test]
fn imported_working_time_is_never_negative() {
    let (_db, mut store) = open();
    let input = config(date(2024, 3, 4), date(2024, 3, 4), vec![mapping(1, 7, 2)]);
    update_statistics(
        &mut store,
        &input,
        &vec![
            stat("E1", "24-03-04", "a", "b", -60.0),
            stat("E2", "24-03-04", "a", "b", f64::NAN),
            stat("E3", "24-03-04", "a", "b", 90.0),
        ],
    )
    .unwrap();
    let found = store.scan_by_date(&date(2024, 3, 4)).unwrap();
    for id in ["E1", "E2", "E3"] {
        let minutes = f64::from_bits(found.get(id).unwrap().work_minutes_bits);
        assert!(minutes >= 0.0, "{}", id);
    }
    assert_eq!(found.get("E1").unwrap().work_minutes_bits, 0);
    assert_eq!(f64::from_bits(found.get("E3").unwrap().work_minutes_bits), 90.0);
}
