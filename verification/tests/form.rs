use attendance::config::{TemplateMapping, UserInput};
use attendance::dates::CalendarDate;
use attendance::form::{
    init_input, long_date_string, parse_input, render, FormInput, InputError, TemplateForm,
};

fn template(id: &str, start: &str, row: &str) -> TemplateForm {
    TemplateForm {
        employee_id_col: id.to_string(),
        start_col: start.to_string(),
        title_row: row.to_string(),
    }
}

fn valid() -> FormInput {
    FormInput {
        start_date: "2024-01-05".to_string(),
        end_date: "2024-01-10".to_string(),
        statistics_employee_id_col: "d".to_string(),
        statistics_date_col: "G".to_string(),
        statistics_enter_result_col: "j1".to_string(),
        statistics_leave_result_col: "L".to_string(),
        statistics_work_minutes_col: "t".to_string(),
        statistics_start_row: "5".to_string(),
        record_employee_id_col: "D".to_string(),
        record_date_col: "G".to_string(),
        record_abnormal_reason_col: "n".to_string(),
        record_start_row: "+04".to_string(),
        template_configs: vec![template("a", "g", "2"), template("d", "i1", "+3"), template("aa", "bc3", "02")],
    }
}

fn julian(year: u16, month: u8, day: u8) -> i32 {
    CalendarDate::new(year, month, day).unwrap().to_julian_day()
}

#[test]
fn valid_form_is_parsed() {
    let parsed = parse_input(&valid()).unwrap();
    let input = parsed.input;
    assert_eq!(input.start_date, julian(2024, 1, 5));
    assert_eq!(input.end_date, julian(2024, 1, 10));
    assert_eq!(input.statistics_employee_id_col, 4);
    assert_eq!(input.statistics_date_col, 7);
    assert_eq!(input.statistics_enter_result_col, 10);
    assert_eq!(input.statistics_leave_result_col, 12);
    assert_eq!(input.statistics_work_minutes_col, 20);
    assert_eq!(input.statistics_start_row, 5);
    assert_eq!(input.record_employee_id_col, 4);
    assert_eq!(input.record_date_col, 7);
    assert_eq!(input.record_abnormal_reason_col, 14);
    assert_eq!(input.record_start_row, 4);
    assert_eq!(
        input.template_cfg,
        vec![
            TemplateMapping { employee_id_col: 1, date_block_start_col: 7, title_row: 2 },
            TemplateMapping { employee_id_col: 4, date_block_start_col: 9, title_row: 3 },
            TemplateMapping { employee_id_col: 27, date_block_start_col: 55, title_row: 2 },
        ]
    );
}

#[test]
fn valid_form_is_shown_normalised() {
    let shown = parse_input(&valid()).unwrap().form;
    assert_eq!(shown.start_date, "2024-01-05");
    assert_eq!(shown.end_date, "2024-01-10");
    assert_eq!(shown.statistics_employee_id_col, "D");
    assert_eq!(shown.statistics_enter_result_col, "J");
    assert_eq!(shown.statistics_work_minutes_col, "T");
    assert_eq!(shown.statistics_start_row, "5");
    assert_eq!(shown.record_abnormal_reason_col, "N");
    assert_eq!(shown.record_start_row, "4");
    assert_eq!(
        shown.template_configs,
        vec![template("A", "G", "2"), template("D", "I", "3"), template("AA", "BC", "2")]
    );
}

#[test]
fn template_fields_are_validated() {
    let mut form = valid();
    form.template_configs = vec![template("a", "g", "2"), template("", "i", "2")];
    assert_eq!(parse_input(&form), Err(InputError::TemplateEmployeeIdCol { sheet: 1 }));
    form.template_configs = vec![template("a", "7", "2"), template("", "i", "2")];
    assert_eq!(parse_input(&form), Err(InputError::TemplateStartCol { sheet: 0 }));
    form.template_configs = vec![template("a", "g", "2"), template("d", "i", "0")];
    assert_eq!(parse_input(&form), Err(InputError::TemplateTitleRow { sheet: 1 }));
    form.template_configs = vec![template("a", "g", "x"), template("", "", "")];
    assert_eq!(parse_input(&form), Err(InputError::TemplateTitleRow { sheet: 0 }));
    form.template_configs = vec![template("a", "g", "2"), template("d", "i", "2"), template("4", "9", "2")];
    assert_eq!(parse_input(&form), Err(InputError::TemplateEmployeeIdCol { sheet: 2 }));
    form.template_configs = vec![];
    assert_eq!(parse_input(&form).unwrap().input.template_cfg, vec![]);
}

#[test]
fn other_fields_are_reported_before_template_fields() {
    let mut form = valid();
    form.template_configs = vec![template("", "", "")];
    form.record_start_row = "0".to_string();
    assert_eq!(parse_input(&form), Err(InputError::RecordStartRow));
}

#[test]
fn template_error_messages_name_the_sheet() {
    assert_eq!(
        InputError::TemplateEmployeeIdCol { sheet: 0 }.message(),
        "模板1-工号，填写有误，请检查"
    );
    assert_eq!(
        InputError::TemplateStartCol { sheet: 1 }.message(),
        "模板2-起始列，填写有误，请检查"
    );
    assert_eq!(
        InputError::TemplateTitleRow { sheet: 11 }.message(),
        "模板12-标题行号，填写有误，请检查"
    );
    assert_eq!(
        InputError::TemplateTitleRow { sheet: usize::MAX }.message(),
        format!("模板{}-标题行号，填写有误，请检查", usize::MAX as u128 + 1)
    );
}

#[test]
fn dates_the_wrong_way_round_are_swapped() {
    let mut form = valid();
    form.start_date = "2024-01-10".to_string();
    form.end_date = "2024-01-05".to_string();
    let parsed = parse_input(&form).unwrap();
    assert_eq!(parsed.input.start_date, julian(2024, 1, 5));
    assert_eq!(parsed.input.end_date, julian(2024, 1, 10));
    assert_eq!(parsed.form.start_date, "2024-01-05");
    assert_eq!(parsed.form.end_date, "2024-01-10");
    assert_eq!(parsed.input, parse_input(&valid()).unwrap().input);
}

fn error_of(change: fn(&mut FormInput)) -> InputError {
    let mut form = valid();
    change(&mut form);
    parse_input(&form).unwrap_err()
}

#[test]
fn each_invalid_field_has_its_error() {
    assert_eq!(error_of(|f| f.start_date = "2024-02-30".to_string()), InputError::StartDate);
    assert_eq!(error_of(|f| f.end_date = "24-01-10".to_string()), InputError::EndDate);
    assert_eq!(
        error_of(|f| f.statistics_employee_id_col = "4".to_string()),
        InputError::StatisticsEmployeeIdCol
    );
    assert_eq!(error_of(|f| f.statistics_date_col = "".to_string()), InputError::StatisticsDateCol);
    assert_eq!(
        error_of(|f| f.statistics_enter_result_col = "-".to_string()),
        InputError::StatisticsEnterResultCol
    );
    assert_eq!(
        error_of(|f| f.statistics_leave_result_col = " ".to_string()),
        InputError::StatisticsLeaveResultCol
    );
    assert_eq!(
        error_of(|f| f.statistics_work_minutes_col = "20".to_string()),
        InputError::StatisticsWorkMinutesCol
    );
    assert_eq!(error_of(|f| f.statistics_start_row = "0".to_string()), InputError::StatisticsStartRow);
    assert_eq!(
        error_of(|f| f.record_employee_id_col = "#".to_string()),
        InputError::RecordEmployeeIdCol
    );
    assert_eq!(error_of(|f| f.record_date_col = "7".to_string()), InputError::RecordDateCol);
    assert_eq!(
        error_of(|f| f.record_abnormal_reason_col = "".to_string()),
        InputError::RecordAbnormalReasonCol
    );
    assert_eq!(error_of(|f| f.record_start_row = "four".to_string()), InputError::RecordStartRow);
}

#[test]
fn the_first_invalid_field_is_reported() {
    assert_eq!(
        error_of(|f| {
            f.record_start_row = "".to_string();
            f.statistics_date_col = "".to_string();
            f.end_date = "".to_string();
        }),
        InputError::EndDate
    );
    assert_eq!(
        error_of(|f| {
            f.record_start_row = "".to_string();
            f.statistics_start_row = "-1".to_string();
        }),
        InputError::StatisticsStartRow
    );
}

#[test]
fn error_messages_name_the_field() {
    assert_eq!(InputError::StartDate.message(), "开始日期，填写有误，请检查");
    assert_eq!(InputError::EndDate.message(), "结束日期，填写有误，请检查");
    assert_eq!(InputError::StatisticsEmployeeIdCol.message(), "每日统计表-工号，填写有误，请检查");
    assert_eq!(InputError::StatisticsDateCol.message(), "每日统计表-日期，填写有误，请检查");
    assert_eq!(
        InputError::StatisticsEnterResultCol.message(),
        "每日统计表-上班-打卡结果1，填写有误，请检查"
    );
    assert_eq!(
        InputError::StatisticsLeaveResultCol.message(),
        "每日统计表-下班-打卡结果1，填写有误，请检查"
    );
    assert_eq!(
        InputError::StatisticsWorkMinutesCol.message(),
        "每日统计表-工作时长(分钟)，填写有误，请检查"
    );
    assert_eq!(InputError::StatisticsStartRow.message(), "每日统计表，数据起始行号，填写有误，请检查");
    assert_eq!(InputError::RecordEmployeeIdCol.message(), "原始记录表-工号，填写有误，请检查");
    assert_eq!(InputError::RecordDateCol.message(), "原始记录表-日期，填写有误，请检查");
    assert_eq!(
        InputError::RecordAbnormalReasonCol.message(),
        "原始记录表-异常打卡原因，填写有误，请检查"
    );
    assert_eq!(InputError::RecordStartRow.message(), "原始记录表，数据起始行号，填写有误，请检查");
}

#[test]
fn long_date_strings() {
    assert_eq!(long_date_string(julian(2024, 1, 5)), Some("2024-01-05".to_string()));
    assert_eq!(long_date_string(2_451_545), Some("2000-01-01".to_string()));
    assert_eq!(long_date_string(0), None);
    assert_eq!(long_date_string(i32::MAX), None);
}

#[test]
fn rendering_a_parsed_form_gives_the_normalised_form() {
    let parsed = parse_input(&valid()).unwrap();
    assert_eq!(render(&parsed.input), Some(parsed.form));
}

#[test]
fn rendering_fails_on_column_zero_or_a_date_outside_the_calendar() {
    let good = parse_input(&valid()).unwrap().input;
    assert!(render(&good).is_some());
    assert_eq!(render(&UserInput { statistics_date_col: 0, ..good.duplicate() }), None);
    assert_eq!(render(&UserInput { start_date: 0, ..good.duplicate() }), None);
    assert_eq!(render(&UserInput { end_date: i32::MAX, ..good.duplicate() }), None);
    let mut bad = good.duplicate();
    bad.template_cfg[1].date_block_start_col = 0;
    assert_eq!(render(&bad), None);
    let mut zero_row = good.duplicate();
    zero_row.statistics_start_row = 0;
    assert_eq!(render(&zero_row).unwrap().statistics_start_row, "0");
}

#[test]
fn first_run_shows_the_defaults() {
    // 2024-03-06 is a Wednesday.
    let form = init_input(None, julian(2024, 3, 6)).unwrap();
    assert_eq!(form.start_date, "2024-02-26");
    assert_eq!(form.end_date, "2024-03-01");
    assert_eq!(form.statistics_employee_id_col, "D");
    assert_eq!(form.statistics_date_col, "G");
    assert_eq!(form.statistics_enter_result_col, "J");
    assert_eq!(form.statistics_leave_result_col, "L");
    assert_eq!(form.statistics_work_minutes_col, "T");
    assert_eq!(form.statistics_start_row, "5");
    assert_eq!(form.record_employee_id_col, "D");
    assert_eq!(form.record_date_col, "G");
    assert_eq!(form.record_abnormal_reason_col, "N");
    assert_eq!(form.record_start_row, "4");
    assert_eq!(
        form.template_configs,
        vec![template("A", "G", "2"), template("D", "I", "2"), template("D", "I", "2")]
    );
}

#[test]
fn later_runs_show_what_was_stored() {
    let stored = parse_input(&valid()).unwrap();
    assert_eq!(init_input(Some(stored.input), julian(2024, 3, 6)), Some(stored.form));
    assert_eq!(init_input(None, i32::MIN), None);
}

#[test]
fn a_rendered_configuration_parses_back_to_itself() {
    let input = parse_input(&valid()).unwrap().input;
    let form = render(&input).unwrap();
    let again = parse_input(&form).unwrap();
    assert_eq!(again.input, input);
    assert_eq!(again.form, form);
    let defaults = UserInput::default_for(julian(2024, 3, 6));
    let shown = render(&defaults).unwrap();
    assert_eq!(parse_input(&shown).unwrap().input, defaults);
    let stored = UserInput::decode(&defaults.encode().unwrap()).unwrap();
    assert_eq!(render(&stored), Some(shown));
}
