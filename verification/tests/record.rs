use attendance::config::{TemplateMapping, UserInput};
use attendance::record::{apply_patch, Attendance, FieldPatch};
use speedy::{Readable, Writable};

fn sample() -> Attendance {
    Attendance {
        employee_id: "E100".to_string(),
        enter_info: "08:55".to_string(),
        leave_info: "18:10 早退".to_string(),
        work_minutes_bits: 540f64.to_bits(),
        abnormal_reason: "虚拟打卡".to_string(),
    }
}

#[test]
fn blank_record_is_empty() {
    let blank = Attendance::blank();
    assert_eq!(blank.employee_id, "");
    assert_eq!(blank.enter_info, "");
    assert_eq!(blank.leave_info, "");
    assert_eq!(f64::from_bits(blank.work_minutes_bits), 0.0);
    assert_eq!(blank.abnormal_reason, "");
    assert_eq!(Attendance::default(), blank);
}

#[test]
fn record_bytes_are_exact() {
    let record = Attendance {
        employee_id: "E1".to_string(),
        enter_info: "".to_string(),
        leave_info: "卡".to_string(),
        work_minutes_bits: 0x0102030405060708,
        abnormal_reason: "x".to_string(),
    };
    let expected: Vec<u8> = vec![
        2, 0, 0, 0, b'E', b'1', // employee id
        0, 0, 0, 0, // enter
        3, 0, 0, 0, 0xe5, 0x8d, 0xa1, // leave
        8, 7, 6, 5, 4, 3, 2, 1, // minutes
        1, 0, 0, 0, b'x', // reason
    ];
    assert_eq!(record.encode(), Some(expected));
}

#[test]
fn record_round_trips() {
    let record = sample();
    let bytes = record.encode().unwrap();
    assert_eq!(Attendance::decode(&bytes), Some(record.duplicate()));
    assert_eq!(f64::from_bits(Attendance::decode(&bytes).unwrap().work_minutes_bits), 540.0);
}

#[test]
fn record_bytes_are_those_of_speedy() {
    let record = sample();
    let expected = (
        record.employee_id.clone(),
        record.enter_info.clone(),
        record.leave_info.clone(),
        f64::from_bits(record.work_minutes_bits),
        record.abnormal_reason.clone(),
    )
        .write_to_vec()
        .unwrap();
    assert_eq!(record.encode().unwrap(), expected);
    let back = <(String, String, String, f64, String)>::read_from_buffer(&record.encode().unwrap())
        .unwrap();
    assert_eq!(back.0, "E100");
    assert_eq!(back.3, 540.0);
    assert_eq!(back.4, "虚拟打卡");
}

#[test]
fn decode_ignores_what_follows_the_record() {
    let mut bytes = sample().encode().unwrap();
    bytes.extend_from_slice(&[1, 2, 3]);
    assert_eq!(Attendance::decode(&bytes), Some(sample()));
}

#[test]
fn decode_rejects_broken_bytes() {
    let bytes = sample().encode().unwrap();
    assert_eq!(Attendance::decode(&[]), None);
    assert_eq!(Attendance::decode(&bytes[..bytes.len() - 1]), None);
    assert_eq!(Attendance::decode(&bytes[..10]), None);
    // a length that reaches beyond the end
    assert_eq!(Attendance::decode(&[255, 255, 255, 255, 1, 2]), None);
    // bytes that are no UTF-8
    let mut broken = bytes.clone();
    broken[4] = 0xff;
    assert_eq!(Attendance::decode(&broken), None);
    for cut in 0..bytes.len() {
        let ours = Attendance::decode(&bytes[..cut]).is_some();
        let theirs =
            <(String, String, String, f64, String)>::read_from_buffer(&bytes[..cut]).is_ok();
        assert_eq!(ours, theirs, "cut at {}", cut);
    }
}

fn timing(id: &str, enter: &str, leave: &str, minutes: f64) -> FieldPatch {
    FieldPatch::timing(id, enter, leave, minutes.to_bits())
}

fn reason(id: &str, text: &str) -> FieldPatch {
    FieldPatch::reason(id, text)
}

#[test]
fn patches_hold_what_they_are_made_of() {
    assert_eq!(
        timing("E1", "a", "b", 2.5),
        FieldPatch::Timing {
            employee_id: "E1".to_string(),
            enter_info: "a".to_string(),
            leave_info: "b".to_string(),
            work_minutes_bits: 2.5f64.to_bits(),
        }
    );
    assert_eq!(
        reason("E1", "迟到"),
        FieldPatch::Reason { employee_id: "E1".to_string(), abnormal_reason: "迟到".to_string() }
    );
}

#[test]
fn patch_on_nothing_starts_blank() {
    let bytes = apply_patch(None, &timing("E100", "08:55", "18:10", 540.0)).unwrap();
    let record = Attendance::decode(&bytes).unwrap();
    assert_eq!(record.employee_id, "E100");
    assert_eq!(record.enter_info, "08:55");
    assert_eq!(record.leave_info, "18:10");
    assert_eq!(f64::from_bits(record.work_minutes_bits), 540.0);
    assert_eq!(record.abnormal_reason, "");
}

#[test]
fn patch_keeps_the_other_group() {
    let first = apply_patch(None, &timing("E100", "08:55", "18:10", 540.0)).unwrap();
    let second = apply_patch(Some(&first), &reason("E100", "虚拟打卡")).unwrap();
    let record = Attendance::decode(&second).unwrap();
    assert_eq!(record.enter_info, "08:55");
    assert_eq!(record.leave_info, "18:10");
    assert_eq!(f64::from_bits(record.work_minutes_bits), 540.0);
    assert_eq!(record.abnormal_reason, "虚拟打卡");
    let third = apply_patch(Some(&second), &timing("E100", "09:30 迟到", "", 480.5)).unwrap();
    let record = Attendance::decode(&third).unwrap();
    assert_eq!(record.enter_info, "09:30 迟到");
    assert_eq!(record.leave_info, "");
    assert_eq!(f64::from_bits(record.work_minutes_bits), 480.5);
    assert_eq!(record.abnormal_reason, "虚拟打卡");
}

#[test]
fn patch_twice_is_patch_once() {
    let patch = timing("E100", "08:55", "18:10", 540.0);
    let once = apply_patch(None, &patch).unwrap();
    let twice = apply_patch(Some(&once), &patch).unwrap();
    assert_eq!(once, twice);
    let patch = reason("E100", "补卡");
    let once = apply_patch(Some(&twice), &patch).unwrap();
    let twice = apply_patch(Some(&once), &patch).unwrap();
    assert_eq!(once, twice);
}

#[test]
fn patch_on_unreadable_bytes_starts_blank() {
    let bytes = apply_patch(Some(&[1, 2, 3]), &reason("E7", "迟到")).unwrap();
    let record = Attendance::decode(&bytes).unwrap();
    assert_eq!(record.employee_id, "E7");
    assert_eq!(record.enter_info, "");
    assert_eq!(record.abnormal_reason, "迟到");
}

#[test]
fn apply_overwrites_in_place() {
    let mut record = sample();
    record.apply(&reason("E100", ""));
    assert_eq!(record.abnormal_reason, "");
    assert_eq!(record.enter_info, "08:55");
    record.apply(&timing("E100", "a", "b", 1.0));
    assert_eq!(record.enter_info, "a");
    assert_eq!(record.leave_info, "b");
    assert_eq!(record.abnormal_reason, "");
}

fn config() -> UserInput {
    UserInput {
        start_date: 2_460_315,
        end_date: -7,
        statistics_employee_id_col: 4,
        statistics_date_col: 7,
        statistics_enter_result_col: 10,
        statistics_leave_result_col: 12,
        statistics_work_minutes_col: 20,
        statistics_start_row: 5,
        record_employee_id_col: 4,
        record_date_col: 7,
        record_abnormal_reason_col: 14,
        record_start_row: 4,
        template_cfg: vec![
            TemplateMapping { employee_id_col: 1, date_block_start_col: 7, title_row: 2 },
            TemplateMapping { employee_id_col: 4, date_block_start_col: 9, title_row: 3 },
        ],
    }
}

#[test]
fn config_round_trips() {
    let input = config();
    let bytes = input.encode().unwrap();
    assert_eq!(bytes.len(), 52 + 24);
    assert_eq!(UserInput::decode(&bytes), Some(input.duplicate()));
    assert_eq!(input.duplicate(), input);
}

#[test]
fn config_bytes_are_those_of_speedy() {
    let input = config();
    let mut expected = (
        input.start_date,
        input.end_date,
        input.statistics_employee_id_col,
        input.statistics_date_col,
        input.statistics_enter_result_col,
        input.statistics_leave_result_col,
    )
        .write_to_vec()
        .unwrap();
    expected.extend(
        (
            input.statistics_work_minutes_col,
            input.statistics_start_row,
            input.record_employee_id_col,
            input.record_date_col,
            input.record_abnormal_reason_col,
            input.record_start_row,
        )
            .write_to_vec()
            .unwrap(),
    );
    let templates: Vec<(u32, u32, u32)> = input
        .template_cfg
        .iter()
        .map(|t| (t.employee_id_col, t.date_block_start_col, t.title_row))
        .collect();
    expected.extend(templates.write_to_vec().unwrap());
    assert_eq!(input.encode().unwrap(), expected);
}

#[test]
fn config_decode_rejects_short_bytes() {
    let bytes = config().encode().unwrap();
    assert_eq!(UserInput::decode(&[]), None);
    assert_eq!(UserInput::decode(&bytes[..51]), None);
    assert_eq!(UserInput::decode(&bytes[..bytes.len() - 1]), None);
    let mut longer = bytes.clone();
    longer.push(9);
    assert_eq!(UserInput::decode(&longer), Some(config()));
    let empty = UserInput { template_cfg: vec![], ..config() };
    assert_eq!(empty.encode().unwrap().len(), 52);
    assert_eq!(UserInput::decode(&empty.encode().unwrap()), Some(empty));
}

#[test]
fn negative_or_undefined_working_time_counts_as_zero() {
    for bad in [-1.0f64, -540.0, f64::NEG_INFINITY, f64::NAN, -f64::NAN, -0.0] {
        let bytes = apply_patch(None, &timing("E1", "a", "b", bad)).unwrap();
        let record = Attendance::decode(&bytes).unwrap();
        assert_eq!(record.work_minutes_bits, 0, "{}", bad);
        assert_eq!(record.enter_info, "a");
    }
    for good in [0.0f64, 0.25, 540.0, f64::MAX, f64::INFINITY] {
        let bytes = apply_patch(None, &timing("E1", "a", "b", good)).unwrap();
        let record = Attendance::decode(&bytes).unwrap();
        assert_eq!(f64::from_bits(record.work_minutes_bits), good);
        assert!(f64::from_bits(record.work_minutes_bits) >= 0.0);
    }
    let mut record = sample();
    record.apply(&timing("E100", "x", "y", -3.0));
    assert_eq!(record.work_minutes_bits, 0);
}
