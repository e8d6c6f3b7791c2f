use attendance::config::UserInput;
use attendance::dates::CalendarDate;
use attendance::record::{Attendance, FieldPatch};
use attendance::keys::{prefix_bytes, AttendanceKey};
use attendance::store::{
    loaded_input, merge_outcome, scan_outcome, DailyRecords, ScanPair, Store, StoreError,
};

fn open() -> (sled::Db, Store) {
    let db = sled::Config::new().temporary(true).open().unwrap();
    let store = Store::new(db.clone());
    (db, store)
}

fn date(year: u16, month: u8, day: u8) -> CalendarDate {
    CalendarDate::new(year, month, day).unwrap()
}

fn key(d: CalendarDate, id: &str) -> AttendanceKey {
    AttendanceKey::new(d, id).unwrap()
}

#[test]
fn key_bytes_are_date_underscore_id() {
    let k = key(date(2024, 3, 4), "E100");
    assert_eq!(k.to_bytes(), b"2024-03-04_E100".to_vec());
    assert_eq!(k.employee_id(), "E100");
    assert_eq!(k.date(), date(2024, 3, 4));
    assert_eq!(prefix_bytes(&date(987, 1, 2)), b"0987-01-02_".to_vec());
    assert_eq!(key(date(2024, 3, 4), "工号7").to_bytes(), "2024-03-04_工号7".as_bytes().to_vec());
}

#[test]
fn key_trims_the_id_and_rejects_an_empty_one() {
    assert_eq!(key(date(2024, 3, 4), "  E100\t").employee_id(), "E100");
    assert_eq!(key(date(2024, 3, 4), "E 100").employee_id(), "E 100");
    assert_eq!(AttendanceKey::new(date(2024, 3, 4), ""), None);
    assert_eq!(AttendanceKey::new(date(2024, 3, 4), "   "), None);
    assert_eq!(AttendanceKey::new(date(2024, 3, 4), "\u{3000}\n"), None);
}

#[test]
fn merge_timing_then_scan() {
    let (db, mut store) = open();
    let d = date(2024, 3, 4);
    store.merge_timing_fields(&key(d, "E100"), "08:55", "18:10", 540f64.to_bits()).unwrap();
    let stored = db.get(b"2024-03-04_E100").unwrap().unwrap();
    let record = Attendance::decode(&stored).unwrap();
    assert_eq!(record.employee_id, "E100");
    assert_eq!(record.enter_info, "08:55");
    let found = store.scan_by_date(&d).unwrap();
    let record = found.get("E100").unwrap();
    assert_eq!(record.leave_info, "18:10");
    assert_eq!(f64::from_bits(record.work_minutes_bits), 540.0);
    assert_eq!(record.abnormal_reason, "");
    assert!(found.get("E101").is_none());
    assert!(found.get("e100").is_none());
}

#[test]
fn merging_twice_stores_what_merging_once_stores() {
    let (db, mut store) = open();
    let k = key(date(2024, 3, 4), "E100");
    store.merge_timing_fields(&k, "08:55", "18:10", 540f64.to_bits()).unwrap();
    let once = db.get(k.to_bytes()).unwrap().unwrap().to_vec();
    store.merge_timing_fields(&k, "08:55", "18:10", 540f64.to_bits()).unwrap();
    let twice = db.get(k.to_bytes()).unwrap().unwrap().to_vec();
    assert_eq!(once, twice);
    assert_eq!(db.len(), 1);
}

#[test]
fn reason_merge_leaves_timing_fields() {
    let (_db, mut store) = open();
    let d = date(2024, 3, 4);
    let k = key(d, "E100");
    store.merge_timing_fields(&k, "08:55", "18:10", 540f64.to_bits()).unwrap();
    store.merge_reason_field(&k, "虚拟打卡").unwrap();
    let found = store.scan_by_date(&d).unwrap();
    let record = found.get("E100").unwrap();
    assert_eq!(record.enter_info, "08:55");
    assert_eq!(record.leave_info, "18:10");
    assert_eq!(f64::from_bits(record.work_minutes_bits), 540.0);
    assert_eq!(record.abnormal_reason, "虚拟打卡");
}

#[test]
fn timing_merge_leaves_reason() {
    let (_db, mut store) = open();
    let d = date(2024, 3, 4);
    let k = key(d, "E100");
    store.merge_reason_field(&k, "补卡").unwrap();
    store.merge_timing_fields(&k, "09:10 迟到", "18:00", 530f64.to_bits()).unwrap();
    let found = store.scan_by_date(&d).unwrap();
    let record = found.get("E100").unwrap();
    assert_eq!(record.abnormal_reason, "补卡");
    assert_eq!(record.enter_info, "09:10 迟到");
    assert_eq!(record.employee_id, "E100");
}

#[test]
fn last_write_of_a_group_wins() {
    let (_db, mut store) = open();
    let d = date(2024, 3, 4);
    let k = key(d, "E100");
    store.merge_timing_fields(&k, "a", "b", 1f64.to_bits()).unwrap();
    store.merge_timing_fields(&k, "c", "d", 2f64.to_bits()).unwrap();
    let found = store.scan_by_date(&d).unwrap();
    let record = found.get("E100").unwrap();
    assert_eq!(record.enter_info, "c");
    assert_eq!(record.leave_info, "d");
    assert_eq!(f64::from_bits(record.work_minutes_bits), 2.0);
}

#[test]
fn scan_is_exact_for_its_date() {
    let (_db, mut store) = open();
    store.merge_reason_field(&key(date(2024, 1, 2), "A"), "缺卡").unwrap();
    store.merge_reason_field(&key(date(2024, 1, 20), "B"), "补卡").unwrap();
    store.merge_reason_field(&key(date(2024, 1, 23), "C"), "迟到").unwrap();
    store.merge_reason_field(&key(date(2024, 1, 2), "D"), "早退").unwrap();
    let found = store.scan_by_date(&date(2024, 1, 2)).unwrap();
    assert_eq!(found.get("A").unwrap().abnormal_reason, "缺卡");
    assert_eq!(found.get("D").unwrap().abnormal_reason, "早退");
    assert!(found.get("B").is_none());
    assert!(found.get("C").is_none());
    let found = store.scan_by_date(&date(2024, 1, 20)).unwrap();
    assert!(found.get("A").is_none());
    assert_eq!(found.get("B").unwrap().abnormal_reason, "补卡");
    let found = store.scan_by_date(&date(2024, 1, 3)).unwrap();
    assert!(found.get("A").is_none());
    assert!(found.get("B").is_none());
}

#[test]
fn scan_passes_over_what_is_no_record() {
    let (db, mut store) = open();
    db.insert(b"2024-03-04_stale", vec![1u8, 2, 3]).unwrap();
    db.insert(b"2024-03-04_\xff\xfe", Attendance::blank().encode().unwrap()).unwrap();
    store.merge_reason_field(&key(date(2024, 3, 4), "E1"), "虚拟").unwrap();
    let found = store.scan_by_date(&date(2024, 3, 4)).unwrap();
    assert!(found.get("stale").is_none());
    assert_eq!(found.get("E1").unwrap().abnormal_reason, "虚拟");
}

#[test]
fn merge_over_unreadable_bytes_starts_blank() {
    let (db, mut store) = open();
    db.insert(b"2024-03-04_E9", vec![9u8; 5]).unwrap();
    store.merge_reason_field(&key(date(2024, 3, 4), "E9"), "迟到").unwrap();
    let found = store.scan_by_date(&date(2024, 3, 4)).unwrap();
    let record = found.get("E9").unwrap();
    assert_eq!(record.enter_info, "");
    assert_eq!(record.abnormal_reason, "迟到");
}

#[test]
fn generic_merge_applies_the_patch() {
    let (_db, mut store) = open();
    let d = date(2024, 3, 4);
    let patch = FieldPatch::Reason { employee_id: "E5".to_string(), abnormal_reason: "早退".to_string() };
    store.merge(&key(d, "E5"), &patch).unwrap();
    assert_eq!(store.scan_by_date(&d).unwrap().get("E5").unwrap().abnormal_reason, "早退");
}

#[test]
fn configuration_is_saved_and_loaded() {
    let (db, mut store) = open();
    assert_eq!(store.load_user_input().unwrap(), None);
    let input = UserInput::default_for(2_460_376);
    store.save_user_input(&input).unwrap();
    assert_eq!(db.get("user_input").unwrap().unwrap().to_vec(), input.encode().unwrap());
    assert_eq!(store.load_user_input().unwrap(), Some(input));
    db.insert("user_input", vec![1u8, 2]).unwrap();
    assert_eq!(store.load_user_input().unwrap(), None);
}

#[test]
fn configuration_is_no_record_of_any_date() {
    let (_db, mut store) = open();
    store.save_user_input(&UserInput::default_for(2_460_376)).unwrap();
    assert!(store.scan_by_date(&date(2024, 3, 4)).unwrap().get("user_input").is_none());
}

#[test]
fn store_error_messages() {
    assert_eq!(StoreError::Backend { message: "io".to_string() }.message(), "io");
    assert!(!StoreError::ConfigTooLarge.message().is_empty());
}

fn pair(key: &[u8], record: &Attendance) -> ScanPair {
    (key.to_vec(), record.encode().unwrap())
}

fn with_reason(id: &str, reason: &str) -> Attendance {
    Attendance {
        employee_id: id.to_string(),
        abnormal_reason: reason.to_string(),
        ..Attendance::blank()
    }
}

#[test]
fn scan_items_become_records() {
    let d = date(2024, 1, 2);
    let items: Vec<ScanPair> = vec![
        pair(b"2024-01-02_A", &with_reason("A", "缺卡")),
        pair(b"2024-01-02_B", &with_reason("B", "补卡")),
        pair(b"2024-01-20_C", &with_reason("C", "迟到")),
        pair(b"2024-01-0", &with_reason("D", "早退")),
        (b"2024-01-02_E".to_vec(), vec![1, 2, 3]),
        pair(b"2024-01-02_\xff", &with_reason("F", "虚拟")),
        pair(b"2024-01-02_", &with_reason("", "虚拟")),
    ];
    let found = DailyRecords::from_scan(&d, &items);
    assert_eq!(found.get("A").unwrap().abnormal_reason, "缺卡");
    assert_eq!(found.get("B").unwrap().abnormal_reason, "补卡");
    assert!(found.get("C").is_none());
    assert!(found.get("D").is_none());
    assert!(found.get("E").is_none());
    assert!(found.get("F").is_none());
    assert_eq!(found.get("").unwrap().abnormal_reason, "虚拟");
}

#[test]
fn later_scan_item_counts_for_an_employee() {
    let d = date(2024, 1, 2);
    let items: Vec<ScanPair> = vec![
        pair(b"2024-01-02_A", &with_reason("A", "缺卡")),
        pair(b"2024-01-02_B", &with_reason("B", "补卡")),
        pair(b"2024-01-02_A", &with_reason("A", "迟到")),
    ];
    let found = DailyRecords::from_scan(&d, &items);
    assert_eq!(found.get("A").unwrap().abnormal_reason, "迟到");
    assert_eq!(found.get("B").unwrap().abnormal_reason, "补卡");
}

#[test]
fn empty_scan_has_no_records() {
    let found = DailyRecords::from_scan(&date(2024, 1, 2), &Vec::new());
    assert!(found.get("A").is_none());
    assert!(found.get("").is_none());
}

#[test]
fn scan_outcomes() {
    let d = date(2024, 1, 2);
    let items: Vec<ScanPair> = vec![
        pair(b"2024-01-02_A", &with_reason("A", "缺卡")),
        pair(b"2024-01-02_B", &with_reason("B", "补卡")),
    ];
    let found = scan_outcome(&d, Ok(items)).unwrap();
    assert_eq!(found.get("A").unwrap().abnormal_reason, "缺卡");
    assert_eq!(found.get("B").unwrap().abnormal_reason, "补卡");
    match scan_outcome(&d, Err(sled::Error::Unsupported("broken".to_string()))) {
        Err(StoreError::Backend { message }) => assert!(message.contains("broken")),
        _ => panic!("a failed scan gives a failure of the database"),
    }
}

#[test]
fn write_outcomes() {
    assert_eq!(merge_outcome(Ok(())), Ok(()));
    match merge_outcome(Err(sled::Error::Unsupported("no".to_string()))) {
        Err(StoreError::Backend { message }) => assert!(message.contains("no")),
        other => panic!("{:?}", other),
    }
}

#[test]
fn lookup_outcomes() {
    let input = UserInput::default_for(2_460_376);
    assert_eq!(loaded_input(Ok(Some(input.encode().unwrap()))), Ok(Some(input)));
    assert_eq!(loaded_input(Ok(Some(vec![1, 2, 3]))), Ok(None));
    assert_eq!(loaded_input(Ok(None)), Ok(None));
    match loaded_input(Err(sled::Error::ReportableBug("bug".to_string()))) {
        Err(StoreError::Backend { message }) => assert!(message.contains("bug")),
        other => panic!("{:?}", other),
    }
}

#[test]
fn working_time_that_is_none_is_stored_as_zero() {
    let (_db, mut store) = open();
    let d = date(2024, 3, 4);
    store.merge_timing_fields(&key(d, "N"), "a", "b", (-1f64).to_bits()).unwrap();
    store.merge_timing_fields(&key(d, "Q"), "a", "b", f64::NAN.to_bits()).unwrap();
    store.merge_timing_fields(&key(d, "Z"), "a", "b", (-0f64).to_bits()).unwrap();
    store.merge_timing_fields(&key(d, "P"), "a", "b", 0.5f64.to_bits()).unwrap();
    let found = store.scan_by_date(&d).unwrap();
    assert_eq!(found.get("N").unwrap().work_minutes_bits, 0);
    assert_eq!(found.get("Q").unwrap().work_minutes_bits, 0);
    assert_eq!(found.get("Z").unwrap().work_minutes_bits, 0);
    assert_eq!(f64::from_bits(found.get("P").unwrap().work_minutes_bits), 0.5);
    assert_eq!(found.get("N").unwrap().enter_info, "a");
}
