//! The two import passes: the statistics sheet brings the timing fields of
//! each record, the swipe-record sheet its reason. Either pass takes the
//! rows of its sheet as they were read and merges every row that names an
//! employee and a date of the window.

use vstd::prelude::*;
use crate::config::{input_bytes, storable, UserInput};
use crate::dates::{cell_date, expand_spec, CalendarDate, DateWindow};
use crate::keys::{config_key, record_key, AttendanceKey};
use crate::record::{stored_record, valid_minutes, FieldPatchView};
use crate::store::{
    lemma_config_keeps_records, lemma_merge_frame, lemma_merge_keeps_minutes_valid,
    lemma_merge_keeps_other_group, merged_entries, record_at, same_timing, stored_bytes, Store,
    StoreError,
};
use crate::text::trim_text;

verus! {

/// One row of the statistics sheet, as read: the employee's id, the date
/// cell, how the employee came and went, and the bit pattern of the working
/// time in minutes.
#[derive(Clone, Debug, PartialEq, Eq)]
pub struct StatisticsRow {
    pub employee_id: String,
    pub date: String,
    pub enter_info: String,
    pub leave_info: String,
    pub work_minutes_bits: u64,
}

/// The mathematical value of a [`StatisticsRow`].
pub ghost struct StatisticsRowView {
    pub employee_id: Seq<char>,
    pub date: Seq<char>,
    pub enter_info: Seq<char>,
    pub leave_info: Seq<char>,
    pub work_minutes_bits: u64,
}

impl View for StatisticsRow {
    type V = StatisticsRowView;

    open spec fn view(&self) -> StatisticsRowView {
        StatisticsRowView {
            employee_id: self.employee_id@,
            date: self.date@,
            enter_info: self.enter_info@,
            leave_info: self.leave_info@,
            work_minutes_bits: self.work_minutes_bits,
        }
    }
}

/// One row of the swipe-record sheet, as read: the employee's id, the date
/// cell, and the reason given for an irregular swipe.
#[derive(Clone, Debug, PartialEq, Eq)]
pub struct RecordRow {
    pub employee_id: String,
    pub date: String,
    pub abnormal_reason: String,
}

/// The mathematical value of a [`RecordRow`].
pub ghost struct RecordRowView {
    pub employee_id: Seq<char>,
    pub date: Seq<char>,
    pub abnormal_reason: Seq<char>,
}

impl View for RecordRow {
    type V = RecordRowView;

    open spec fn view(&self) -> RecordRowView {
        RecordRowView {
            employee_id: self.employee_id@,
            date: self.date@,
            abnormal_reason: self.abnormal_reason@,
        }
    }
}

/// Why an import or a report failed.
#[derive(Clone, Debug, PartialEq, Eq)]
pub enum ImportError {
    /// A day between the two dates of the configuration has no date in the
    /// ledger's calendar.
    Window,
    /// The ledger failed.
    Store(StoreError),
}

/// The key that a row is merged under: that of its id, without the blanks
/// around it, on the date of its date cell. A row without an id, or with a
/// date outside the window, has none and is passed over.
pub open spec fn row_key(
    window: Seq<CalendarDate>,
    employee_id: Seq<char>,
    date: Seq<char>,
) -> Option<Seq<u8>> {
    if trim_text(employee_id).len() == 0 {
        None
    } else {
        match cell_date(window, date) {
            Some(day) => Some(record_key(day, trim_text(employee_id))),
            None => None,
        }
    }
}

/// The ledger after one row of the statistics sheet: the timing fields of
/// the row's record are those of the row, with a working time that is
/// negative or no number stored as zero.
pub open spec fn statistics_step(
    entries: Map<Seq<u8>, Seq<u8>>,
    window: Seq<CalendarDate>,
    row: StatisticsRowView,
) -> Map<Seq<u8>, Seq<u8>> {
    match row_key(window, row.employee_id, row.date) {
        Some(key) => merged_entries(
            entries,
            key,
            FieldPatchView::Timing {
                employee_id: trim_text(row.employee_id),
                enter_info: row.enter_info,
                leave_info: row.leave_info,
                work_minutes_bits: row.work_minutes_bits,
            },
        ),
        None => entries,
    }
}

/// The ledger after the rows of the statistics sheet, merged in order.
pub open spec fn statistics_fold(
    entries: Map<Seq<u8>, Seq<u8>>,
    window: Seq<CalendarDate>,
    rows: Seq<StatisticsRowView>,
) -> Map<Seq<u8>, Seq<u8>>
    decreases rows.len(),
{
    if rows.len() == 0 {
        entries
    } else {
        statistics_step(statistics_fold(entries, window, rows.drop_last()), window, rows.last())
    }
}

/// The ledger after one row of the swipe-record sheet.
pub open spec fn record_step(
    entries: Map<Seq<u8>, Seq<u8>>,
    window: Seq<CalendarDate>,
    row: RecordRowView,
) -> Map<Seq<u8>, Seq<u8>> {
    match row_key(window, row.employee_id, row.date) {
        Some(key) => merged_entries(
            entries,
            key,
            FieldPatchView::Reason {
                employee_id: trim_text(row.employee_id),
                abnormal_reason: row.abnormal_reason,
            },
        ),
        None => entries,
    }
}

/// The ledger after the rows of the swipe-record sheet, merged in order.
pub open spec fn record_fold(
    entries: Map<Seq<u8>, Seq<u8>>,
    window: Seq<CalendarDate>,
    rows: Seq<RecordRowView>,
) -> Map<Seq<u8>, Seq<u8>>
    decreases rows.len(),
{
    if rows.len() == 0 {
        entries
    } else {
        record_step(record_fold(entries, window, rows.drop_last()), window, rows.last())
    }
}

/// The values of the rows of a statistics sheet.
pub open spec fn statistics_rows_view(rows: Seq<StatisticsRow>) -> Seq<StatisticsRowView> {
    Seq::new(rows.len(), |i: int| rows[i]@)
}

/// The values of the rows of a swipe-record sheet.
pub open spec fn record_rows_view(rows: Seq<RecordRow>) -> Seq<RecordRowView> {
    Seq::new(rows.len(), |i: int| rows[i]@)
}

/// The import of the statistics sheet leaves the reason of every record as
/// it was.
pub proof fn lemma_statistics_fold_keeps_reason(
    entries: Map<Seq<u8>, Seq<u8>>,
    window: Seq<CalendarDate>,
    rows: Seq<StatisticsRowView>,
    key: Seq<u8>,
)
    ensures
        stored_record(stored_bytes(statistics_fold(entries, window, rows), key)).abnormal_reason
            == stored_record(stored_bytes(entries, key)).abnormal_reason,
    decreases rows.len(),
{
    if rows.len() > 0 {
        let before = statistics_fold(entries, window, rows.drop_last());
        lemma_statistics_fold_keeps_reason(entries, window, rows.drop_last(), key);
        let row = rows.last();
        match row_key(window, row.employee_id, row.date) {
            Some(k) => {
                let patch = FieldPatchView::Timing {
                    employee_id: trim_text(row.employee_id),
                    enter_info: row.enter_info,
                    leave_info: row.leave_info,
                    work_minutes_bits: row.work_minutes_bits,
                };
                if k == key {
                    lemma_merge_keeps_other_group(before, k, patch);
                } else {
                    lemma_merge_frame(before, k, patch, key);
                }
            },
            None => {},
        }
    }
}

/// The import of the statistics sheet leaves every working time a working
/// time: a record whose working time was non-negative and a number has one
/// that is so afterwards, whatever the rows hold.
pub proof fn lemma_statistics_fold_keeps_minutes_valid(
    entries: Map<Seq<u8>, Seq<u8>>,
    window: Seq<CalendarDate>,
    rows: Seq<StatisticsRowView>,
    key: Seq<u8>,
)
    requires
        valid_minutes(stored_record(stored_bytes(entries, key)).work_minutes_bits),
    ensures
        valid_minutes(
            stored_record(
                stored_bytes(statistics_fold(entries, window, rows), key),
            ).work_minutes_bits,
        ),
    decreases rows.len(),
{
    if rows.len() > 0 {
        let before = statistics_fold(entries, window, rows.drop_last());
        lemma_statistics_fold_keeps_minutes_valid(entries, window, rows.drop_last(), key);
        let row = rows.last();
        match row_key(window, row.employee_id, row.date) {
            Some(k) => {
                let patch = FieldPatchView::Timing {
                    employee_id: trim_text(row.employee_id),
                    enter_info: row.enter_info,
                    leave_info: row.leave_info,
                    work_minutes_bits: row.work_minutes_bits,
                };
                if k == key {
                    lemma_merge_keeps_minutes_valid(before, k, patch);
                } else {
                    lemma_merge_frame(before, k, patch, key);
                }
            },
            None => {},
        }
    }
}

/// The import of the swipe-record sheet leaves the timing fields of every
/// record as they were.
pub proof fn lemma_record_fold_keeps_timing(
    entries: Map<Seq<u8>, Seq<u8>>,
    window: Seq<CalendarDate>,
    rows: Seq<RecordRowView>,
    key: Seq<u8>,
)
    ensures
        same_timing(
            stored_record(stored_bytes(record_fold(entries, window, rows), key)),
            stored_record(stored_bytes(entries, key)),
        ),
    decreases rows.len(),
{
    if rows.len() > 0 {
        let before = record_fold(entries, window, rows.drop_last());
        lemma_record_fold_keeps_timing(entries, window, rows.drop_last(), key);
        let row = rows.last();
        match row_key(window, row.employee_id, row.date) {
            Some(k) => {
                let patch = FieldPatchView::Reason {
                    employee_id: trim_text(row.employee_id),
                    abnormal_reason: row.abnormal_reason,
                };
                if k == key {
                    lemma_merge_keeps_other_group(before, k, patch);
                } else {
                    lemma_merge_frame(before, k, patch, key);
                }
            },
            None => {},
        }
    }
}

/// The key of a row, if it has one.
fn key_of_row(window: &DateWindow, employee_id: &str, date: &str) -> (r: Option<AttendanceKey>)
    requires
        window.wf(),
    ensures
        match r {
            Some(key) => key.wf() && row_key(window@, employee_id@, date@) == Some(key.bytes())
                && key.id_text() == trim_text(employee_id@),
            None => row_key(window@, employee_id@, date@) is None,
        },
{
    match window.resolve(date) {
        Some(day) => {
            proof {
                crate::dates::lemma_find_short_member(window@, date@.subrange(0, 8));
            }
            AttendanceKey::new(day, employee_id)
        },
        None => None,
    }
}

/// The import of the statistics sheet. The window of the configuration is
/// worked out first, and nothing is stored where it has none. Then the
/// configuration is stored, and the rows are merged in order: each row that
/// names an employee and a date of the window overwrites the timing fields
/// of its record and leaves its reason as it was; no stored working time
/// becomes negative or no number. A failure of the database ends the
/// import.
pub fn update_statistics(store: &mut Store, input: &UserInput, rows: &Vec<StatisticsRow>) -> (r:
    Result<(), ImportError>)
    ensures
        (r matches Err(ImportError::Window)) <==> expand_spec(
            input@.start_date,
            input@.end_date,
        ) is None,
        (r matches Err(ImportError::Window)) ==> final(store).entries() == old(store).entries(),
        (r matches Err(ImportError::Store(StoreError::ConfigTooLarge))) <==> expand_spec(
            input@.start_date,
            input@.end_date,
        ) is Some && !storable(input@),
        (r matches Err(ImportError::Store(StoreError::ConfigTooLarge))) ==> final(store).entries()
            == old(store).entries(),
        r is Ok ==> storable(input@) && final(store).entries() == statistics_fold(
            old(store).entries().insert(config_key(), input_bytes(input@)),
            expand_spec(input@.start_date, input@.end_date)->0,
            statistics_rows_view(rows@),
        ),
        r is Ok ==> forall|date: CalendarDate, id: Seq<char>|
            (#[trigger] record_at(final(store).entries(), date, id)).abnormal_reason == record_at(
                old(store).entries(),
                date,
                id,
            ).abnormal_reason,
        r is Ok ==> forall|date: CalendarDate, id: Seq<char>|
            valid_minutes(record_at(old(store).entries(), date, id).work_minutes_bits)
                ==> valid_minutes(
                (#[trigger] record_at(final(store).entries(), date, id)).work_minutes_bits,
            ),
{
    let window = match DateWindow::expand(input.start_date, input.end_date) {
        Some(window) => window,
        None => { return Err(ImportError::Window); },
    };
    match store.save_user_input(input) {
        Ok(()) => {},
        Err(e) => { return Err(ImportError::Store(e)); },
    }
    let ghost start = store.entries();
    let ghost all = statistics_rows_view(rows@);
    let mut i: usize = 0;
    assert(all.subrange(0, 0) =~= Seq::<StatisticsRowView>::empty());
    while i < rows.len()
        invariant
            i <= rows.len(),
            window.wf(),
            expand_spec(input@.start_date, input@.end_date) == Some(window@),
            storable(input@),
            all == statistics_rows_view(rows@),
            store.entries() == statistics_fold(start, window@, all.subrange(0, i as int)),
        decreases rows.len() - i,
    {
        let row = &rows[i];
        proof {
            let next = all.subrange(0, i + 1);
            assert(next.drop_last() =~= all.subrange(0, i as int));
            assert(next.last() == row@);
        }
        match key_of_row(&window, row.employee_id.as_str(), row.date.as_str()) {
            Some(key) => {
                match store.merge_timing_fields(
                    &key,
                    row.enter_info.as_str(),
                    row.leave_info.as_str(),
                    row.work_minutes_bits,
                ) {
                    Ok(()) => {},
                    Err(e) => { return Err(ImportError::Store(e)); },
                }
            },
            None => {},
        }
        i += 1;
    }
    assert(all.subrange(0, i as int) =~= all);
    proof {
        let before = old(store).entries();
        assert forall|date: CalendarDate, id: Seq<char>|
            (#[trigger] record_at(store.entries(), date, id)).abnormal_reason == record_at(
                before,
                date,
                id,
            ).abnormal_reason by {
            lemma_config_keeps_records(before, input_bytes(input@), date, id);
            lemma_statistics_fold_keeps_reason(start, window@, all, record_key(date, id));
        }
        assert forall|date: CalendarDate, id: Seq<char>|
            valid_minutes(record_at(before, date, id).work_minutes_bits) implies valid_minutes(
            (#[trigger] record_at(store.entries(), date, id)).work_minutes_bits,
        ) by {
            lemma_config_keeps_records(before, input_bytes(input@), date, id);
            lemma_statistics_fold_keeps_minutes_valid(start, window@, all, record_key(date, id));
        }
    }
    Ok(())
}

/// The import of the swipe-record sheet. It goes as the import of the
/// statistics sheet does, but each row overwrites the reason of its record
/// and leaves the timing fields as they are.
pub fn update_record(store: &mut Store, input: &UserInput, rows: &Vec<RecordRow>) -> (r: Result<
    (),
    ImportError,
>)
    ensures
        (r matches Err(ImportError::Window)) <==> expand_spec(
            input@.start_date,
            input@.end_date,
        ) is None,
        (r matches Err(ImportError::Window)) ==> final(store).entries() == old(store).entries(),
        (r matches Err(ImportError::Store(StoreError::ConfigTooLarge))) <==> expand_spec(
            input@.start_date,
            input@.end_date,
        ) is Some && !storable(input@),
        (r matches Err(ImportError::Store(StoreError::ConfigTooLarge))) ==> final(store).entries()
            == old(store).entries(),
        r is Ok ==> storable(input@) && final(store).entries() == record_fold(
            old(store).entries().insert(config_key(), input_bytes(input@)),
            expand_spec(input@.start_date, input@.end_date)->0,
            record_rows_view(rows@),
        ),
        r is Ok ==> forall|date: CalendarDate, id: Seq<char>|
            same_timing(
                #[trigger] record_at(final(store).entries(), date, id),
                record_at(old(store).entries(), date, id),
            ),
{
    let window = match DateWindow::expand(input.start_date, input.end_date) {
        Some(window) => window,
        None => { return Err(ImportError::Window); },
    };
    match store.save_user_input(input) {
        Ok(()) => {},
        Err(e) => { return Err(ImportError::Store(e)); },
    }
    let ghost start = store.entries();
    let ghost all = record_rows_view(rows@);
    let mut i: usize = 0;
    assert(all.subrange(0, 0) =~= Seq::<RecordRowView>::empty());
    while i < rows.len()
        invariant
            i <= rows.len(),
            window.wf(),
            expand_spec(input@.start_date, input@.end_date) == Some(window@),
            storable(input@),
            all == record_rows_view(rows@),
            store.entries() == record_fold(start, window@, all.subrange(0, i as int)),
        decreases rows.len() - i,
    {
        let row = &rows[i];
        proof {
            let next = all.subrange(0, i + 1);
            assert(next.drop_last() =~= all.subrange(0, i as int));
            assert(next.last() == row@);
        }
        match key_of_row(&window, row.employee_id.as_str(), row.date.as_str()) {
            Some(key) => {
                match store.merge_reason_field(&key, row.abnormal_reason.as_str()) {
                    Ok(()) => {},
                    Err(e) => { return Err(ImportError::Store(e)); },
                }
            },
            None => {},
        }
        i += 1;
    }
    assert(all.subrange(0, i as int) =~= all);
    proof {
        let before = old(store).entries();
        assert forall|date: CalendarDate, id: Seq<char>|
            same_timing(
                #[trigger] record_at(store.entries(), date, id),
                record_at(before, date, id),
            ) by {
            lemma_config_keeps_records(before, input_bytes(input@), date, id);
            lemma_record_fold_keeps_timing(start, window@, all, record_key(date, id));
        }
    }
    Ok(())
}

} // verus!
