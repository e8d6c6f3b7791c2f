//! The report projector: what is to be written into each sheet of the
//! report template, cell by cell, for every date of the window.
//!
//! Each date takes two columns of a sheet: the hours worked and the
//! attendance detail. The projector reads the ledger and plans the writes;
//! the spreadsheet itself is written by the caller, step by step.

use vstd::prelude::*;
use crate::classify::{detail, detail_text};
use crate::columns::{column_letters, coordinate_from_index, string_from_column_index};
use crate::config::{input_bytes, storable, TemplateMapping, UserInput};
use crate::dates::{expand_spec, month_day_text, CalendarDate, DateWindow};
use crate::record::AttendanceView;
use crate::keys::config_key;
use crate::store::{
    day_records, lemma_config_keeps_records, record_at, DailyRecords, Store, StoreError,
};
use crate::text::{chars_of, decimal_text, push_all, string_of, trim, trim_text};

verus! {

/// One sheet of the template, as read: its highest populated row, and the
/// texts of the employee-id cells of the rows below the header row, from
/// the first such row on.
#[derive(Clone, Debug, PartialEq, Eq)]
pub struct TemplateSheet {
    pub max_row: u32,
    pub employee_ids: Vec<String>,
}

/// The mathematical value of a [`TemplateSheet`].
pub ghost struct TemplateSheetView {
    pub max_row: u32,
    pub employee_ids: Seq<Seq<char>>,
}

impl View for TemplateSheet {
    type V = TemplateSheetView;

    open spec fn view(&self) -> TemplateSheetView {
        TemplateSheetView {
            max_row: self.max_row,
            employee_ids: Seq::new(self.employee_ids@.len(), |i: int| self.employee_ids@[i]@),
        }
    }
}

/// One step of writing a report.
#[derive(Clone, Debug, PartialEq, Eq)]
pub enum ReportStep {
    /// Write a text into a cell.
    Text { col: u32, row: u32, text: String },
    /// Write the hours worked into a cell: the working time, given here in
    /// minutes by its bit pattern, divided by sixty.
    Hours { col: u32, row: u32, work_minutes_bits: u64 },
    /// Set the width of a column, named by its letters.
    Width { column: String, width: u32 },
    /// Note that the ledger knows nothing of an employee on the date at
    /// hand. Nothing is written.
    Missing { employee_id: String },
}

/// The mathematical value of a [`ReportStep`].
pub ghost enum ReportStepView {
    Text { col: u32, row: u32, text: Seq<char> },
    Hours { col: u32, row: u32, work_minutes_bits: u64 },
    Width { column: Seq<char>, width: u32 },
    Missing { employee_id: Seq<char> },
}

impl View for ReportStep {
    type V = ReportStepView;

    open spec fn view(&self) -> ReportStepView {
        match self {
            ReportStep::Text { col, row, text } => ReportStepView::Text {
                col: *col,
                row: *row,
                text: text@,
            },
            ReportStep::Hours { col, row, work_minutes_bits } => ReportStepView::Hours {
                col: *col,
                row: *row,
                work_minutes_bits: *work_minutes_bits,
            },
            ReportStep::Width { column, width } => ReportStepView::Width {
                column: column@,
                width: *width,
            },
            ReportStep::Missing { employee_id } => ReportStepView::Missing {
                employee_id: employee_id@,
            },
        }
    }
}

/// The values of a sequence of steps.
pub open spec fn steps_view(steps: Seq<ReportStep>) -> Seq<ReportStepView> {
    Seq::new(steps.len(), |i: int| steps[i]@)
}

/// What is wrong with the mapping of a template sheet.
#[derive(Clone, Copy, Debug, PartialEq, Eq, Structural)]
pub enum SheetProblem {
    /// The template has no sheet for the mapping.
    MissingSheet,
    /// The mapping names a column or a row 0.
    InvalidMapping,
    /// The date blocks of the window reach beyond the last column that a
    /// 32-bit number can name.
    ColumnRange,
}

/// Why a report failed.
#[derive(Clone, Debug, PartialEq, Eq)]
pub enum ReportError {
    /// A day between the two dates of the configuration has no date in the
    /// ledger's calendar.
    Window,
    /// The mapping of the template sheet `index` cannot be used.
    Sheet { index: usize, problem: SheetProblem },
    /// The ledger failed.
    Store(StoreError),
}

/// The width of the column of attendance details.
pub open spec fn detail_width() -> u32 {
    15
}

/// The header over the hours of a date.
pub open spec fn hours_title(date: CalendarDate) -> Seq<char> {
    month_day_text(date) + "个人投入度"@
}

/// The header over the attendance details of a date.
pub open spec fn detail_title(date: CalendarDate) -> Seq<char> {
    month_day_text(date)
        + "考勤\n（正常/不正常（缺卡、补卡、虚拟打卡、非主责项目或城市打卡），不正常说明原因）"@
}

/// The steps that write the headers of a date whose block starts at column
/// `col`.
pub open spec fn header_steps(date: CalendarDate, col: int, row: int) -> Seq<ReportStepView> {
    seq![
        ReportStepView::Text { col: col as u32, row: row as u32, text: hours_title(date) },
        ReportStepView::Text { col: (col + 1) as u32, row: row as u32, text: detail_title(date) },
        ReportStepView::Width { column: column_letters(col + 1), width: detail_width() },
    ]
}

/// The steps for one row below the header. A row without an employee id is
/// passed over. For an employee of whom the ledger has a record, the hours
/// and the detail are written; for any other, the lack is noted.
pub open spec fn row_steps(
    records: Map<Seq<char>, AttendanceView>,
    col: int,
    row: int,
    id_cell: Seq<char>,
) -> Seq<ReportStepView> {
    let id = trim_text(id_cell);
    if id.len() == 0 {
        Seq::<ReportStepView>::empty()
    } else if records.contains_key(id) {
        seq![
            ReportStepView::Hours {
                col: col as u32,
                row: row as u32,
                work_minutes_bits: records[id].work_minutes_bits,
            },
            ReportStepView::Text {
                col: (col + 1) as u32,
                row: row as u32,
                text: detail_text(
                    records[id].enter_info,
                    records[id].leave_info,
                    records[id].abnormal_reason,
                ),
            },
        ]
    } else {
        seq![ReportStepView::Missing { employee_id: id }]
    }
}

/// The steps for the rows below the header, from the top down. The row of
/// the first id is the one below the header row.
pub open spec fn rows_steps(
    records: Map<Seq<char>, AttendanceView>,
    col: int,
    title_row: int,
    ids: Seq<Seq<char>>,
) -> Seq<ReportStepView>
    decreases ids.len(),
{
    if ids.len() == 0 {
        Seq::<ReportStepView>::empty()
    } else {
        rows_steps(records, col, title_row, ids.drop_last()) + row_steps(
            records,
            col,
            title_row + ids.len(),
            ids.last(),
        )
    }
}

/// The id cells that count: those of the rows from the one below the
/// header row down to the highest populated row.
pub open spec fn data_rows(title_row: int, max_row: int, ids: Seq<Seq<char>>) -> Seq<Seq<char>> {
    if max_row <= title_row {
        Seq::<Seq<char>>::empty()
    } else if ids.len() <= max_row - title_row {
        ids
    } else {
        ids.subrange(0, max_row - title_row)
    }
}

/// The steps for one date: the headers, if the sheet reaches down to the
/// header row, and then the rows.
pub open spec fn date_steps(
    records: Map<Seq<char>, AttendanceView>,
    date: CalendarDate,
    col: int,
    title_row: int,
    sheet: TemplateSheetView,
) -> Seq<ReportStepView> {
    let headers = if title_row <= sheet.max_row {
        header_steps(date, col, title_row)
    } else {
        Seq::<ReportStepView>::empty()
    };
    headers + rows_steps(
        records,
        col,
        title_row,
        data_rows(title_row, sheet.max_row as int, sheet.employee_ids),
    )
}

/// The steps for one sheet: those of each date of the window, in calendar
/// order. The block of the first date starts at the mapping's column, and
/// that of each later date two columns further to the right.
pub open spec fn sheet_steps(
    entries: Map<Seq<u8>, Seq<u8>>,
    window: Seq<CalendarDate>,
    mapping: TemplateMapping,
    sheet: TemplateSheetView,
) -> Seq<ReportStepView>
    decreases window.len(),
{
    if window.len() == 0 {
        Seq::<ReportStepView>::empty()
    } else {
        sheet_steps(entries, window.drop_last(), mapping, sheet) + date_steps(
            day_records(entries, window.last()),
            window.last(),
            mapping.date_block_start_col + 2 * (window.len() - 1),
            mapping.title_row as int,
            sheet,
        )
    }
}

/// What is wrong with the mapping of the template sheet `index`, if
/// anything, for a template of `sheets` sheets and a window of `days`
/// dates.
pub open spec fn sheet_problem(mapping: TemplateMapping, index: int, sheets: int, days: int) -> Option<
    SheetProblem,
> {
    if index >= sheets {
        Some(SheetProblem::MissingSheet)
    } else if mapping.employee_id_col == 0 || mapping.date_block_start_col == 0 || mapping.title_row
        == 0 {
        Some(SheetProblem::InvalidMapping)
    } else if mapping.date_block_start_col + 2 * days - 1 > u32::MAX {
        Some(SheetProblem::ColumnRange)
    } else {
        None
    }
}

/// Appends the steps of `more` to `steps`.
fn append_steps(steps: &mut Vec<ReportStep>, more: Vec<ReportStep>)
    ensures
        steps_view(final(steps)@) == steps_view(old(steps)@) + steps_view(more@),
{
    let mut more = more;
    let ghost added = more@;
    steps.append(&mut more);
    assert(steps_view(steps@) =~= steps_view(old(steps)@) + steps_view(added));
}

/// The steps that write the headers of a date.
fn header_plan(date: &CalendarDate, col: u32, row: u32) -> (steps: Vec<ReportStep>)
    requires
        1 <= col < u32::MAX,
    ensures
        steps_view(steps@) == header_steps(*date, col as int, row as int),
{
    let mut hours = date.month_day_chars();
    push_all(&mut hours, &chars_of("个人投入度"));
    let mut details = date.month_day_chars();
    push_all(
        &mut details,
        &chars_of(
            "考勤\n（正常/不正常（缺卡、补卡、虚拟打卡、非主责项目或城市打卡），不正常说明原因）",
        ),
    );
    let steps = vec![
        ReportStep::Text { col, row, text: string_of(&hours) },
        ReportStep::Text { col: col + 1, row, text: string_of(&details) },
        ReportStep::Width { column: string_from_column_index(col + 1), width: 15 },
    ];
    assert(steps_view(steps@) =~= header_steps(*date, col as int, row as int));
    steps
}

/// The steps for one row below the header.
fn row_plan(records: &DailyRecords, col: u32, row: u32, id_cell: &str) -> (steps: Vec<ReportStep>)
    requires
        records.wf(),
        col < u32::MAX,
    ensures
        steps_view(steps@) == row_steps(records@, col as int, row as int, id_cell@),
{
    let id = string_of(&trim(&chars_of(id_cell)));
    if id.as_str().is_empty() {
        let steps: Vec<ReportStep> = Vec::new();
        assert(steps_view(steps@) =~= row_steps(records@, col as int, row as int, id_cell@));
        return steps;
    }
    let steps = match records.get(id.as_str()) {
        Some(record) => vec![
            ReportStep::Hours { col, row, work_minutes_bits: record.work_minutes_bits },
            ReportStep::Text { col: col + 1, row, text: detail(record) },
        ],
        None => vec![ReportStep::Missing { employee_id: id }],
    };
    assert(steps_view(steps@) =~= row_steps(records@, col as int, row as int, id_cell@));
    steps
}

/// The steps for one date.
fn date_plan(
    records: &DailyRecords,
    date: &CalendarDate,
    col: u32,
    title_row: u32,
    sheet: &TemplateSheet,
) -> (steps: Vec<ReportStep>)
    requires
        records.wf(),
        1 <= col < u32::MAX,
    ensures
        steps_view(steps@) == date_steps(records@, *date, col as int, title_row as int, sheet@),
{
    let mut steps: Vec<ReportStep> = if title_row <= sheet.max_row {
        header_plan(date, col, title_row)
    } else {
        Vec::new()
    };
    let ghost headers = steps_view(steps@);
    let ghost rows = data_rows(title_row as int, sheet.max_row as int, sheet@.employee_ids);
    let count: usize = if sheet.max_row <= title_row {
        0
    } else if sheet.employee_ids.len() as u64 <= (sheet.max_row - title_row) as u64 {
        sheet.employee_ids.len()
    } else {
        (sheet.max_row - title_row) as usize
    };
    assert(rows.len() == count);
    assert(rows.subrange(0, 0) =~= Seq::<Seq<char>>::empty());
    assert(headers + Seq::<ReportStepView>::empty() =~= headers);
    let mut j: usize = 0;
    while j < count
        invariant
            j <= count,
            records.wf(),
            col < u32::MAX,
            count <= sheet.employee_ids@.len(),
            count > 0 ==> title_row + count <= sheet.max_row,
            rows == data_rows(title_row as int, sheet.max_row as int, sheet@.employee_ids),
            rows.len() == count,
            steps_view(steps@) == headers + rows_steps(
                records@,
                col as int,
                title_row as int,
                rows.subrange(0, j as int),
            ),
        decreases count - j,
    {
        let row: u32 = title_row + 1 + j as u32;
        let more = row_plan(records, col, row, sheet.employee_ids[j].as_str());
        proof {
            let next = rows.subrange(0, j + 1);
            assert(next.drop_last() =~= rows.subrange(0, j as int));
            assert(next.last() == sheet.employee_ids@[j as int]@);
        }
        let ghost before = steps_view(steps@);
        append_steps(&mut steps, more);
        j += 1;
        assert(steps_view(steps@) =~= headers + rows_steps(
            records@,
            col as int,
            title_row as int,
            rows.subrange(0, j as int),
        ));
    }
    assert(rows.subrange(0, count as int) =~= rows);
    steps
}

/// The records of each date of a window.
pub open spec fn days_match(
    days: Seq<DailyRecords>,
    entries: Map<Seq<u8>, Seq<u8>>,
    window: Seq<CalendarDate>,
) -> bool {
    &&& days.len() == window.len()
    &&& forall|i: int|
        0 <= i < days.len() ==> (#[trigger] days[i]).wf() && days[i]@ == day_records(
            entries,
            window[i],
        )
}

/// The steps for one sheet.
fn sheet_plan(
    days: &Vec<DailyRecords>,
    window: &DateWindow,
    mapping: &TemplateMapping,
    sheet: &TemplateSheet,
    Ghost(entries): Ghost<Map<Seq<u8>, Seq<u8>>>,
) -> (steps: Vec<ReportStep>)
    requires
        days_match(days@, entries, window@),
        mapping.date_block_start_col >= 1,
        mapping.date_block_start_col + 2 * window@.len() - 1 <= u32::MAX,
    ensures
        steps_view(steps@) == sheet_steps(entries, window@, *mapping, sheet@),
{
    let mut steps: Vec<ReportStep> = Vec::new();
    let n = window.len();
    let mut i: usize = 0;
    assert(window@.subrange(0, 0) =~= Seq::<CalendarDate>::empty());
    assert(steps_view(steps@) =~= Seq::<ReportStepView>::empty());
    while i < n
        invariant
            i <= n,
            n == window@.len(),
            days_match(days@, entries, window@),
            mapping.date_block_start_col >= 1,
            mapping.date_block_start_col + 2 * n - 1 <= u32::MAX,
            steps_view(steps@) == sheet_steps(
                entries,
                window@.subrange(0, i as int),
                *mapping,
                sheet@,
            ),
        decreases n - i,
    {
        let date = window.date(i);
        let col: u32 = mapping.date_block_start_col + 2 * (i as u32);
        assert(days@[i as int].wf());
        let more = date_plan(&days[i], &date, col, mapping.title_row, sheet);
        proof {
            let next = window@.subrange(0, i + 1);
            assert(next.drop_last() =~= window@.subrange(0, i as int));
            assert(next.last() == date);
        }
        append_steps(&mut steps, more);
        i += 1;
    }
    assert(window@.subrange(0, n as int) =~= window@);
    steps
}

/// What is wrong with a mapping, if anything.
fn check_mapping(mapping: &TemplateMapping, index: usize, sheets: usize, days: usize) -> (r: Option<
    SheetProblem,
>)
    ensures
        r == sheet_problem(*mapping, index as int, sheets as int, days as int),
{
    if index >= sheets {
        Some(SheetProblem::MissingSheet)
    } else if mapping.employee_id_col == 0 || mapping.date_block_start_col == 0
        || mapping.title_row == 0 {
        Some(SheetProblem::InvalidMapping)
    } else if days as u128 * 2 + mapping.date_block_start_col as u128 - 1 > 0xffff_ffff {
        Some(SheetProblem::ColumnRange)
    } else {
        None
    }
}

/// No mapping before `upto` has a problem.
pub open spec fn mappings_sound(
    mappings: Seq<TemplateMapping>,
    upto: int,
    sheets: int,
    days: int,
) -> bool {
    forall|k: int|
        0 <= k < upto && k < mappings.len() ==> sheet_problem(
            #[trigger] mappings[k],
            k,
            sheets,
            days,
        ) is None
}

/// Plans the report; no attendance record is added, removed or changed by
/// it. The window and the mappings of the configuration are
/// checked first, and nothing is stored or planned where one of them cannot
/// be used. Then the configuration is stored, the records of every date of
/// the window are read from the ledger, and the steps of every sheet are
/// planned from them, one list of steps for each mapping.
pub fn generate_report(store: &mut Store, input: &UserInput, sheets: &Vec<TemplateSheet>) -> (r:
    Result<Vec<Vec<ReportStep>>, ReportError>)
    ensures
        (r matches Err(ReportError::Window)) <==> expand_spec(
            input@.start_date,
            input@.end_date,
        ) is None,
        r matches Err(ReportError::Sheet { index, problem }) ==> {
            &&& index < input@.template_cfg.len()
            &&& sheet_problem(
                input@.template_cfg[index as int],
                index as int,
                sheets@.len() as int,
                expand_spec(input@.start_date, input@.end_date)->0.len() as int,
            ) == Some(problem)
            &&& mappings_sound(
                input@.template_cfg,
                index as int,
                sheets@.len() as int,
                expand_spec(input@.start_date, input@.end_date)->0.len() as int,
            )
        },
        expand_spec(input@.start_date, input@.end_date) is Some && !(r matches Err(
            ReportError::Sheet { .. },
        )) ==> mappings_sound(
            input@.template_cfg,
            input@.template_cfg.len() as int,
            sheets@.len() as int,
            expand_spec(input@.start_date, input@.end_date)->0.len() as int,
        ),
        ((r matches Err(ReportError::Window)) || (r matches Err(ReportError::Sheet { .. })))
            ==> final(store).entries() == old(store).entries(),
        (r matches Err(ReportError::Store(StoreError::ConfigTooLarge))) <==> expand_spec(
            input@.start_date,
            input@.end_date,
        ) is Some && mappings_sound(
            input@.template_cfg,
            input@.template_cfg.len() as int,
            sheets@.len() as int,
            expand_spec(input@.start_date, input@.end_date)->0.len() as int,
        ) && !storable(input@),
        (r matches Err(ReportError::Store(StoreError::ConfigTooLarge))) ==> final(store).entries()
            == old(store).entries(),
        r is Ok ==> forall|date: CalendarDate, id: Seq<char>|
            #[trigger] record_at(final(store).entries(), date, id) == record_at(
                old(store).entries(),
                date,
                id,
            ),
        r matches Ok(plans) ==> {
            &&& storable(input@)
            &&& final(store).entries() == old(store).entries().insert(
                config_key(),
                input_bytes(input@),
            )
            &&& plans@.len() == input@.template_cfg.len()
            &&& forall|s: int|
                0 <= s < plans@.len() ==> steps_view((#[trigger] plans@[s])@) == sheet_steps(
                    final(store).entries(),
                    expand_spec(input@.start_date, input@.end_date)->0,
                    input@.template_cfg[s],
                    sheets@[s]@,
                )
        },
{
    let window = match DateWindow::expand(input.start_date, input.end_date) {
        Some(window) => window,
        None => { return Err(ReportError::Window); },
    };
    let count = input.template_cfg.len();
    let mut k: usize = 0;
    while k < count
        invariant
            k <= count,
            count == input.template_cfg@.len(),
            expand_spec(input@.start_date, input@.end_date) == Some(window@),
            mappings_sound(
                input@.template_cfg,
                k as int,
                sheets@.len() as int,
                window@.len() as int,
            ),
            store.entries() == old(store).entries(),
        decreases count - k,
    {
        match check_mapping(&input.template_cfg[k], k, sheets.len(), window.len()) {
            Some(problem) => {
                return Err(ReportError::Sheet { index: k, problem });
            },
            None => {},
        }
        k += 1;
    }
    match store.save_user_input(input) {
        Ok(()) => {},
        Err(e) => { return Err(ReportError::Store(e)); },
    }
    let ghost entries = store.entries();
    let mut days: Vec<DailyRecords> = Vec::new();
    let mut d: usize = 0;
    while d < window.len()
        invariant
            d <= window@.len(),
            window.wf(),
            entries == store.entries(),
            storable(input@),
            days_match(days@, entries, window@.subrange(0, d as int)),
            expand_spec(input@.start_date, input@.end_date) == Some(window@),
            mappings_sound(
                input@.template_cfg,
                input@.template_cfg.len() as int,
                sheets@.len() as int,
                window@.len() as int,
            ),
        decreases window@.len() - d,
    {
        let date = window.date(d);
        assert(window@[d as int].wf());
        let ghost before = days@;
        match store.scan_by_date(&date) {
            Ok(found) => {
                days.push(found);
            },
            Err(e) => { return Err(ReportError::Store(e)); },
        }
        proof {
            let part = window@.subrange(0, d + 1);
            assert forall|i: int| 0 <= i < days@.len() implies (#[trigger] days@[i]).wf() && days@[i]@
                == day_records(entries, part[i]) by {
                if i < d {
                    assert(days@[i] == before[i]);
                    assert(part[i] == window@.subrange(0, d as int)[i]);
                }
            }
        }
        d += 1;
    }
    assert(window@.subrange(0, d as int) =~= window@);
    let mut plans: Vec<Vec<ReportStep>> = Vec::new();
    let mut s: usize = 0;
    while s < count
        invariant
            s <= count,
            count == input.template_cfg@.len(),
            plans@.len() == s,
            days_match(days@, entries, window@),
            mappings_sound(
                input@.template_cfg,
                count as int,
                sheets@.len() as int,
                window@.len() as int,
            ),
            forall|t: int|
                0 <= t < s ==> steps_view((#[trigger] plans@[t])@) == sheet_steps(
                    entries,
                    window@,
                    input@.template_cfg[t],
                    sheets@[t]@,
                ),
        decreases count - s,
    {
        let mapping = input.template_cfg[s];
        assert(sheet_problem(
            input@.template_cfg[s as int],
            s as int,
            sheets@.len() as int,
            window@.len() as int,
        ) is None);
        let plan = sheet_plan(&days, &window, &mapping, &sheets[s], Ghost(entries));
        let ghost before = plans@;
        plans.push(plan);
        proof {
            assert forall|t: int| 0 <= t < s + 1 implies steps_view((#[trigger] plans@[t])@)
                == sheet_steps(entries, window@, input@.template_cfg[t], sheets@[t]@) by {
                if t < s {
                    assert(plans@[t] == before[t]);
                }
            }
        }
        s += 1;
    }
    proof {
        let before = old(store).entries();
        assert forall|date: CalendarDate, id: Seq<char>|
            #[trigger] record_at(store.entries(), date, id) == record_at(before, date, id) by {
            lemma_config_keeps_records(before, input_bytes(input@), date, id);
        }
    }
    Ok(plans)
}

/// The name of the rectangle of cells from the first cell of a sheet to the
/// cell in column `col` and row `row`: `A1`, a colon, and the name of that
/// cell.
pub open spec fn style_range_text(col: int, row: int) -> Seq<char> {
    column_letters(1) + decimal_text(1) + seq![':'] + column_letters(col) + decimal_text(
        row as nat,
    )
}

/// The range that the style of a finished sheet is applied to: all of the
/// sheet, up to its highest populated column and row. A sheet without a
/// populated column has no such range.
pub fn style_range(col: u32, row: u32) -> (r: Option<String>)
    ensures
        r is Some <==> col >= 1,
        r is Some ==> r->0@ == style_range_text(col as int, row as int),
{
    if col == 0 {
        return None;
    }
    let mut name = chars_of(coordinate_from_index(1, 1).as_str());
    name.push(':');
    push_all(&mut name, &chars_of(coordinate_from_index(col, row).as_str()));
    assert(name@ =~= style_range_text(col as int, row as int));
    Some(string_of(&name))
}

} // verus!
