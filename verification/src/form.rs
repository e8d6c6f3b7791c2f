//! The configuration as a user types and reads it: every date, column and
//! row a text. Parsing validates the whole form and rejects it as a whole;
//! rendering writes a stored configuration back into texts.

use vstd::prelude::*;
use crate::columns::{
    column_letters, lemma_column_number_letters, lemma_leading_letters_shape,
    lemma_parse_column_letters, lemma_parse_row_text, leading_letters, parse_col, parse_col_spec,
    parse_row, parse_row_spec, string_from_column_index,
};
use crate::config::{default_input, is_column, TemplateMapping, UserInput, UserInputView};
use crate::dates::{
    date_of_day, julian_of, lemma_long_date_text, lemma_long_text_round_trip, long_date_spec,
    long_text, parse_long_date, CalendarDate,
};
use crate::text::{chars_of, decimal_string, decimal_text, push_all, push_decimal_wide, string_of};

verus! {

/// The texts of one template mapping.
#[derive(Clone, Debug, PartialEq, Eq)]
pub struct TemplateForm {
    pub employee_id_col: String,
    pub start_col: String,
    pub title_row: String,
}

/// The mathematical value of a [`TemplateForm`].
pub ghost struct TemplateFormView {
    pub employee_id_col: Seq<char>,
    pub start_col: Seq<char>,
    pub title_row: Seq<char>,
}

impl View for TemplateForm {
    type V = TemplateFormView;

    open spec fn view(&self) -> TemplateFormView {
        TemplateFormView {
            employee_id_col: self.employee_id_col@,
            start_col: self.start_col@,
            title_row: self.title_row@,
        }
    }
}

/// The texts of a configuration.
#[derive(Clone, Debug, PartialEq, Eq)]
pub struct FormInput {
    pub start_date: String,
    pub end_date: String,
    pub statistics_employee_id_col: String,
    pub statistics_date_col: String,
    pub statistics_enter_result_col: String,
    pub statistics_leave_result_col: String,
    pub statistics_work_minutes_col: String,
    pub statistics_start_row: String,
    pub record_employee_id_col: String,
    pub record_date_col: String,
    pub record_abnormal_reason_col: String,
    pub record_start_row: String,
    pub template_configs: Vec<TemplateForm>,
}

/// The mathematical value of a [`FormInput`].
pub ghost struct FormInputView {
    pub start_date: Seq<char>,
    pub end_date: Seq<char>,
    pub statistics_employee_id_col: Seq<char>,
    pub statistics_date_col: Seq<char>,
    pub statistics_enter_result_col: Seq<char>,
    pub statistics_leave_result_col: Seq<char>,
    pub statistics_work_minutes_col: Seq<char>,
    pub statistics_start_row: Seq<char>,
    pub record_employee_id_col: Seq<char>,
    pub record_date_col: Seq<char>,
    pub record_abnormal_reason_col: Seq<char>,
    pub record_start_row: Seq<char>,
    pub template_configs: Seq<TemplateFormView>,
}

impl View for FormInput {
    type V = FormInputView;

    open spec fn view(&self) -> FormInputView {
        FormInputView {
            start_date: self.start_date@,
            end_date: self.end_date@,
            statistics_employee_id_col: self.statistics_employee_id_col@,
            statistics_date_col: self.statistics_date_col@,
            statistics_enter_result_col: self.statistics_enter_result_col@,
            statistics_leave_result_col: self.statistics_leave_result_col@,
            statistics_work_minutes_col: self.statistics_work_minutes_col@,
            statistics_start_row: self.statistics_start_row@,
            record_employee_id_col: self.record_employee_id_col@,
            record_date_col: self.record_date_col@,
            record_abnormal_reason_col: self.record_abnormal_reason_col@,
            record_start_row: self.record_start_row@,
            template_configs: Seq::new(
                self.template_configs@.len(),
                |i: int| self.template_configs@[i]@,
            ),
        }
    }
}

/// The field of a form that is not valid.
#[derive(Clone, Copy, Debug, PartialEq, Eq, Structural)]
pub enum InputError {
    StartDate,
    EndDate,
    StatisticsEmployeeIdCol,
    StatisticsDateCol,
    StatisticsEnterResultCol,
    StatisticsLeaveResultCol,
    StatisticsWorkMinutesCol,
    StatisticsStartRow,
    RecordEmployeeIdCol,
    RecordDateCol,
    RecordAbnormalReasonCol,
    RecordStartRow,
    /// The column of employee ids of the template sheet `sheet`, counted
    /// from 0.
    TemplateEmployeeIdCol { sheet: usize },
    /// The first column of the date blocks of the template sheet `sheet`.
    TemplateStartCol { sheet: usize },
    /// The header row of the template sheet `sheet`.
    TemplateTitleRow { sheet: usize },
}

/// What the user is told about an invalid field of the template sheet
/// `sheet`: the sheet is named by its number, counted from 1, before the
/// field.
pub open spec fn template_message_text(sheet: usize, field: Seq<char>) -> Seq<char> {
    "模板"@ + decimal_text((sheet + 1) as nat) + field
}

/// What the user is told about an invalid field.
pub open spec fn message_text(error: InputError) -> Seq<char> {
    match error {
        InputError::TemplateEmployeeIdCol { sheet } => template_message_text(
            sheet,
            "-工号，填写有误，请检查"@,
        ),
        InputError::TemplateStartCol { sheet } => template_message_text(
            sheet,
            "-起始列，填写有误，请检查"@,
        ),
        InputError::TemplateTitleRow { sheet } => template_message_text(
            sheet,
            "-标题行号，填写有误，请检查"@,
        ),
        InputError::StartDate => "开始日期，填写有误，请检查"@,
        InputError::EndDate => "结束日期，填写有误，请检查"@,
        InputError::StatisticsEmployeeIdCol => "每日统计表-工号，填写有误，请检查"@,
        InputError::StatisticsDateCol => "每日统计表-日期，填写有误，请检查"@,
        InputError::StatisticsEnterResultCol => "每日统计表-上班-打卡结果1，填写有误，请检查"@,
        InputError::StatisticsLeaveResultCol => "每日统计表-下班-打卡结果1，填写有误，请检查"@,
        InputError::StatisticsWorkMinutesCol => "每日统计表-工作时长(分钟)，填写有误，请检查"@,
        InputError::StatisticsStartRow => "每日统计表，数据起始行号，填写有误，请检查"@,
        InputError::RecordEmployeeIdCol => "原始记录表-工号，填写有误，请检查"@,
        InputError::RecordDateCol => "原始记录表-日期，填写有误，请检查"@,
        InputError::RecordAbnormalReasonCol => "原始记录表-异常打卡原因，填写有误，请检查"@,
        InputError::RecordStartRow => "原始记录表，数据起始行号，填写有误，请检查"@,
    }
}

/// The message about an invalid field of a template sheet.
fn template_message(sheet: usize, field: &str) -> (text: String)
    ensures
        text@ == template_message_text(sheet, field@),
{
    let mut out = chars_of("模板");
    push_decimal_wide(&mut out, sheet as u128 + 1);
    push_all(&mut out, &chars_of(field));
    string_of(&out)
}

impl InputError {
    /// What the user is told about the invalid field.
    pub fn message(&self) -> (text: String)
        ensures
            text@ == message_text(*self),
    {
        match self {
            InputError::TemplateEmployeeIdCol { sheet } => template_message(
                *sheet,
                "-工号，填写有误，请检查",
            ),
            InputError::TemplateStartCol { sheet } => template_message(
                *sheet,
                "-起始列，填写有误，请检查",
            ),
            InputError::TemplateTitleRow { sheet } => template_message(
                *sheet,
                "-标题行号，填写有误，请检查",
            ),
            InputError::StartDate => "开始日期，填写有误，请检查".to_owned(),
            InputError::EndDate => "结束日期，填写有误，请检查".to_owned(),
            InputError::StatisticsEmployeeIdCol => "每日统计表-工号，填写有误，请检查".to_owned(),
            InputError::StatisticsDateCol => "每日统计表-日期，填写有误，请检查".to_owned(),
            InputError::StatisticsEnterResultCol => {
                "每日统计表-上班-打卡结果1，填写有误，请检查".to_owned()
            },
            InputError::StatisticsLeaveResultCol => {
                "每日统计表-下班-打卡结果1，填写有误，请检查".to_owned()
            },
            InputError::StatisticsWorkMinutesCol => {
                "每日统计表-工作时长(分钟)，填写有误，请检查".to_owned()
            },
            InputError::StatisticsStartRow => "每日统计表，数据起始行号，填写有误，请检查".to_owned(),
            InputError::RecordEmployeeIdCol => "原始记录表-工号，填写有误，请检查".to_owned(),
            InputError::RecordDateCol => "原始记录表-日期，填写有误，请检查".to_owned(),
            InputError::RecordAbnormalReasonCol => {
                "原始记录表-异常打卡原因，填写有误，请检查".to_owned()
            },
            InputError::RecordStartRow => "原始记录表，数据起始行号，填写有误，请检查".to_owned(),
        }
    }
}

/// The first field of the texts of the template sheet `index` that is not
/// valid: a column text without a letter, or a row text that is no number
/// of at least 1.
pub open spec fn template_error(index: int, form: TemplateFormView) -> Option<InputError> {
    if parse_col_spec(form.employee_id_col) is None {
        Some(InputError::TemplateEmployeeIdCol { sheet: index as usize })
    } else if parse_col_spec(form.start_col) is None {
        Some(InputError::TemplateStartCol { sheet: index as usize })
    } else if parse_row_spec(form.title_row) is None {
        Some(InputError::TemplateTitleRow { sheet: index as usize })
    } else {
        None
    }
}

/// The first invalid field of the template sheets from sheet `from` on, in
/// the order of the sheets.
pub open spec fn first_template_error(templates: Seq<TemplateFormView>, from: int) -> Option<
    InputError,
>
    decreases templates.len() - from,
{
    if from < 0 || from >= templates.len() {
        None
    } else if template_error(from, templates[from]) is Some {
        template_error(from, templates[from])
    } else {
        first_template_error(templates, from + 1)
    }
}

/// The first field of a form, in the order of the form, that is not valid;
/// none where the form is valid. The fields of the template sheets come
/// after the others, sheet by sheet.
pub open spec fn first_error(form: FormInputView) -> Option<InputError> {
    if long_date_spec(form.start_date) is None {
        Some(InputError::StartDate)
    } else if long_date_spec(form.end_date) is None {
        Some(InputError::EndDate)
    } else if parse_col_spec(form.statistics_employee_id_col) is None {
        Some(InputError::StatisticsEmployeeIdCol)
    } else if parse_col_spec(form.statistics_date_col) is None {
        Some(InputError::StatisticsDateCol)
    } else if parse_col_spec(form.statistics_enter_result_col) is None {
        Some(InputError::StatisticsEnterResultCol)
    } else if parse_col_spec(form.statistics_leave_result_col) is None {
        Some(InputError::StatisticsLeaveResultCol)
    } else if parse_col_spec(form.statistics_work_minutes_col) is None {
        Some(InputError::StatisticsWorkMinutesCol)
    } else if parse_row_spec(form.statistics_start_row) is None {
        Some(InputError::StatisticsStartRow)
    } else if parse_col_spec(form.record_employee_id_col) is None {
        Some(InputError::RecordEmployeeIdCol)
    } else if parse_col_spec(form.record_date_col) is None {
        Some(InputError::RecordDateCol)
    } else if parse_col_spec(form.record_abnormal_reason_col) is None {
        Some(InputError::RecordAbnormalReasonCol)
    } else if parse_row_spec(form.record_start_row) is None {
        Some(InputError::RecordStartRow)
    } else {
        first_template_error(form.template_configs, 0)
    }
}

/// The mapping that the valid texts of a template sheet stand for.
pub open spec fn template_mapping_spec(form: TemplateFormView) -> TemplateMapping {
    TemplateMapping {
        employee_id_col: parse_col_spec(form.employee_id_col)->0,
        date_block_start_col: parse_col_spec(form.start_col)->0,
        title_row: parse_row_spec(form.title_row)->0,
    }
}

/// The texts of a template mapping.
pub open spec fn template_form_spec(mapping: TemplateMapping) -> TemplateFormView {
    TemplateFormView {
        employee_id_col: column_letters(mapping.employee_id_col as int),
        start_col: column_letters(mapping.date_block_start_col as int),
        title_row: decimal_text(mapping.title_row as nat),
    }
}

/// Whether the dates of a valid form stand the wrong way round: the start
/// date comes after the end date.
pub open spec fn dates_swapped(form: FormInputView) -> bool {
    julian_of(long_date_spec(form.start_date)->0) > julian_of(long_date_spec(form.end_date)->0)
}

/// The configuration that a valid form stands for. The earlier of its two
/// dates starts the window, whichever field it was typed in.
pub open spec fn parsed_input(form: FormInputView) -> UserInputView {
    let first = long_date_spec(form.start_date)->0;
    let second = long_date_spec(form.end_date)->0;
    UserInputView {
        start_date: if dates_swapped(form) {
            julian_of(second)
        } else {
            julian_of(first)
        },
        end_date: if dates_swapped(form) {
            julian_of(first)
        } else {
            julian_of(second)
        },
        statistics_employee_id_col: parse_col_spec(form.statistics_employee_id_col)->0,
        statistics_date_col: parse_col_spec(form.statistics_date_col)->0,
        statistics_enter_result_col: parse_col_spec(form.statistics_enter_result_col)->0,
        statistics_leave_result_col: parse_col_spec(form.statistics_leave_result_col)->0,
        statistics_work_minutes_col: parse_col_spec(form.statistics_work_minutes_col)->0,
        statistics_start_row: parse_row_spec(form.statistics_start_row)->0,
        record_employee_id_col: parse_col_spec(form.record_employee_id_col)->0,
        record_date_col: parse_col_spec(form.record_date_col)->0,
        record_abnormal_reason_col: parse_col_spec(form.record_abnormal_reason_col)->0,
        record_start_row: parse_row_spec(form.record_start_row)->0,
        template_cfg: Seq::new(
            form.template_configs.len(),
            |i: int| template_mapping_spec(form.template_configs[i]),
        ),
    }
}

/// The texts a column is shown with once it has been read: its letters.
pub open spec fn normal_col(text: Seq<char>) -> Seq<char> {
    column_letters(parse_col_spec(text)->0 as int)
}

/// The texts a row is shown with once it has been read: its number.
pub open spec fn normal_row(text: Seq<char>) -> Seq<char> {
    decimal_text(parse_row_spec(text)->0 as nat)
}

/// A valid form as it is shown again: the dates in order, every column as
/// its letters and every row as its number.
pub open spec fn normalized_form(form: FormInputView) -> FormInputView {
    FormInputView {
        start_date: if dates_swapped(form) {
            form.end_date
        } else {
            form.start_date
        },
        end_date: if dates_swapped(form) {
            form.start_date
        } else {
            form.end_date
        },
        statistics_employee_id_col: normal_col(form.statistics_employee_id_col),
        statistics_date_col: normal_col(form.statistics_date_col),
        statistics_enter_result_col: normal_col(form.statistics_enter_result_col),
        statistics_leave_result_col: normal_col(form.statistics_leave_result_col),
        statistics_work_minutes_col: normal_col(form.statistics_work_minutes_col),
        statistics_start_row: normal_row(form.statistics_start_row),
        record_employee_id_col: normal_col(form.record_employee_id_col),
        record_date_col: normal_col(form.record_date_col),
        record_abnormal_reason_col: normal_col(form.record_abnormal_reason_col),
        record_start_row: normal_row(form.record_start_row),
        template_configs: Seq::new(
            form.template_configs.len(),
            |i: int| template_form_spec(template_mapping_spec(form.template_configs[i])),
        ),
    }
}

/// A column that was read is shown as the first three letters of what the
/// user typed, in upper case.
pub proof fn lemma_normal_col(text: Seq<char>)
    requires
        parse_col_spec(text) is Some,
    ensures
        normal_col(text) == leading_letters(text, 3),
{
    lemma_leading_letters_shape(text, 3);
    lemma_column_number_letters(leading_letters(text, 3));
    crate::columns::lemma_column_number_range(leading_letters(text, 3));
}

/// A valid form with what it stands for and how it is shown again.
#[derive(Clone, Debug, PartialEq, Eq)]
pub struct ParsedInput {
    pub input: UserInput,
    pub form: FormInput,
}

/// Reads a column and gives it with its letters.
fn read_col(text: &str) -> (r: Option<(u32, String)>)
    ensures
        match r {
            Some((col, letters)) => parse_col_spec(text@) == Some(col) && letters@ == normal_col(
                text@,
            ) && is_column(col),
            None => parse_col_spec(text@) is None,
        },
{
    match parse_col(text) {
        Some(col) => Some((col, string_from_column_index(col))),
        None => None,
    }
}

/// Reads a row and gives it with its number as a text.
fn read_row(text: &str) -> (r: Option<(u32, String)>)
    ensures
        match r {
            Some((row, number)) => parse_row_spec(text@) == Some(row) && number@ == normal_row(
                text@,
            ) && row >= 1,
            None => parse_row_spec(text@) is None,
        },
{
    match parse_row(text) {
        Some(row) => Some((row, decimal_string(row))),
        None => None,
    }
}

/// Reads the texts of the template sheet `index`.
fn read_template(index: usize, form: &TemplateForm) -> (r: Result<
    (TemplateMapping, TemplateForm),
    InputError,
>)
    ensures
        match r {
            Ok(read) => template_error(index as int, form@) is None && read.0
                == template_mapping_spec(form@) && read.1@ == template_form_spec(read.0)
                && read.0.wf(),
            Err(error) => template_error(index as int, form@) == Some(error),
        },
{
    let (employee_id_col, employee_id_text) = match read_col(form.employee_id_col.as_str()) {
        Some(c) => c,
        None => { return Err(InputError::TemplateEmployeeIdCol { sheet: index }); },
    };
    let (date_block_start_col, start_text) = match read_col(form.start_col.as_str()) {
        Some(c) => c,
        None => { return Err(InputError::TemplateStartCol { sheet: index }); },
    };
    let (title_row, title_text) = match read_row(form.title_row.as_str()) {
        Some(c) => c,
        None => { return Err(InputError::TemplateTitleRow { sheet: index }); },
    };
    let mapping = TemplateMapping { employee_id_col, date_block_start_col, title_row };
    let shown = TemplateForm {
        employee_id_col: employee_id_text,
        start_col: start_text,
        title_row: title_text,
    };
    Ok((mapping, shown))
}

/// Validates a form, the texts of its template sheets included. A form
/// with an invalid field is rejected as a whole, with the first such field,
/// and gives no configuration; a valid one gives the configuration it
/// stands for and the form as it is to be shown again.
pub fn parse_input(form: &FormInput) -> (r: Result<ParsedInput, InputError>)
    ensures
        match r {
            Ok(parsed) => first_error(form@) is None && parsed.input@ == parsed_input(form@)
                && parsed.form@ == normalized_form(form@) && parsed.input@.wf() && renderable(
                parsed.input@,
            ) && rendered_form(parsed.input@) == parsed.form@,
            Err(error) => first_error(form@) == Some(error),
        },
{
    let first = match parse_long_date(form.start_date.as_str()) {
        Some(date) => date,
        None => { return Err(InputError::StartDate); },
    };
    let second = match parse_long_date(form.end_date.as_str()) {
        Some(date) => date,
        None => { return Err(InputError::EndDate); },
    };
    let (statistics_employee_id_col, statistics_employee_id_text) = match read_col(
        form.statistics_employee_id_col.as_str(),
    ) {
        Some(c) => c,
        None => { return Err(InputError::StatisticsEmployeeIdCol); },
    };
    let (statistics_date_col, statistics_date_text) = match read_col(
        form.statistics_date_col.as_str(),
    ) {
        Some(c) => c,
        None => { return Err(InputError::StatisticsDateCol); },
    };
    let (statistics_enter_result_col, statistics_enter_result_text) = match read_col(
        form.statistics_enter_result_col.as_str(),
    ) {
        Some(c) => c,
        None => { return Err(InputError::StatisticsEnterResultCol); },
    };
    let (statistics_leave_result_col, statistics_leave_result_text) = match read_col(
        form.statistics_leave_result_col.as_str(),
    ) {
        Some(c) => c,
        None => { return Err(InputError::StatisticsLeaveResultCol); },
    };
    let (statistics_work_minutes_col, statistics_work_minutes_text) = match read_col(
        form.statistics_work_minutes_col.as_str(),
    ) {
        Some(c) => c,
        None => { return Err(InputError::StatisticsWorkMinutesCol); },
    };
    let (statistics_start_row, statistics_start_row_text) = match read_row(
        form.statistics_start_row.as_str(),
    ) {
        Some(c) => c,
        None => { return Err(InputError::StatisticsStartRow); },
    };
    let (record_employee_id_col, record_employee_id_text) = match read_col(
        form.record_employee_id_col.as_str(),
    ) {
        Some(c) => c,
        None => { return Err(InputError::RecordEmployeeIdCol); },
    };
    let (record_date_col, record_date_text) = match read_col(form.record_date_col.as_str()) {
        Some(c) => c,
        None => { return Err(InputError::RecordDateCol); },
    };
    let (record_abnormal_reason_col, record_abnormal_reason_text) = match read_col(
        form.record_abnormal_reason_col.as_str(),
    ) {
        Some(c) => c,
        None => { return Err(InputError::RecordAbnormalReasonCol); },
    };
    let (record_start_row, record_start_row_text) = match read_row(
        form.record_start_row.as_str(),
    ) {
        Some(c) => c,
        None => { return Err(InputError::RecordStartRow); },
    };

    let mut template_cfg: Vec<TemplateMapping> = Vec::new();
    let mut template_configs: Vec<TemplateForm> = Vec::new();
    let ghost templates = form@.template_configs;
    let mut i: usize = 0;
    while i < form.template_configs.len()
        invariant
            i <= form.template_configs.len(),
            templates == form@.template_configs,
            templates.len() == form.template_configs@.len(),
            first_error(form@) == first_template_error(templates, 0),
            first_template_error(templates, 0) == first_template_error(templates, i as int),
            template_cfg@.len() == i,
            template_configs@.len() == i,
            forall|k: int| 0 <= k < i ==> (#[trigger] template_cfg@[k]).wf(),
            forall|k: int|
                0 <= k < i ==> #[trigger] template_cfg@[k] == template_mapping_spec(templates[k]),
            forall|k: int|
                0 <= k < i ==> (#[trigger] template_configs@[k])@ == template_form_spec(
                    template_mapping_spec(templates[k]),
                ),
        decreases form.template_configs.len() - i,
    {
        assert(templates[i as int] == form.template_configs@[i as int]@);
        match read_template(i, &form.template_configs[i]) {
            Ok(read) => {
                template_cfg.push(read.0);
                template_configs.push(read.1);
            },
            Err(error) => {
                return Err(error);
            },
        }
        i += 1;
    }

    let start_julian = first.to_julian_day();
    let end_julian = second.to_julian_day();
    let swapped = start_julian > end_julian;
    let input = UserInput {
        start_date: if swapped {
            end_julian
        } else {
            start_julian
        },
        end_date: if swapped {
            start_julian
        } else {
            end_julian
        },
        statistics_employee_id_col,
        statistics_date_col,
        statistics_enter_result_col,
        statistics_leave_result_col,
        statistics_work_minutes_col,
        statistics_start_row,
        record_employee_id_col,
        record_date_col,
        record_abnormal_reason_col,
        record_start_row,
        template_cfg,
    };
    let shown = FormInput {
        start_date: if swapped {
            form.end_date.clone()
        } else {
            form.start_date.clone()
        },
        end_date: if swapped {
            form.start_date.clone()
        } else {
            form.end_date.clone()
        },
        statistics_employee_id_col: statistics_employee_id_text,
        statistics_date_col: statistics_date_text,
        statistics_enter_result_col: statistics_enter_result_text,
        statistics_leave_result_col: statistics_leave_result_text,
        statistics_work_minutes_col: statistics_work_minutes_text,
        statistics_start_row: statistics_start_row_text,
        record_employee_id_col: record_employee_id_text,
        record_date_col: record_date_text,
        record_abnormal_reason_col: record_abnormal_reason_text,
        record_start_row: record_start_row_text,
        template_configs,
    };
    proof {
        lemma_long_date_text(form@.start_date);
        lemma_long_date_text(form@.end_date);
        assert(form@.template_configs.len() == form.template_configs@.len());
        assert(input@.template_cfg =~= parsed_input(form@).template_cfg);
        assert forall|k: int| 0 <= k < input@.template_cfg.len() implies (
        #[trigger] input@.template_cfg[k]).wf() by {
            assert(template_cfg@[k].wf());
        }
        assert(shown@.template_configs =~= normalized_form(form@).template_configs);
    }
    proof {
        assert(templates_renderable(input@.template_cfg)) by {
            assert forall|k: int| 0 <= k < input@.template_cfg.len() implies (
            #[trigger] input@.template_cfg[k]).employee_id_col >= 1 && input@.template_cfg[k].date_block_start_col
                >= 1 by {
                assert(input@.template_cfg[k].wf());
            }
        }
        assert(rendered_form(input@).template_configs =~= shown@.template_configs);
    }
    Ok(ParsedInput { input, form: shown })
}

/// The `YYYY-MM-DD` form of the date with a Julian day number, where the
/// ledger has a date for it.
pub open spec fn long_date_string_spec(julian_day: int) -> Option<Seq<char>> {
    match date_of_day(julian_day) {
        Some(date) => Some(long_text(date)),
        None => None,
    }
}

/// Writes the date with a Julian day number as `YYYY-MM-DD`.
pub fn long_date_string(date: i32) -> (r: Option<String>)
    ensures
        match r {
            Some(text) => long_date_string_spec(date as int) == Some(text@),
            None => long_date_string_spec(date as int) is None,
        },
        r is Some ==> date_of_day(date as int)->0.wf() && julian_of(date_of_day(date as int)->0)
            == date,
{
    match CalendarDate::from_julian_day(date) {
        Some(d) => Some(d.long_form()),
        None => None,
    }
}

/// Every template mapping names its columns from 1.
pub open spec fn templates_renderable(mappings: Seq<TemplateMapping>) -> bool {
    forall|i: int|
        0 <= i < mappings.len() ==> (#[trigger] mappings[i]).employee_id_col >= 1
            && mappings[i].date_block_start_col >= 1
}

/// A configuration can be shown if its dates are dates of the ledger and
/// its columns are counted from 1.
pub open spec fn renderable(input: UserInputView) -> bool {
    &&& date_of_day(input.start_date) is Some
    &&& date_of_day(input.end_date) is Some
    &&& input.statistics_employee_id_col >= 1
    &&& input.statistics_date_col >= 1
    &&& input.statistics_enter_result_col >= 1
    &&& input.statistics_leave_result_col >= 1
    &&& input.statistics_work_minutes_col >= 1
    &&& input.record_employee_id_col >= 1
    &&& input.record_date_col >= 1
    &&& input.record_abnormal_reason_col >= 1
    &&& templates_renderable(input.template_cfg)
}

/// A configuration as texts: dates as `YYYY-MM-DD`, columns as letters,
/// rows as numbers.
pub open spec fn rendered_form(input: UserInputView) -> FormInputView {
    FormInputView {
        start_date: long_text(date_of_day(input.start_date)->0),
        end_date: long_text(date_of_day(input.end_date)->0),
        statistics_employee_id_col: column_letters(input.statistics_employee_id_col as int),
        statistics_date_col: column_letters(input.statistics_date_col as int),
        statistics_enter_result_col: column_letters(input.statistics_enter_result_col as int),
        statistics_leave_result_col: column_letters(input.statistics_leave_result_col as int),
        statistics_work_minutes_col: column_letters(input.statistics_work_minutes_col as int),
        statistics_start_row: decimal_text(input.statistics_start_row as nat),
        record_employee_id_col: column_letters(input.record_employee_id_col as int),
        record_date_col: column_letters(input.record_date_col as int),
        record_abnormal_reason_col: column_letters(input.record_abnormal_reason_col as int),
        record_start_row: decimal_text(input.record_start_row as nat),
        template_configs: Seq::new(
            input.template_cfg.len(),
            |i: int| template_form_spec(input.template_cfg[i]),
        ),
    }
}

/// Template sheets without an invalid field have no first invalid field.
pub proof fn lemma_templates_valid(templates: Seq<TemplateFormView>, from: int)
    requires
        0 <= from,
        forall|k: int| from <= k < templates.len() ==> template_error(k, #[trigger] templates[k]) is None,
    ensures
        first_template_error(templates, from) is None,
    decreases templates.len() - from,
{
    if from < templates.len() {
        assert(template_error(from, templates[from]) is None);
        lemma_templates_valid(templates, from + 1);
    }
}

/// A well-formed template mapping that is written as texts is read back as
/// itself.
pub proof fn lemma_template_round_trip(index: int, mapping: TemplateMapping)
    requires
        mapping.wf(),
    ensures
        template_error(index, template_form_spec(mapping)) is None,
        template_mapping_spec(template_form_spec(mapping)) == mapping,
{
    lemma_parse_column_letters(mapping.employee_id_col);
    lemma_parse_column_letters(mapping.date_block_start_col);
    lemma_parse_row_text(mapping.title_row);
}

/// A well-formed configuration that is written as texts is read back as
/// itself, as long as its dates are dates whose day numbers are theirs.
pub proof fn lemma_rendered_form_parses(input: UserInputView)
    requires
        input.wf(),
        renderable(input),
        date_of_day(input.start_date)->0.wf(),
        date_of_day(input.end_date)->0.wf(),
        julian_of(date_of_day(input.start_date)->0) == input.start_date,
        julian_of(date_of_day(input.end_date)->0) == input.end_date,
    ensures
        first_error(rendered_form(input)) is None,
        parsed_input(rendered_form(input)) == input,
{
    let form = rendered_form(input);
    lemma_long_text_round_trip(date_of_day(input.start_date)->0);
    lemma_long_text_round_trip(date_of_day(input.end_date)->0);
    lemma_parse_column_letters(input.statistics_employee_id_col);
    lemma_parse_column_letters(input.statistics_date_col);
    lemma_parse_column_letters(input.statistics_enter_result_col);
    lemma_parse_column_letters(input.statistics_leave_result_col);
    lemma_parse_column_letters(input.statistics_work_minutes_col);
    lemma_parse_row_text(input.statistics_start_row);
    lemma_parse_column_letters(input.record_employee_id_col);
    lemma_parse_column_letters(input.record_date_col);
    lemma_parse_column_letters(input.record_abnormal_reason_col);
    lemma_parse_row_text(input.record_start_row);
    assert forall|k: int| 0 <= k < form.template_configs.len() implies template_error(
        k,
        #[trigger] form.template_configs[k],
    ) is None && template_mapping_spec(form.template_configs[k]) == input.template_cfg[k] by {
        assert(input.template_cfg[k].wf());
        lemma_template_round_trip(k, input.template_cfg[k]);
    }
    lemma_templates_valid(form.template_configs, 0);
    assert(parsed_input(form).template_cfg =~= input.template_cfg);
}

/// Writes a column in letters, unless it is column 0.
fn show_col(col: u32) -> (r: Option<String>)
    ensures
        r is Some <==> col >= 1,
        r is Some ==> r->0@ == column_letters(col as int),
{
    if col >= 1 {
        Some(string_from_column_index(col))
    } else {
        None
    }
}

/// Writes a configuration as texts. There is no form for a configuration
/// with a date outside the ledger's calendar or with a column 0. The form
/// of a well-formed configuration is valid and stands for that
/// configuration.
pub fn render(input: &UserInput) -> (r: Option<FormInput>)
    ensures
        match r {
            Some(form) => renderable(input@) && form@ == rendered_form(input@),
            None => !renderable(input@),
        },
        r matches Some(form) ==> (input@.wf() ==> first_error(form@) is None && parsed_input(form@)
            == input@),
{
    let start_date = match long_date_string(input.start_date) {
        Some(text) => text,
        None => { return None; },
    };
    let end_date = match long_date_string(input.end_date) {
        Some(text) => text,
        None => { return None; },
    };
    let statistics_employee_id_col = match show_col(input.statistics_employee_id_col) {
        Some(text) => text,
        None => { return None; },
    };
    let statistics_date_col = match show_col(input.statistics_date_col) {
        Some(text) => text,
        None => { return None; },
    };
    let statistics_enter_result_col = match show_col(input.statistics_enter_result_col) {
        Some(text) => text,
        None => { return None; },
    };
    let statistics_leave_result_col = match show_col(input.statistics_leave_result_col) {
        Some(text) => text,
        None => { return None; },
    };
    let statistics_work_minutes_col = match show_col(input.statistics_work_minutes_col) {
        Some(text) => text,
        None => { return None; },
    };
    let record_employee_id_col = match show_col(input.record_employee_id_col) {
        Some(text) => text,
        None => { return None; },
    };
    let record_date_col = match show_col(input.record_date_col) {
        Some(text) => text,
        None => { return None; },
    };
    let record_abnormal_reason_col = match show_col(input.record_abnormal_reason_col) {
        Some(text) => text,
        None => { return None; },
    };
    let mut template_configs: Vec<TemplateForm> = Vec::new();
    let mut i: usize = 0;
    while i < input.template_cfg.len()
        invariant
            i <= input.template_cfg.len(),
            template_configs@.len() == i,
            templates_renderable(input.template_cfg@.subrange(0, i as int)),
            forall|k: int|
                0 <= k < i ==> (#[trigger] template_configs@[k])@ == template_form_spec(
                    input.template_cfg@[k],
                ),
        decreases input.template_cfg.len() - i,
    {
        let mapping = input.template_cfg[i];
        let employee_id_col = match show_col(mapping.employee_id_col) {
            Some(text) => text,
            None => {
                assert(!templates_renderable(input@.template_cfg));
                return None;
            },
        };
        let start_col = match show_col(mapping.date_block_start_col) {
            Some(text) => text,
            None => {
                assert(!templates_renderable(input@.template_cfg));
                return None;
            },
        };
        template_configs.push(
            TemplateForm { employee_id_col, start_col, title_row: decimal_string(mapping.title_row) },
        );
        proof {
            let before = input.template_cfg@.subrange(0, i as int);
            let after = input.template_cfg@.subrange(0, i + 1);
            assert forall|k: int| 0 <= k < after.len() implies (#[trigger] after[k]).employee_id_col
                >= 1 && after[k].date_block_start_col >= 1 by {
                if k < i {
                    assert(after[k] == before[k]);
                }
            }
        }
        i += 1;
    }
    assert(input.template_cfg@.subrange(0, i as int) =~= input@.template_cfg);
    let form = FormInput {
        start_date,
        end_date,
        statistics_employee_id_col,
        statistics_date_col,
        statistics_enter_result_col,
        statistics_leave_result_col,
        statistics_work_minutes_col,
        statistics_start_row: decimal_string(input.statistics_start_row),
        record_employee_id_col,
        record_date_col,
        record_abnormal_reason_col,
        record_start_row: decimal_string(input.record_start_row),
        template_configs,
    };
    assert(form@.template_configs =~= rendered_form(input@).template_configs);
    proof {
        if input@.wf() {
            lemma_rendered_form_parses(input@);
        }
    }
    Some(form)
}

/// The form that a run starts with: the stored configuration as texts, or,
/// where nothing is stored, the configuration of a first run on the day
/// with the Julian day number `today`.
pub fn init_input(stored: Option<UserInput>, today: i32) -> (r: Option<FormInput>)
    ensures
        match stored {
            Some(input) => match r {
                Some(form) => renderable(input@) && form@ == rendered_form(input@),
                None => !renderable(input@),
            },
            None => match r {
                Some(form) => renderable(default_input(today as int)) && form@ == rendered_form(
                    default_input(today as int),
                ),
                None => !renderable(default_input(today as int)),
            },
        },
{
    let input = match stored {
        Some(input) => input,
        None => UserInput::default_for(today),
    };
    render(&input)
}

} // verus!
