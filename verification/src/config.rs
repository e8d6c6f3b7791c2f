//! What a user has configured: the window of dates, where the columns of
//! the two source sheets stand, and where each sheet of the report template
//! takes its data. The configuration is kept between runs in a binary form.
//!
//! In that form every number takes four bytes, least significant first; the
//! template mappings follow their count.

use vstd::prelude::*;
use vstd::bytes::{
    lemma_auto_spec_u32_to_from_le_bytes, spec_u32_from_le_bytes, spec_u32_to_le_bytes,
    u32_from_le_bytes, u32_to_le_bytes,
};
use vstd::slice::slice_subrange;

verus! {

/// Where one sheet of the report template takes its data: the column of the
/// employee ids, the first column of the date blocks, and the row of the
/// headers.
#[derive(Clone, Copy, Debug, PartialEq, Eq, Structural)]
pub struct TemplateMapping {
    pub employee_id_col: u32,
    pub date_block_start_col: u32,
    pub title_row: u32,
}

/// A validated configuration. Dates are Julian day numbers; columns and
/// rows are counted from 1.
#[derive(Clone, Debug, PartialEq, Eq)]
pub struct UserInput {
    pub start_date: i32,
    pub end_date: i32,
    pub statistics_employee_id_col: u32,
    pub statistics_date_col: u32,
    pub statistics_enter_result_col: u32,
    pub statistics_leave_result_col: u32,
    pub statistics_work_minutes_col: u32,
    pub statistics_start_row: u32,
    pub record_employee_id_col: u32,
    pub record_date_col: u32,
    pub record_abnormal_reason_col: u32,
    pub record_start_row: u32,
    pub template_cfg: Vec<TemplateMapping>,
}

/// The mathematical value of a [`UserInput`].
pub ghost struct UserInputView {
    pub start_date: int,
    pub end_date: int,
    pub statistics_employee_id_col: u32,
    pub statistics_date_col: u32,
    pub statistics_enter_result_col: u32,
    pub statistics_leave_result_col: u32,
    pub statistics_work_minutes_col: u32,
    pub statistics_start_row: u32,
    pub record_employee_id_col: u32,
    pub record_date_col: u32,
    pub record_abnormal_reason_col: u32,
    pub record_start_row: u32,
    pub template_cfg: Seq<TemplateMapping>,
}

/// A column that up to three letters can name.
pub open spec fn is_column(col: u32) -> bool {
    1 <= col <= 18278
}

impl TemplateMapping {
    /// The columns are columns that letters can name, and the header row is
    /// a row.
    pub open spec fn wf(&self) -> bool {
        &&& is_column(self.employee_id_col)
        &&& is_column(self.date_block_start_col)
        &&& self.title_row >= 1
    }
}

impl UserInputView {
    /// The window starts no later than it ends, every column is a column
    /// that letters can name, and every row is counted from 1.
    pub open spec fn wf(&self) -> bool {
        &&& self.start_date <= self.end_date
        &&& is_column(self.statistics_employee_id_col)
        &&& is_column(self.statistics_date_col)
        &&& is_column(self.statistics_enter_result_col)
        &&& is_column(self.statistics_leave_result_col)
        &&& is_column(self.statistics_work_minutes_col)
        &&& self.statistics_start_row >= 1
        &&& is_column(self.record_employee_id_col)
        &&& is_column(self.record_date_col)
        &&& is_column(self.record_abnormal_reason_col)
        &&& self.record_start_row >= 1
        &&& forall|i: int| 0 <= i < self.template_cfg.len() ==> (#[trigger] self.template_cfg[i]).wf()
    }
}

impl View for UserInput {
    type V = UserInputView;

    open spec fn view(&self) -> UserInputView {
        UserInputView {
            start_date: self.start_date as int,
            end_date: self.end_date as int,
            statistics_employee_id_col: self.statistics_employee_id_col,
            statistics_date_col: self.statistics_date_col,
            statistics_enter_result_col: self.statistics_enter_result_col,
            statistics_leave_result_col: self.statistics_leave_result_col,
            statistics_work_minutes_col: self.statistics_work_minutes_col,
            statistics_start_row: self.statistics_start_row,
            record_employee_id_col: self.record_employee_id_col,
            record_date_col: self.record_date_col,
            record_abnormal_reason_col: self.record_abnormal_reason_col,
            record_start_row: self.record_start_row,
            template_cfg: self.template_cfg@,
        }
    }
}

/// How many days after the last Sunday a Julian day number lies: 0 for a
/// Sunday, 1 for a Monday, up to 6 for a Saturday.
pub open spec fn days_from_sunday(julian_day: int) -> int {
    (julian_day + 1) % 7
}

/// A day count that fits a 32-bit number, the smallest one taken for those
/// below it.
pub open spec fn at_least_min(day: int) -> int {
    if day < i32::MIN {
        i32::MIN as int
    } else {
        day
    }
}

/// The mappings of the three sheets of the usual template.
pub open spec fn default_templates() -> Seq<TemplateMapping> {
    seq![
        TemplateMapping { employee_id_col: 1, date_block_start_col: 7, title_row: 2 },
        TemplateMapping { employee_id_col: 4, date_block_start_col: 9, title_row: 2 },
        TemplateMapping { employee_id_col: 4, date_block_start_col: 9, title_row: 2 },
    ]
}

/// The configuration of a first run on the day `today`: the window is the
/// Monday to Friday that ended with the last Friday more than a day ago,
/// and the columns are those of the usual sheets.
pub open spec fn default_input(today: int) -> UserInputView {
    let last_friday = today - (days_from_sunday(today) + 2);
    UserInputView {
        start_date: at_least_min(last_friday - 4),
        end_date: at_least_min(last_friday),
        statistics_employee_id_col: 4,
        statistics_date_col: 7,
        statistics_enter_result_col: 10,
        statistics_leave_result_col: 12,
        statistics_work_minutes_col: 20,
        statistics_start_row: 5,
        record_employee_id_col: 4,
        record_date_col: 7,
        record_abnormal_reason_col: 14,
        record_start_row: 4,
        template_cfg: default_templates(),
    }
}

impl UserInput {
    /// A copy of the configuration.
    pub fn duplicate(&self) -> (r: UserInput)
        ensures
            r@ == self@,
    {
        let mut template_cfg: Vec<TemplateMapping> = Vec::new();
        let mut i: usize = 0;
        while i < self.template_cfg.len()
            invariant
                i <= self.template_cfg.len(),
                template_cfg@ == self.template_cfg@.subrange(0, i as int),
            decreases self.template_cfg.len() - i,
        {
            template_cfg.push(self.template_cfg[i]);
            i += 1;
            assert(template_cfg@ =~= self.template_cfg@.subrange(0, i as int));
        }
        assert(template_cfg@ =~= self.template_cfg@);
        UserInput {
            start_date: self.start_date,
            end_date: self.end_date,
            statistics_employee_id_col: self.statistics_employee_id_col,
            statistics_date_col: self.statistics_date_col,
            statistics_enter_result_col: self.statistics_enter_result_col,
            statistics_leave_result_col: self.statistics_leave_result_col,
            statistics_work_minutes_col: self.statistics_work_minutes_col,
            statistics_start_row: self.statistics_start_row,
            record_employee_id_col: self.record_employee_id_col,
            record_date_col: self.record_date_col,
            record_abnormal_reason_col: self.record_abnormal_reason_col,
            record_start_row: self.record_start_row,
            template_cfg,
        }
    }

    /// The configuration of a first run on the day with the Julian day
    /// number `today`.
    pub fn default_for(today: i32) -> (r: UserInput)
        ensures
            r@ == default_input(today as int),
            r@.wf(),
    {
        let shifted: i64 = today as i64 + 1 + 2_147_483_653;
        assert(2_147_483_653int == 7 * 306_783_379);
        let weekday: i64 = shifted % 7;
        let last_friday: i64 = today as i64 - (weekday + 2);
        let last_monday: i64 = last_friday - 4;
        let start_date: i32 = if last_monday < -2_147_483_648 {
            -2_147_483_648
        } else {
            last_monday as i32
        };
        let end_date: i32 = if last_friday < -2_147_483_648 {
            -2_147_483_648
        } else {
            last_friday as i32
        };
        let template_cfg = vec![
            TemplateMapping { employee_id_col: 1, date_block_start_col: 7, title_row: 2 },
            TemplateMapping { employee_id_col: 4, date_block_start_col: 9, title_row: 2 },
            TemplateMapping { employee_id_col: 4, date_block_start_col: 9, title_row: 2 },
        ];
        assert(template_cfg@ =~= default_templates());
        UserInput {
            start_date,
            end_date,
            statistics_employee_id_col: 4,
            statistics_date_col: 7,
            statistics_enter_result_col: 10,
            statistics_leave_result_col: 12,
            statistics_work_minutes_col: 20,
            statistics_start_row: 5,
            record_employee_id_col: 4,
            record_date_col: 7,
            record_abnormal_reason_col: 14,
            record_start_row: 4,
            template_cfg,
        }
    }
}

// ---------------------------------------------------------------------------
// The stored form
// ---------------------------------------------------------------------------

/// A signed 32-bit number as the unsigned number with the same bits.
pub open spec fn wrap_u32(x: int) -> u32 {
    if x >= 0 {
        x as u32
    } else {
        (x + 0x1_0000_0000) as u32
    }
}

/// The signed 32-bit number with the bits of `x`.
pub open spec fn unwrap_i32(x: u32) -> int {
    if x <= 0x7fff_ffff {
        x as int
    } else {
        x - 0x1_0000_0000
    }
}

/// The bytes of a sequence of numbers, four for each, least significant
/// first.
pub open spec fn words_bytes(words: Seq<u32>) -> Seq<u8>
    decreases words.len(),
{
    if words.len() == 0 {
        Seq::<u8>::empty()
    } else {
        words_bytes(words.drop_last()) + spec_u32_to_le_bytes(words.last())
    }
}

/// The number stored in the four bytes from `4 * index` on.
pub open spec fn word_at(bytes: Seq<u8>, index: int) -> u32 {
    spec_u32_from_le_bytes(bytes.subrange(4 * index, 4 * index + 4))
}

/// One of the three numbers of a template mapping.
pub open spec fn mapping_word(mapping: TemplateMapping, part: int) -> u32 {
    if part == 0 {
        mapping.employee_id_col
    } else if part == 1 {
        mapping.date_block_start_col
    } else {
        mapping.title_row
    }
}

/// The numbers of a configuration in the order in which they are stored:
/// the two dates, the ten columns and rows of the source sheets, the count
/// of the template mappings, and the three numbers of each mapping.
#[verifier::opaque]
pub open spec fn input_words(input: UserInputView) -> Seq<u32> {
    seq![
        wrap_u32(input.start_date),
        wrap_u32(input.end_date),
        input.statistics_employee_id_col,
        input.statistics_date_col,
        input.statistics_enter_result_col,
        input.statistics_leave_result_col,
        input.statistics_work_minutes_col,
        input.statistics_start_row,
        input.record_employee_id_col,
        input.record_date_col,
        input.record_abnormal_reason_col,
        input.record_start_row,
        input.template_cfg.len() as u32,
    ] + Seq::new(
        3 * input.template_cfg.len(),
        |j: int| mapping_word(input.template_cfg[j / 3], j % 3),
    )
}

/// A configuration can be stored if its dates fit 32 bits and the count of
/// its mappings does.
pub open spec fn storable(input: UserInputView) -> bool {
    &&& i32::MIN <= input.start_date <= i32::MAX
    &&& i32::MIN <= input.end_date <= i32::MAX
    &&& input.template_cfg.len() <= u32::MAX
}

/// The stored form of a configuration.
pub open spec fn input_bytes(input: UserInputView) -> Seq<u8> {
    words_bytes(input_words(input))
}

/// The configuration that `bytes` store, if they store one. Bytes behind
/// it are ignored.
pub open spec fn decode_input_spec(bytes: Seq<u8>) -> Option<UserInputView> {
    if bytes.len() >= 52 && bytes.len() >= 52 + 12 * word_at(bytes, 12) {
        Some(
            UserInputView {
                start_date: unwrap_i32(word_at(bytes, 0)),
                end_date: unwrap_i32(word_at(bytes, 1)),
                statistics_employee_id_col: word_at(bytes, 2),
                statistics_date_col: word_at(bytes, 3),
                statistics_enter_result_col: word_at(bytes, 4),
                statistics_leave_result_col: word_at(bytes, 5),
                statistics_work_minutes_col: word_at(bytes, 6),
                statistics_start_row: word_at(bytes, 7),
                record_employee_id_col: word_at(bytes, 8),
                record_date_col: word_at(bytes, 9),
                record_abnormal_reason_col: word_at(bytes, 10),
                record_start_row: word_at(bytes, 11),
                template_cfg: Seq::new(
                    word_at(bytes, 12) as nat,
                    |i: int|
                        TemplateMapping {
                            employee_id_col: word_at(bytes, 13 + 3 * i),
                            date_block_start_col: word_at(bytes, 14 + 3 * i),
                            title_row: word_at(bytes, 15 + 3 * i),
                        },
                ),
            },
        )
    } else {
        None
    }
}

/// The stored numbers stand four bytes apart.
pub proof fn lemma_words_bytes_len(words: Seq<u32>)
    ensures
        words_bytes(words).len() == 4 * words.len(),
    decreases words.len(),
{
    lemma_auto_spec_u32_to_from_le_bytes();
    if words.len() > 0 {
        lemma_words_bytes_len(words.drop_last());
    }
}

/// A stored number is read back as it was.
pub proof fn lemma_word_at(words: Seq<u32>, i: int)
    requires
        0 <= i < words.len(),
    ensures
        word_at(words_bytes(words), i) == words[i],
    decreases words.len(),
{
    lemma_auto_spec_u32_to_from_le_bytes();
    let front = words.drop_last();
    lemma_words_bytes_len(front);
    let all = words_bytes(words);
    if i < front.len() {
        lemma_word_at(front, i);
        assert(all.subrange(4 * i, 4 * i + 4) =~= words_bytes(front).subrange(4 * i, 4 * i + 4));
    } else {
        assert(all.subrange(4 * i, 4 * i + 4) =~= spec_u32_to_le_bytes(words.last()));
    }
}

/// Where each number of a configuration stands among its stored numbers.
proof fn lemma_input_words(input: UserInputView)
    ensures
        input_words(input).len() == 13 + 3 * input.template_cfg.len(),
        input_words(input)[0] == wrap_u32(input.start_date),
        input_words(input)[1] == wrap_u32(input.end_date),
        input_words(input)[2] == input.statistics_employee_id_col,
        input_words(input)[3] == input.statistics_date_col,
        input_words(input)[4] == input.statistics_enter_result_col,
        input_words(input)[5] == input.statistics_leave_result_col,
        input_words(input)[6] == input.statistics_work_minutes_col,
        input_words(input)[7] == input.statistics_start_row,
        input_words(input)[8] == input.record_employee_id_col,
        input_words(input)[9] == input.record_date_col,
        input_words(input)[10] == input.record_abnormal_reason_col,
        input_words(input)[11] == input.record_start_row,
        input_words(input)[12] == input.template_cfg.len() as u32,
        forall|i: int|
            0 <= i < input.template_cfg.len() ==> {
                &&& input_words(input)[13 + 3 * i] == (#[trigger] input.template_cfg[i]).employee_id_col
                &&& input_words(input)[14 + 3 * i] == input.template_cfg[i].date_block_start_col
                &&& input_words(input)[15 + 3 * i] == input.template_cfg[i].title_row
            },
{
    reveal(input_words);
    assert forall|i: int| 0 <= i < input.template_cfg.len() implies {
        &&& input_words(input)[13 + 3 * i] == (#[trigger] input.template_cfg[i]).employee_id_col
        &&& input_words(input)[14 + 3 * i] == input.template_cfg[i].date_block_start_col
        &&& input_words(input)[15 + 3 * i] == input.template_cfg[i].title_row
    } by {
        assert((3 * i) / 3 == i && (3 * i) % 3 == 0);
        assert((3 * i + 1) / 3 == i && (3 * i + 1) % 3 == 1);
        assert((3 * i + 2) / 3 == i && (3 * i + 2) % 3 == 2);
    }
}

/// A stored configuration is read back as itself.
pub proof fn lemma_decode_input(input: UserInputView)
    requires
        storable(input),
    ensures
        decode_input_spec(input_bytes(input)) == Some(input),
{
    let words = input_words(input);
    let bytes = input_bytes(input);
    let n = input.template_cfg.len() as int;
    lemma_input_words(input);
    lemma_words_bytes_len(words);
    lemma_word_at(words, 0);
    lemma_word_at(words, 1);
    lemma_word_at(words, 2);
    lemma_word_at(words, 3);
    lemma_word_at(words, 4);
    lemma_word_at(words, 5);
    lemma_word_at(words, 6);
    lemma_word_at(words, 7);
    lemma_word_at(words, 8);
    lemma_word_at(words, 9);
    lemma_word_at(words, 10);
    lemma_word_at(words, 11);
    lemma_word_at(words, 12);
    assert(word_at(bytes, 12) == n);
    assert(bytes.len() == 52 + 12 * n);
    let decoded = decode_input_spec(bytes)->0;
    assert(decoded.template_cfg.len() == n);
    assert forall|i: int| 0 <= i < n implies decoded.template_cfg[i] == input.template_cfg[i] by {
        lemma_word_at(words, 13 + 3 * i);
        lemma_word_at(words, 14 + 3 * i);
        lemma_word_at(words, 15 + 3 * i);
        let t = input.template_cfg[i];
        assert(words[13 + 3 * i] == t.employee_id_col);
    }
    assert(decoded.template_cfg =~= input.template_cfg);
}

/// Appends the four bytes of a number.
fn push_word(out: &mut Vec<u8>, word: u32, Ghost(words): Ghost<Seq<u32>>)
    requires
        old(out)@ == words_bytes(words),
    ensures
        final(out)@ == words_bytes(words.push(word)),
{
    let mut bytes = u32_to_le_bytes(word);
    out.append(&mut bytes);
    assert(words.push(word).drop_last() =~= words);
}

/// The number stored in the four bytes from `4 * index` on.
fn read_word(bytes: &[u8], index: usize) -> (word: u32)
    requires
        4 * index + 4 <= bytes@.len(),
    ensures
        word == word_at(bytes@, index as int),
{
    let len = bytes.len();
    u32_from_le_bytes(slice_subrange(bytes, 4 * index, 4 * index + 4))
}

/// The unsigned number with the bits of `x`.
fn bits_of(x: i32) -> (r: u32)
    ensures
        r == wrap_u32(x as int),
{
    if x >= 0 {
        x as u32
    } else {
        ((x as i64) + 0x1_0000_0000) as u32
    }
}

/// The signed number with the bits of `x`.
fn signed_of(x: u32) -> (r: i32)
    ensures
        r == unwrap_i32(x),
{
    if x <= 0x7fff_ffff {
        x as i32
    } else {
        ((x as i64) - 0x1_0000_0000) as i32
    }
}

impl UserInput {
    /// The stored form of the configuration. There is none where it has
    /// more template mappings than the form can count.
    pub fn encode(&self) -> (r: Option<Vec<u8>>)
        ensures
            r is Some <==> storable(self@),
            r is Some ==> r->0@ == input_bytes(self@),
    {
        let n = self.template_cfg.len();
        if n > 0xffff_ffff {
            return None;
        }
        let mut out: Vec<u8> = Vec::new();
        let ghost mut words: Seq<u32> = Seq::empty();
        push_word(&mut out, bits_of(self.start_date), Ghost(words));
        proof { words = words.push(wrap_u32(self.start_date as int)); }
        push_word(&mut out, bits_of(self.end_date), Ghost(words));
        proof { words = words.push(wrap_u32(self.end_date as int)); }
        push_word(&mut out, self.statistics_employee_id_col, Ghost(words));
        proof { words = words.push(self.statistics_employee_id_col); }
        push_word(&mut out, self.statistics_date_col, Ghost(words));
        proof { words = words.push(self.statistics_date_col); }
        push_word(&mut out, self.statistics_enter_result_col, Ghost(words));
        proof { words = words.push(self.statistics_enter_result_col); }
        push_word(&mut out, self.statistics_leave_result_col, Ghost(words));
        proof { words = words.push(self.statistics_leave_result_col); }
        push_word(&mut out, self.statistics_work_minutes_col, Ghost(words));
        proof { words = words.push(self.statistics_work_minutes_col); }
        push_word(&mut out, self.statistics_start_row, Ghost(words));
        proof { words = words.push(self.statistics_start_row); }
        push_word(&mut out, self.record_employee_id_col, Ghost(words));
        proof { words = words.push(self.record_employee_id_col); }
        push_word(&mut out, self.record_date_col, Ghost(words));
        proof { words = words.push(self.record_date_col); }
        push_word(&mut out, self.record_abnormal_reason_col, Ghost(words));
        proof { words = words.push(self.record_abnormal_reason_col); }
        push_word(&mut out, self.record_start_row, Ghost(words));
        proof { words = words.push(self.record_start_row); }
        push_word(&mut out, n as u32, Ghost(words));
        proof { words = words.push(n as u32); }
        let ghost all = input_words(self@);
        proof {
            lemma_input_words(self@);
        }
        assert(words =~= all.subrange(0, 13));
        let mut i: usize = 0;
        while i < n
            invariant
                i <= n,
                n == self.template_cfg@.len(),
                n <= 0xffff_ffff,
                all == input_words(self@),
                all.len() == 13 + 3 * n,
                out@ == words_bytes(words),
                words == all.subrange(0, 13 + 3 * i),
            decreases n - i,
        {
            let mapping = self.template_cfg[i];
            proof {
                lemma_input_words(self@);
                assert(mapping == self@.template_cfg[i as int]);
            }
            push_word(&mut out, mapping.employee_id_col, Ghost(words));
            proof { words = words.push(mapping.employee_id_col); }
            push_word(&mut out, mapping.date_block_start_col, Ghost(words));
            proof { words = words.push(mapping.date_block_start_col); }
            push_word(&mut out, mapping.title_row, Ghost(words));
            proof { words = words.push(mapping.title_row); }
            i += 1;
            assert(words =~= all.subrange(0, 13 + 3 * i));
        }
        proof {
            lemma_input_words(self@);
        }
        assert(words =~= all);
        Some(out)
    }

    /// The configuration that `bytes` store, if they store one.
    pub fn decode(bytes: &[u8]) -> (r: Option<UserInput>)
        ensures
            match r {
                Some(input) => decode_input_spec(bytes@) == Some(input@),
                None => decode_input_spec(bytes@) is None,
            },
    {
        let len = bytes.len();
        if len < 52 {
            return None;
        }
        let count = read_word(bytes, 12);
        if (((len - 52) / 12) as u64) < (count as u64) {
            return None;
        }
        let n: usize = count as usize;
        let mut template_cfg: Vec<TemplateMapping> = Vec::new();
        let mut i: usize = 0;
        while i < n
            invariant
                i <= n,
                len == bytes@.len(),
                52 + 12 * n <= len,
                template_cfg@.len() == i,
                forall|k: int|
                    0 <= k < i ==> #[trigger] template_cfg@[k] == (TemplateMapping {
                        employee_id_col: word_at(bytes@, 13 + 3 * k),
                        date_block_start_col: word_at(bytes@, 14 + 3 * k),
                        title_row: word_at(bytes@, 15 + 3 * k),
                    }),
            decreases n - i,
        {
            let mapping = TemplateMapping {
                employee_id_col: read_word(bytes, 13 + 3 * i),
                date_block_start_col: read_word(bytes, 14 + 3 * i),
                title_row: read_word(bytes, 15 + 3 * i),
            };
            template_cfg.push(mapping);
            i += 1;
        }
        let input = UserInput {
            start_date: signed_of(read_word(bytes, 0)),
            end_date: signed_of(read_word(bytes, 1)),
            statistics_employee_id_col: read_word(bytes, 2),
            statistics_date_col: read_word(bytes, 3),
            statistics_enter_result_col: read_word(bytes, 4),
            statistics_leave_result_col: read_word(bytes, 5),
            statistics_work_minutes_col: read_word(bytes, 6),
            statistics_start_row: read_word(bytes, 7),
            record_employee_id_col: read_word(bytes, 8),
            record_date_col: read_word(bytes, 9),
            record_abnormal_reason_col: read_word(bytes, 10),
            record_start_row: read_word(bytes, 11),
            template_cfg,
        };
        assert(input@.template_cfg =~= decode_input_spec(bytes@)->0.template_cfg);
        Some(input)
    }
}

} // verus!
