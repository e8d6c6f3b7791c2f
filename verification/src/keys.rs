//! The keys of the ledger. The record of an employee on a date is kept
//! under the date as `YYYY-MM-DD`, an underscore, and the employee's id, in
//! UTF-8.
//!
//! The date part has a fixed width, so the keys of one date are exactly the
//! keys that start with that date and the underscore: a scan of `2024-01-02`
//! cannot reach a record of `2024-01-20`.

use vstd::prelude::*;
use vstd::slice::slice_to_vec;
use vstd::utf8::{
    encode_utf8, encode_utf8_decode_utf8, is_ascii_chars, is_ascii_chars_encode_utf8,
};
use crate::dates::{long_text, CalendarDate};
use crate::text::{
    chars_of, digit_char, is_digit, is_trimmed, lemma_padded_text_shape, lemma_trim_is_trimmed,
    padded_text, pow10, string_of, trim, trim_text,
};

verus! {

/// The last `width` decimal digits of `n` as ASCII bytes, padded with
/// zeros on the left.
pub open spec fn padded_bytes(n: nat, width: nat) -> Seq<u8>
    decreases width,
{
    if width == 0 {
        Seq::<u8>::empty()
    } else {
        padded_bytes(n / 10, (width - 1) as nat).push((48 + n % 10) as u8)
    }
}

/// The number that ASCII digits write, most significant first.
pub open spec fn digits_number(bytes: Seq<u8>) -> int
    decreases bytes.len(),
{
    if bytes.len() == 0 {
        0
    } else {
        digits_number(bytes.drop_last()) * 10 + (bytes.last() - 48)
    }
}

/// What the key of every record of a date starts with: the date as
/// `YYYY-MM-DD` in ASCII, and an underscore. It is eleven bytes long
/// whatever the date.
pub open spec fn date_prefix(date: CalendarDate) -> Seq<u8> {
    padded_bytes(date.year as nat, 4) + seq![0x2du8] + padded_bytes(date.month as nat, 2)
        + seq![0x2du8] + padded_bytes(date.day as nat, 2) + seq![0x5fu8]
}

/// The key of the record of an employee on a date, as a text: the date as
/// `YYYY-MM-DD`, an underscore, and the employee's id.
pub open spec fn key_text(date: CalendarDate, employee_id: Seq<char>) -> Seq<char> {
    long_text(date) + seq!['_'] + employee_id
}

/// The key of the record of an employee on a date: the prefix of the date,
/// followed by the id in UTF-8. It is the UTF-8 form of [`key_text`].
pub open spec fn record_key(date: CalendarDate, employee_id: Seq<char>) -> Seq<u8> {
    date_prefix(date) + encode_utf8(employee_id)
}

/// `key` starts with `prefix`.
pub open spec fn has_prefix(key: Seq<u8>, prefix: Seq<u8>) -> bool {
    prefix.len() <= key.len() && key.subrange(0, prefix.len() as int) == prefix
}

/// The date and the employee that one record of the ledger belongs to.
#[derive(Clone, Debug, PartialEq, Eq)]
pub struct AttendanceKey {
    date: CalendarDate,
    employee_id: String,
}

impl AttendanceKey {
    /// The date of the key.
    pub closed spec fn date_value(&self) -> CalendarDate {
        self.date
    }

    /// The employee's id.
    pub closed spec fn id_text(&self) -> Seq<char> {
        self.employee_id@
    }

    /// The date is a date, and the id is not empty and has no blanks around
    /// it.
    pub open spec fn wf(&self) -> bool {
        &&& self.date_value().wf()
        &&& self.id_text().len() > 0
        &&& is_trimmed(self.id_text())
    }

    /// The bytes that the record is stored under.
    pub open spec fn bytes(&self) -> Seq<u8> {
        record_key(self.date_value(), self.id_text())
    }

    /// The key of an employee on a date. The id is taken without the blanks
    /// around it; an id that is empty then names nobody and gives no key.
    pub fn new(date: CalendarDate, employee_id: &str) -> (r: Option<AttendanceKey>)
        requires
            date.wf(),
        ensures
            r is Some <==> trim_text(employee_id@).len() > 0,
            r matches Some(key) ==> key.wf() && key.date_value() == date && key.id_text()
                == trim_text(employee_id@),
    {
        let chars = chars_of(employee_id);
        let id = trim(&chars);
        proof {
            lemma_trim_is_trimmed(employee_id@);
        }
        if id.len() == 0 {
            None
        } else {
            Some(AttendanceKey { date, employee_id: string_of(&id) })
        }
    }

    /// The date of the key.
    pub fn date(&self) -> (d: CalendarDate)
        ensures
            d == self.date_value(),
    {
        self.date
    }

    /// The employee's id.
    pub fn employee_id(&self) -> (id: &str)
        ensures
            id@ == self.id_text(),
    {
        self.employee_id.as_str()
    }

    /// The bytes that the record is stored under.
    pub fn to_bytes(&self) -> (out: Vec<u8>)
        ensures
            out@ == self.bytes(),
    {
        let mut out = prefix_bytes(&self.date);
        let mut id = slice_to_vec(self.employee_id.as_str().as_bytes());
        out.append(&mut id);
        out
    }
}

/// Appends the last `width` decimal digits of `n` as ASCII bytes.
fn push_padded_bytes(out: &mut Vec<u8>, n: u32, width: u8)
    ensures
        final(out)@ == old(out)@ + padded_bytes(n as nat, width as nat),
    decreases width,
{
    if width > 0 {
        push_padded_bytes(out, n / 10, width - 1);
        out.push(48 + (n % 10) as u8);
    }
    assert(out@ =~= old(out)@ + padded_bytes(n as nat, width as nat));
}

/// The bytes that the key of every record of `date` starts with.
pub fn prefix_bytes(date: &CalendarDate) -> (out: Vec<u8>)
    ensures
        out@ == date_prefix(*date),
{
    let mut out: Vec<u8> = Vec::new();
    push_padded_bytes(&mut out, date.year as u32, 4);
    out.push(0x2d);
    push_padded_bytes(&mut out, date.month as u32, 2);
    out.push(0x2d);
    push_padded_bytes(&mut out, date.day as u32, 2);
    out.push(0x5f);
    assert(out@ =~= date_prefix(*date));
    out
}

/// Padded digits have the width asked for, and write the number they were
/// made from as long as it fits the width.
pub proof fn lemma_padded_bytes(n: nat, width: nat)
    ensures
        padded_bytes(n, width).len() == width,
        n < pow10(width) ==> digits_number(padded_bytes(n, width)) == n,
    decreases width,
{
    if width > 0 {
        lemma_padded_bytes(n / 10, (width - 1) as nat);
        let front = padded_bytes(n / 10, (width - 1) as nat);
        let last = (48 + n % 10) as u8;
        assert(front.push(last).drop_last() =~= front);
        assert(front.push(last).last() == last);
    }
}

/// The prefix of a date is eleven bytes long and tells the date.
pub proof fn lemma_date_prefix_shape(date: CalendarDate)
    requires
        date.wf(),
    ensures
        date_prefix(date).len() == 11,
        digits_number(date_prefix(date).subrange(0, 4)) == date.year,
        digits_number(date_prefix(date).subrange(5, 7)) == date.month,
        digits_number(date_prefix(date).subrange(8, 10)) == date.day,
{
    reveal_with_fuel(pow10, 5);
    lemma_padded_bytes(date.year as nat, 4);
    lemma_padded_bytes(date.month as nat, 2);
    lemma_padded_bytes(date.day as nat, 2);
    let p = date_prefix(date);
    assert(p.subrange(0, 4) =~= padded_bytes(date.year as nat, 4));
    assert(p.subrange(5, 7) =~= padded_bytes(date.month as nat, 2));
    assert(p.subrange(8, 10) =~= padded_bytes(date.day as nat, 2));
}

/// The UTF-8 form of two texts, one after the other, is the UTF-8 form of
/// the first followed by that of the second.
pub proof fn lemma_encode_utf8_concat(a: Seq<char>, b: Seq<char>)
    ensures
        encode_utf8(a + b) == encode_utf8(a) + encode_utf8(b),
    decreases a.len(),
{
    if a.len() == 0 {
        assert(a + b =~= b);
        assert(encode_utf8(a) + encode_utf8(b) =~= encode_utf8(b));
    } else {
        lemma_encode_utf8_concat(a.drop_first(), b);
        assert((a + b).drop_first() =~= a.drop_first() + b);
        assert((a + b)[0] == a[0]);
        assert(encode_utf8(a + b) =~= encode_utf8(a) + encode_utf8(b));
    }
}

/// Padded digits as bytes are the UTF-8 form of the padded digits as
/// characters.
proof fn lemma_padded_encoding(n: nat, width: nat)
    ensures
        encode_utf8(padded_text(n, width)) == padded_bytes(n, width),
    decreases width,
{
    let text = padded_text(n, width);
    lemma_padded_text_shape(n, width);
    lemma_padded_bytes(n, width);
    if width > 0 {
        lemma_padded_encoding(n / 10, (width - 1) as nat);
        let front = padded_text(n / 10, (width - 1) as nat);
        let last = seq![digit_char(n % 10)];
        lemma_encode_utf8_concat(front, last);
        assert(text =~= front + last);
        assert(is_digit(last[0]));
        assert(is_ascii_chars(last));
        is_ascii_chars_encode_utf8(last);
        assert(last[0] as u8 == (48 + n % 10) as u8);
        assert(encode_utf8(last) =~= seq![(48 + n % 10) as u8]);
        assert(encode_utf8(text) =~= padded_bytes(n, width));
    } else {
        assert(encode_utf8(text) =~= padded_bytes(n, width));
    }
}

/// The key of a record is the UTF-8 form of the date as `YYYY-MM-DD`, an
/// underscore and the employee's id.
pub proof fn lemma_record_key_text(date: CalendarDate, id: Seq<char>)
    ensures
        record_key(date, id) == encode_utf8(key_text(date, id)),
{
    let y = padded_text(date.year as nat, 4);
    let m = padded_text(date.month as nat, 2);
    let d = padded_text(date.day as nat, 2);
    let dash = seq!['-'];
    let under = seq!['_'];
    lemma_padded_encoding(date.year as nat, 4);
    lemma_padded_encoding(date.month as nat, 2);
    lemma_padded_encoding(date.day as nat, 2);
    assert(is_ascii_chars(dash));
    assert(is_ascii_chars(under));
    is_ascii_chars_encode_utf8(dash);
    is_ascii_chars_encode_utf8(under);
    assert(encode_utf8(dash) =~= seq![0x2du8]);
    assert(encode_utf8(under) =~= seq![0x5fu8]);
    lemma_encode_utf8_concat(y, dash);
    lemma_encode_utf8_concat(y + dash, m);
    lemma_encode_utf8_concat(y + dash + m, dash);
    lemma_encode_utf8_concat(y + dash + m + dash, d);
    lemma_encode_utf8_concat(y + dash + m + dash + d, under);
    lemma_encode_utf8_concat(y + dash + m + dash + d + under, id);
}

/// Two keys are the same only if their dates and their ids are.
pub proof fn lemma_record_key_injective(
    date1: CalendarDate,
    id1: Seq<char>,
    date2: CalendarDate,
    id2: Seq<char>,
)
    requires
        date1.wf(),
        date2.wf(),
        record_key(date1, id1) == record_key(date2, id2),
    ensures
        date1 == date2,
        id1 == id2,
{
    lemma_date_prefix_shape(date1);
    lemma_date_prefix_shape(date2);
    let key = record_key(date1, id1);
    assert(has_prefix(record_key(date2, id2), date_prefix(date1))) by {
        assert(key.subrange(0, 11) =~= date_prefix(date1));
    }
    lemma_prefix_exact(date1, date2, id2);
    assert(encode_utf8(id1) =~= key.subrange(11, key.len() as int));
    assert(encode_utf8(id2) =~= key.subrange(11, key.len() as int));
    encode_utf8_decode_utf8(id1);
    encode_utf8_decode_utf8(id2);
}

/// A key starts with the prefix of a date exactly if it is a key of that
/// date: the scan of one date never reaches the records of another.
pub proof fn lemma_prefix_exact(scanned: CalendarDate, keyed: CalendarDate, id: Seq<char>)
    requires
        scanned.wf(),
        keyed.wf(),
    ensures
        has_prefix(record_key(keyed, id), date_prefix(scanned)) <==> scanned == keyed,
{
    lemma_date_prefix_shape(scanned);
    lemma_date_prefix_shape(keyed);
    let key = record_key(keyed, id);
    assert(key.subrange(0, 11) =~= date_prefix(keyed));
}

/// The key that the configuration is stored under: `user_input` in ASCII.
pub open spec fn config_key() -> Seq<u8> {
    seq![0x75u8, 0x73u8, 0x65u8, 0x72u8, 0x5fu8, 0x69u8, 0x6eu8, 0x70u8, 0x75u8, 0x74u8]
}

/// The bytes of the key that the configuration is stored under.
pub(crate) fn config_key_bytes() -> (key: Vec<u8>)
    ensures
        key@ == config_key(),
{
    let key = vec![0x75u8, 0x73u8, 0x65u8, 0x72u8, 0x5fu8, 0x69u8, 0x6eu8, 0x70u8, 0x75u8, 0x74u8];
    assert(key@ =~= config_key());
    key
}

/// The configuration is stored under a key that is no record's key.
pub proof fn lemma_config_key_apart(date: CalendarDate, id: Seq<char>)
    ensures
        record_key(date, id) != config_key(),
{
    let key = record_key(date, id);
    lemma_padded_bytes(date.year as nat, 4);
    let year = padded_bytes(date.year as nat, 4);
    assert(year.len() == 4);
    assert(key[0] == year[0]);
    lemma_digit_bytes(date.year as nat, 4, 0);
    assert(config_key()[0] == 0x75u8);
}

/// Every byte of a padded number is an ASCII digit.
pub proof fn lemma_digit_bytes(n: nat, width: nat, i: int)
    requires
        0 <= i < width,
    ensures
        padded_bytes(n, width).len() == width,
        0x30 <= padded_bytes(n, width)[i] <= 0x39,
    decreases width,
{
    lemma_padded_bytes(n, width);
    lemma_padded_bytes(n / 10, (width - 1) as nat);
    if i < width - 1 {
        lemma_digit_bytes(n / 10, (width - 1) as nat, i);
        assert(padded_bytes(n, width)[i] == padded_bytes(n / 10, (width - 1) as nat)[i]);
    }
}

} // verus!
