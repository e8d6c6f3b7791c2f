//! Spreadsheet column letters and row numbers as a user types them.
//!
//! A column is named by up to three letters (`A` = 1, `Z` = 26, `AA` = 27);
//! a row by a positive decimal number.

use vstd::prelude::*;
use crate::text::{
    chars_of, decimal_text, lemma_parse_decimal_text, parse_u32, parse_u32_spec, string_of,
};

verus! {

/// An ASCII letter, of either case.
pub open spec fn is_letter(c: char) -> bool {
    ('a' <= c && c <= 'z') || ('A' <= c && c <= 'Z')
}

/// An upper-case ASCII letter.
pub open spec fn is_upper(c: char) -> bool {
    'A' <= c && c <= 'Z'
}

/// The upper-case form of an ASCII letter; other characters are unchanged.
pub open spec fn to_upper(c: char) -> char {
    if 'a' <= c && c <= 'z' {
        ((c as u32 - 32) as u8) as char
    } else {
        c
    }
}

/// The first `limit` ASCII letters of `s`, in upper case.
pub open spec fn leading_letters(s: Seq<char>, limit: nat) -> Seq<char>
    decreases s.len(),
{
    if limit == 0 || s.len() == 0 {
        Seq::<char>::empty()
    } else if is_letter(s[0]) {
        seq![to_upper(s[0])] + leading_letters(s.drop_first(), (limit - 1) as nat)
    } else {
        leading_letters(s.drop_first(), limit)
    }
}

/// Every character of `s` is an upper-case ASCII letter.
pub open spec fn all_upper(s: Seq<char>) -> bool {
    forall|i: int| 0 <= i < s.len() ==> is_upper(#[trigger] s[i])
}

/// The place of an upper-case letter in the alphabet, from 1.
pub open spec fn letter_value(c: char) -> int {
    c as u32 - 'A' as u32 + 1
}

/// The 1-based column that the letters name: `A` is 1, `Z` is 26, `AA` is
/// 27, `BC` is 2 * 26 + 3.
pub open spec fn column_number(letters: Seq<char>) -> int
    decreases letters.len(),
{
    if letters.len() == 0 {
        0
    } else {
        column_number(letters.drop_last()) * 26 + letter_value(letters.last())
    }
}

/// The letters that name the 1-based column `index`.
pub open spec fn column_letters(index: int) -> Seq<char>
    decreases index,
{
    if index <= 0 {
        Seq::<char>::empty()
    } else {
        column_letters((index - 1) / 26).push(((65 + (index - 1) % 26) as u8) as char)
    }
}

/// The letters kept from a user's column text: its first three ASCII
/// letters, in upper case.
pub fn get_3_alpha(text: &str) -> (letters: String)
    ensures
        letters@ == leading_letters(text@, 3),
        letters@.len() <= 3,
        all_upper(letters@),
{
    let chars = chars_of(text);
    let mut out: Vec<char> = Vec::new();
    let mut i: usize = 0;
    assert(chars@.subrange(0, chars.len() as int) =~= chars@);
    while i < chars.len() && out.len() < 3
        invariant
            i <= chars.len(),
            out.len() <= 3,
            all_upper(out@),
            leading_letters(chars@, 3) == out@ + leading_letters(
                chars@.subrange(i as int, chars.len() as int),
                (3 - out.len()) as nat,
            ),
        decreases chars.len() - i,
    {
        let c = chars[i];
        proof {
            let rest = chars@.subrange(i as int, chars.len() as int);
            assert(rest[0] == c);
            assert(rest.drop_first() =~= chars@.subrange(i + 1, chars.len() as int));
        }
        if ('a' <= c && c <= 'z') || ('A' <= c && c <= 'Z') {
            let up: char = if 'a' <= c && c <= 'z' {
                ((c as u8) - 32) as char
            } else {
                c
            };
            assert(up == to_upper(c));
            let ghost before = out@;
            out.push(up);
            proof {
                let rest = chars@.subrange(i as int, chars.len() as int);
                assert(out@ + leading_letters(rest.drop_first(), (3 - out.len()) as nat)
                    =~= before + (seq![to_upper(c)] + leading_letters(
                    rest.drop_first(),
                    (3 - out.len()) as nat,
                )));
                assert forall|k: int| 0 <= k < out@.len() implies is_upper(#[trigger] out@[k]) by {
                    if k < before.len() {
                        assert(out@[k] == before[k]);
                    }
                }
            }
        }
        i += 1;
    }
    proof {
        let rest = chars@.subrange(i as int, chars.len() as int);
        assert(leading_letters(rest, (3 - out.len()) as nat) =~= Seq::<char>::empty());
        assert(out@ + Seq::<char>::empty() =~= out@);
    }
    string_of(&out)
}

/// The column that a user's text names: the number of its first three
/// letters, or nothing where it holds no letter.
pub open spec fn parse_col_spec(text: Seq<char>) -> Option<u32> {
    let letters = leading_letters(text, 3);
    if letters.len() == 0 {
        None
    } else {
        Some(column_number(letters) as u32)
    }
}

/// The row that a user's text names: a decimal number of at least 1.
pub open spec fn parse_row_spec(text: Seq<char>) -> Option<u32> {
    match parse_u32_spec(text) {
        Some(row) => if row >= 1 {
            Some(row)
        } else {
            None
        },
        None => None,
    }
}

/// `column_index_from_string` of umya_spreadsheet reads up to three
/// upper-case letters as a number in bijective base 26, the last letter
/// counting once, the one before it 26 times and the first 676 times. On
/// longer texts it panics, so they are kept out.
#[verifier::external_body]
pub(crate) fn column_index_from_string(letters: &str) -> (index: u32)
    requires
        letters@.len() <= 3,
        all_upper(letters@),
    ensures
        index == column_number(letters@),
{
    umya_spreadsheet::helper::coordinate::column_index_from_string(letters)
}

/// `string_from_column_index` of umya_spreadsheet writes a column number of
/// at least 1 in letters: the last letter is that of `(index - 1) % 26`, and
/// the letters before it are those of `(index - 1) / 26`. It panics on 0.
#[verifier::external_body]
pub(crate) fn string_from_column_index(index: u32) -> (letters: String)
    requires
        index >= 1,
    ensures
        letters@ == column_letters(index as int),
{
    umya_spreadsheet::helper::coordinate::string_from_column_index(&index)
}

/// `coordinate_from_index` of umya_spreadsheet names a cell by the letters
/// of its column, as `string_from_column_index` writes them, followed by
/// its row in decimal. It panics on column 0.
#[verifier::external_body]
pub(crate) fn coordinate_from_index(col: u32, row: u32) -> (name: String)
    requires
        col >= 1,
    ensures
        name@ == column_letters(col as int) + decimal_text(row as nat),
{
    umya_spreadsheet::helper::coordinate::coordinate_from_index(&col, &row)
}

/// Up to three upper-case letters name a column between 1 and 18278; no
/// letters name column 0.
pub proof fn lemma_column_number_range(letters: Seq<char>)
    requires
        all_upper(letters),
        letters.len() <= 3,
    ensures
        letters.len() == 0 ==> column_number(letters) == 0,
        letters.len() > 0 ==> 1 <= column_number(letters) <= 18278,
{
    if letters.len() > 0 {
        let a = letters.drop_last();
        assert(is_upper(letters[letters.len() - 1]));
        assert(column_number(letters) == column_number(a) * 26 + letter_value(letters.last()));
        if a.len() > 0 {
            let b = a.drop_last();
            assert(a.last() == letters[letters.len() - 2]);
            assert(is_upper(letters[letters.len() - 2]));
            assert(column_number(a) == column_number(b) * 26 + letter_value(a.last()));
            if b.len() > 0 {
                let c = b.drop_last();
                assert(b.last() == letters[letters.len() - 3]);
                assert(is_upper(letters[letters.len() - 3]));
                assert(column_number(b) == column_number(c) * 26 + letter_value(b.last()));
                assert(c.len() == 0);
                assert(column_number(c) == 0);
            }
        }
    }
}

/// Writing a column in letters and reading the letters back gives the
/// column.
pub proof fn lemma_column_letters_number(index: int)
    requires
        index >= 1,
    ensures
        all_upper(column_letters(index)),
        column_letters(index).len() >= 1,
        column_number(column_letters(index)) == index,
    decreases index,
{
    let front = column_letters((index - 1) / 26);
    let last = ((65 + (index - 1) % 26) as u8) as char;
    if (index - 1) / 26 >= 1 {
        lemma_column_letters_number((index - 1) / 26);
    }
    assert(column_number(front) == (index - 1) / 26);
    assert(all_upper(front));
    assert(is_upper(last));
    assert(letter_value(last) == (index - 1) % 26 + 1);
    let all = front.push(last);
    assert(all.drop_last() =~= front);
    assert(all.last() == last);
    assert forall|i: int| 0 <= i < all.len() implies is_upper(#[trigger] all[i]) by {
        if i < front.len() {
            assert(all[i] == front[i]);
        }
    }
}

/// Reading letters as a column and writing the column in letters gives the
/// letters back.
pub proof fn lemma_column_number_letters(letters: Seq<char>)
    requires
        all_upper(letters),
    ensures
        column_number(letters) >= 0,
        letters.len() > 0 ==> column_number(letters) >= 1,
        column_letters(column_number(letters)) == letters,
    decreases letters.len(),
{
    if letters.len() > 0 {
        let front = letters.drop_last();
        assert forall|i: int| 0 <= i < front.len() implies is_upper(#[trigger] front[i]) by {
            assert(front[i] == letters[i]);
        }
        lemma_column_number_letters(front);
        assert(is_upper(letters[letters.len() - 1]));
        let v = letter_value(letters.last());
        let p = column_number(front);
        let n = column_number(letters);
        assert(n == p * 26 + v);
        assert(1 <= v <= 26);
        assert((n - 1) / 26 == p && (n - 1) % 26 == v - 1) by (nonlinear_arith)
            requires
                n == p * 26 + v,
                1 <= v <= 26,
                p >= 0,
        ;
        assert(((65 + (v - 1)) as u8) as char == letters.last());
        assert(column_letters(n) =~= letters);
    } else {
        assert(column_letters(0) =~= letters);
    }
}

/// The letters of a column up to 18278 are at most three.
pub proof fn lemma_column_letters_len(index: int)
    requires
        1 <= index <= 18278,
    ensures
        1 <= column_letters(index).len() <= 3,
{
    let a = (index - 1) / 26;
    assert(column_letters(index).len() == column_letters(a).len() + 1);
    if a >= 1 {
        let b = (a - 1) / 26;
        assert(column_letters(a).len() == column_letters(b).len() + 1);
        if b >= 1 {
            let c = (b - 1) / 26;
            assert(column_letters(b).len() == column_letters(c).len() + 1);
            assert(c == 0);
            assert(column_letters(c).len() == 0);
        } else {
            assert(column_letters(b).len() == 0);
        }
    } else {
        assert(column_letters(a).len() == 0);
    }
}

/// Upper-case letters, no more than the limit, are their own leading
/// letters.
pub proof fn lemma_leading_letters_of_upper(s: Seq<char>, limit: nat)
    requires
        all_upper(s),
        s.len() <= limit,
    ensures
        leading_letters(s, limit) == s,
    decreases s.len(),
{
    if s.len() > 0 {
        let rest = s.drop_first();
        assert forall|i: int| 0 <= i < rest.len() implies is_upper(#[trigger] rest[i]) by {
            assert(rest[i] == s[i + 1]);
        }
        assert(is_upper(s[0]));
        lemma_leading_letters_of_upper(rest, (limit - 1) as nat);
        assert(seq![to_upper(s[0])] + rest =~= s);
    } else {
        assert(leading_letters(s, limit) =~= s);
    }
}

/// A column that is written in letters is read back as itself.
pub proof fn lemma_parse_column_letters(col: u32)
    requires
        1 <= col <= 18278,
    ensures
        parse_col_spec(column_letters(col as int)) == Some(col),
{
    lemma_column_letters_len(col as int);
    lemma_column_letters_number(col as int);
    lemma_leading_letters_of_upper(column_letters(col as int), 3);
}

/// A row that is written as a number is read back as itself.
pub proof fn lemma_parse_row_text(row: u32)
    requires
        row >= 1,
    ensures
        parse_row_spec(decimal_text(row as nat)) == Some(row),
{
    lemma_parse_decimal_text(row);
}

/// The leading letters of a text are at most `limit` upper-case letters.
pub proof fn lemma_leading_letters_shape(s: Seq<char>, limit: nat)
    ensures
        leading_letters(s, limit).len() <= limit,
        all_upper(leading_letters(s, limit)),
    decreases s.len(),
{
    if limit == 0 || s.len() == 0 {
    } else if is_letter(s[0]) {
        lemma_leading_letters_shape(s.drop_first(), (limit - 1) as nat);
        let rest = leading_letters(s.drop_first(), (limit - 1) as nat);
        let all = seq![to_upper(s[0])] + rest;
        assert forall|i: int| 0 <= i < all.len() implies is_upper(#[trigger] all[i]) by {
            if i > 0 {
                assert(all[i] == rest[i - 1]);
            }
        }
    } else {
        lemma_leading_letters_shape(s.drop_first(), limit);
    }
}

/// Reads a column from a user's text: its first three letters, whatever
/// their case and whatever stands between them, as a 1-based column number.
pub fn parse_col(text: &str) -> (col: Option<u32>)
    ensures
        col == parse_col_spec(text@),
        col is Some ==> 1 <= col->0 <= 18278,
{
    let letters = get_3_alpha(text);
    proof {
        lemma_column_number_range(letters@);
    }
    if letters.as_str().is_empty() {
        None
    } else {
        Some(column_index_from_string(letters.as_str()))
    }
}

/// Reads a row from a user's text: a decimal number of at least 1.
pub fn parse_row(text: &str) -> (row: Option<u32>)
    ensures
        row == parse_row_spec(text@),
        row is Some ==> row->0 >= 1,
{
    let chars = chars_of(text);
    match parse_u32(&chars) {
        Some(row) => if row >= 1 {
            Some(row)
        } else {
            None
        },
        None => None,
    }
}

} // verus!
