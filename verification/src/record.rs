//! The attendance record of one employee on one day, its binary form, and
//! the two partial updates that the imports make to it.
//!
//! A record is stored as its fields in order. A text is stored as the
//! number of its UTF-8 bytes, in four bytes with the least significant
//! first, followed by those bytes; the working time as the eight bytes of
//! its bit pattern, least significant first.

use vstd::prelude::*;
use vstd::bytes::{
    lemma_auto_spec_u32_to_from_le_bytes, lemma_auto_spec_u64_to_from_le_bytes,
    spec_u32_from_le_bytes, spec_u32_to_le_bytes, spec_u64_from_le_bytes, spec_u64_to_le_bytes,
    u32_from_le_bytes, u32_to_le_bytes, u64_from_le_bytes, u64_to_le_bytes,
};
use vstd::slice::{slice_subrange, slice_to_vec};
use vstd::utf8::{
    decode_utf8, decode_utf8_encode_utf8, encode_utf8, encode_utf8_decode_utf8,
    encode_utf8_valid_utf8, valid_utf8,
};

verus! {

/// `String::from_utf8` of the standard library accepts exactly the byte
/// sequences that are valid UTF-8, and gives the text that they encode.
#[verifier::external_body]
pub(crate) fn string_from_utf8(bytes: Vec<u8>) -> (r: Option<String>)
    ensures
        r is Some <==> valid_utf8(bytes@),
        r is Some ==> r->0@ == decode_utf8(bytes@),
{
    String::from_utf8(bytes).ok()
}

/// What the ledger holds about one employee on one day.
///
/// `work_minutes_bits` is the bit pattern of the working time in minutes, a
/// 64-bit binary floating-point number; the ledger stores and returns it
/// without looking inside.
#[derive(Clone, Debug, PartialEq, Eq)]
pub struct Attendance {
    pub employee_id: String,
    pub enter_info: String,
    pub leave_info: String,
    pub work_minutes_bits: u64,
    pub abnormal_reason: String,
}

/// The mathematical value of an [`Attendance`].
pub ghost struct AttendanceView {
    pub employee_id: Seq<char>,
    pub enter_info: Seq<char>,
    pub leave_info: Seq<char>,
    pub work_minutes_bits: u64,
    pub abnormal_reason: Seq<char>,
}

impl View for Attendance {
    type V = AttendanceView;

    open spec fn view(&self) -> AttendanceView {
        AttendanceView {
            employee_id: self.employee_id@,
            enter_info: self.enter_info@,
            leave_info: self.leave_info@,
            work_minutes_bits: self.work_minutes_bits,
            abnormal_reason: self.abnormal_reason@,
        }
    }
}

/// The record of an employee of whom nothing is known yet: empty texts and
/// a working time of zero.
pub open spec fn blank_record() -> AttendanceView {
    AttendanceView {
        employee_id: Seq::<char>::empty(),
        enter_info: Seq::<char>::empty(),
        leave_info: Seq::<char>::empty(),
        work_minutes_bits: 0,
        abnormal_reason: Seq::<char>::empty(),
    }
}

/// The stored form of a text: the length of its UTF-8 form, then that form.
pub open spec fn encoded_text(s: Seq<char>) -> Seq<u8> {
    spec_u32_to_le_bytes(encode_utf8(s).len() as u32) + encode_utf8(s)
}

/// A text can be stored if the length of its UTF-8 form fits 32 bits.
pub open spec fn text_fits(s: Seq<char>) -> bool {
    encode_utf8(s).len() <= u32::MAX
}

/// A record can be stored if each of its texts can.
pub open spec fn encodable(r: AttendanceView) -> bool {
    &&& text_fits(r.employee_id)
    &&& text_fits(r.enter_info)
    &&& text_fits(r.leave_info)
    &&& text_fits(r.abnormal_reason)
}

/// The stored form of a record.
pub open spec fn encode_spec(r: AttendanceView) -> Seq<u8> {
    encoded_text(r.employee_id) + encoded_text(r.enter_info) + encoded_text(r.leave_info)
        + spec_u64_to_le_bytes(r.work_minutes_bits) + encoded_text(r.abnormal_reason)
}

/// The text stored at position `at` of `bytes`, and the position behind it.
pub open spec fn read_text(bytes: Seq<u8>, at: int) -> Option<(Seq<char>, int)> {
    if 0 <= at && at + 4 <= bytes.len() {
        let len = spec_u32_from_le_bytes(bytes.subrange(at, at + 4)) as int;
        if at + 4 + len <= bytes.len() && valid_utf8(bytes.subrange(at + 4, at + 4 + len)) {
            Some((decode_utf8(bytes.subrange(at + 4, at + 4 + len)), at + 4 + len))
        } else {
            None
        }
    } else {
        None
    }
}

/// The record that `bytes` store, if they store one. Bytes behind the
/// record are ignored.
pub open spec fn decode_spec(bytes: Seq<u8>) -> Option<AttendanceView> {
    match read_text(bytes, 0) {
        Some((employee_id, a)) => match read_text(bytes, a) {
            Some((enter_info, b)) => match read_text(bytes, b) {
                Some((leave_info, c)) => if c + 8 <= bytes.len() {
                    match read_text(bytes, c + 8) {
                        Some((abnormal_reason, _)) => Some(
                            AttendanceView {
                                employee_id,
                                enter_info,
                                leave_info,
                                work_minutes_bits: spec_u64_from_le_bytes(bytes.subrange(c, c + 8)),
                                abnormal_reason,
                            },
                        ),
                        None => None,
                    }
                } else {
                    None
                },
                None => None,
            },
            None => None,
        },
        None => None,
    }
}

/// A stored text is read back as itself, wherever it stands.
pub proof fn lemma_read_encoded_text(before: Seq<u8>, s: Seq<char>, after: Seq<u8>)
    requires
        text_fits(s),
    ensures
        encoded_text(s).len() == 4 + encode_utf8(s).len(),
        read_text(before + encoded_text(s) + after, before.len() as int) == Some(
            (s, (before.len() + encoded_text(s).len()) as int),
        ),
{
    lemma_auto_spec_u32_to_from_le_bytes();
    encode_utf8_valid_utf8(s);
    encode_utf8_decode_utf8(s);
    let all = before + encoded_text(s) + after;
    let at = before.len() as int;
    let n = encode_utf8(s).len();
    assert(all.subrange(at, at + 4) =~= spec_u32_to_le_bytes(n as u32));
    assert(all.subrange(at + 4, at + 4 + n) =~= encode_utf8(s));
}

/// A stored record is read back as itself.
pub proof fn lemma_decode_encode(r: AttendanceView)
    requires
        encodable(r),
    ensures
        decode_spec(encode_spec(r)) == Some(r),
{
    lemma_auto_spec_u64_to_from_le_bytes();
    let e1 = encoded_text(r.employee_id);
    let e2 = encoded_text(r.enter_info);
    let e3 = encoded_text(r.leave_info);
    let m = spec_u64_to_le_bytes(r.work_minutes_bits);
    let e5 = encoded_text(r.abnormal_reason);
    let all = encode_spec(r);
    let empty = Seq::<u8>::empty();
    lemma_read_encoded_text(empty, r.employee_id, e2 + e3 + m + e5);
    assert(all =~= empty + e1 + (e2 + e3 + m + e5));
    lemma_read_encoded_text(e1, r.enter_info, e3 + m + e5);
    assert(all =~= e1 + e2 + (e3 + m + e5));
    lemma_read_encoded_text(e1 + e2, r.leave_info, m + e5);
    assert(all =~= (e1 + e2) + e3 + (m + e5));
    lemma_read_encoded_text(e1 + e2 + e3 + m, r.abnormal_reason, empty);
    assert(all =~= (e1 + e2 + e3 + m) + e5 + empty);
    let c = (e1 + e2 + e3).len() as int;
    assert(all.subrange(c, c + 8) =~= m);
}

/// Appends the stored form of `s`, unless it is too long to be stored.
fn push_text(out: &mut Vec<u8>, s: &str) -> (ok: bool)
    ensures
        ok == text_fits(s@),
        ok ==> final(out)@ == old(out)@ + encoded_text(s@),
        !ok ==> final(out)@ == old(out)@,
{
    let bytes = s.as_bytes();
    if bytes.len() > 0xffff_ffff {
        return false;
    }
    let mut head = u32_to_le_bytes(bytes.len() as u32);
    let mut body = slice_to_vec(bytes);
    out.append(&mut head);
    out.append(&mut body);
    assert(out@ =~= old(out)@ + encoded_text(s@));
    true
}

/// Reads the text stored at position `at`.
fn take_text(bytes: &[u8], at: usize) -> (r: Option<(String, usize)>)
    requires
        at <= bytes@.len(),
    ensures
        match r {
            Some((s, next)) => read_text(bytes@, at as int) == Some((s@, next as int)) && next
                <= bytes@.len(),
            None => read_text(bytes@, at as int) is None,
        },
{
    let n = bytes.len();
    if n - at < 4 {
        return None;
    }
    let len = u32_from_le_bytes(slice_subrange(bytes, at, at + 4));
    if ((n - at - 4) as u64) < (len as u64) {
        return None;
    }
    let end: usize = at + 4 + len as usize;
    let body = slice_to_vec(slice_subrange(bytes, at + 4, end));
    match string_from_utf8(body) {
        Some(s) => Some((s, end)),
        None => None,
    }
}

impl Attendance {
    /// The record of an employee of whom nothing is known yet.
    pub fn blank() -> (r: Attendance)
        ensures
            r@ == blank_record(),
    {
        Attendance {
            employee_id: String::new(),
            enter_info: String::new(),
            leave_info: String::new(),
            work_minutes_bits: 0,
            abnormal_reason: String::new(),
        }
    }

    /// A copy of the record.
    pub fn duplicate(&self) -> (r: Attendance)
        ensures
            r@ == self@,
    {
        Attendance {
            employee_id: self.employee_id.clone(),
            enter_info: self.enter_info.clone(),
            leave_info: self.leave_info.clone(),
            work_minutes_bits: self.work_minutes_bits,
            abnormal_reason: self.abnormal_reason.clone(),
        }
    }

    /// The stored form of the record. There is none where one of its texts
    /// is longer than the form can say.
    pub fn encode(&self) -> (r: Option<Vec<u8>>)
        ensures
            r is Some <==> encodable(self@),
            r is Some ==> r->0@ == encode_spec(self@),
    {
        let mut out: Vec<u8> = Vec::new();
        if !push_text(&mut out, self.employee_id.as_str()) {
            return None;
        }
        if !push_text(&mut out, self.enter_info.as_str()) {
            return None;
        }
        if !push_text(&mut out, self.leave_info.as_str()) {
            return None;
        }
        let mut minutes = u64_to_le_bytes(self.work_minutes_bits);
        out.append(&mut minutes);
        if !push_text(&mut out, self.abnormal_reason.as_str()) {
            return None;
        }
        assert(out@ =~= encode_spec(self@));
        Some(out)
    }

    /// The record that `bytes` store, if they store one.
    pub fn decode(bytes: &[u8]) -> (r: Option<Attendance>)
        ensures
            match r {
                Some(a) => decode_spec(bytes@) == Some(a@),
                None => decode_spec(bytes@) is None,
            },
    {
        let (employee_id, a) = match take_text(bytes, 0) {
            Some(t) => t,
            None => { return None; },
        };
        let (enter_info, b) = match take_text(bytes, a) {
            Some(t) => t,
            None => { return None; },
        };
        let (leave_info, c) = match take_text(bytes, b) {
            Some(t) => t,
            None => { return None; },
        };
        if bytes.len() - c < 8 {
            return None;
        }
        let work_minutes_bits = u64_from_le_bytes(slice_subrange(bytes, c, c + 8));
        let (abnormal_reason, _) = match take_text(bytes, c + 8) {
            Some(t) => t,
            None => { return None; },
        };
        Some(Attendance { employee_id, enter_info, leave_info, work_minutes_bits, abnormal_reason })
    }
}

impl Default for Attendance {
    fn default() -> (r: Attendance)
        ensures
            r@ == blank_record(),
    {
        Attendance::blank()
    }
}

/// An update of one group of fields of a record. Either group carries the
/// employee's id, which every stored record repeats.
#[derive(Clone, Debug, PartialEq, Eq)]
pub enum FieldPatch {
    /// What the statistics sheet knows: how the employee came and went, and
    /// for how long they worked.
    Timing { employee_id: String, enter_info: String, leave_info: String, work_minutes_bits: u64 },
    /// What the swipe-record sheet knows: why the day was not regular.
    Reason { employee_id: String, abnormal_reason: String },
}

/// The mathematical value of a [`FieldPatch`].
pub ghost enum FieldPatchView {
    Timing {
        employee_id: Seq<char>,
        enter_info: Seq<char>,
        leave_info: Seq<char>,
        work_minutes_bits: u64,
    },
    Reason { employee_id: Seq<char>, abnormal_reason: Seq<char> },
}

impl View for FieldPatch {
    type V = FieldPatchView;

    open spec fn view(&self) -> FieldPatchView {
        match self {
            FieldPatch::Timing { employee_id, enter_info, leave_info, work_minutes_bits } => {
                FieldPatchView::Timing {
                    employee_id: employee_id@,
                    enter_info: enter_info@,
                    leave_info: leave_info@,
                    work_minutes_bits: *work_minutes_bits,
                }
            },
            FieldPatch::Reason { employee_id, abnormal_reason } => FieldPatchView::Reason {
                employee_id: employee_id@,
                abnormal_reason: abnormal_reason@,
            },
        }
    }
}

/// The bit patterns of a working time: those of the numbers from zero up.
/// The patterns beyond them are those of the negative numbers and of what
/// is no number.
pub open spec fn valid_minutes(bits: u64) -> bool {
    bits <= 0x7FF0_0000_0000_0000
}

/// The working time that is stored for a bit pattern: the pattern itself
/// where it is one of a working time, and zero where it is not.
pub open spec fn minutes_or_zero(bits: u64) -> u64 {
    if valid_minutes(bits) {
        bits
    } else {
        0
    }
}

/// A record after an update: the fields of the update's group are
/// overwritten, the others stay. A working time that is negative or no
/// number is taken as zero.
pub open spec fn patched(old: AttendanceView, patch: FieldPatchView) -> AttendanceView {
    match patch {
        FieldPatchView::Timing { employee_id, enter_info, leave_info, work_minutes_bits } => {
            AttendanceView {
                employee_id,
                enter_info,
                leave_info,
                work_minutes_bits: minutes_or_zero(work_minutes_bits),
                abnormal_reason: old.abnormal_reason,
            }
        },
        FieldPatchView::Reason { employee_id, abnormal_reason } => AttendanceView {
            employee_id,
            enter_info: old.enter_info,
            leave_info: old.leave_info,
            work_minutes_bits: old.work_minutes_bits,
            abnormal_reason,
        },
    }
}

/// The record that an update starts from: the stored one, or a blank one
/// where nothing is stored or what is stored cannot be read.
pub open spec fn stored_record(old: Option<Seq<u8>>) -> AttendanceView {
    match old {
        Some(bytes) => match decode_spec(bytes) {
            Some(r) => r,
            None => blank_record(),
        },
        None => blank_record(),
    }
}

/// The bytes to store after an update, given those stored before: the
/// stored form of the updated record. Where the updated record cannot be
/// stored, because a text of the update is too long, the update is not
/// made at all and what was stored before stays.
pub open spec fn apply_patch_spec(old: Option<Seq<u8>>, patch: FieldPatchView) -> Option<Seq<u8>> {
    let r = patched(stored_record(old), patch);
    if encodable(r) {
        Some(encode_spec(r))
    } else {
        old
    }
}

impl FieldPatch {
    /// The update that the statistics sheet makes for an employee.
    pub fn timing(employee_id: &str, enter_info: &str, leave_info: &str, work_minutes_bits: u64) -> (r:
        FieldPatch)
        ensures
            r@ == (FieldPatchView::Timing {
                employee_id: employee_id@,
                enter_info: enter_info@,
                leave_info: leave_info@,
                work_minutes_bits,
            }),
    {
        FieldPatch::Timing {
            employee_id: employee_id.to_owned(),
            enter_info: enter_info.to_owned(),
            leave_info: leave_info.to_owned(),
            work_minutes_bits,
        }
    }

    /// The update that the swipe-record sheet makes for an employee.
    pub fn reason(employee_id: &str, abnormal_reason: &str) -> (r: FieldPatch)
        ensures
            r@ == (FieldPatchView::Reason {
                employee_id: employee_id@,
                abnormal_reason: abnormal_reason@,
            }),
    {
        FieldPatch::Reason {
            employee_id: employee_id.to_owned(),
            abnormal_reason: abnormal_reason.to_owned(),
        }
    }
}

impl Attendance {
    /// Overwrites the fields of the update's group.
    pub fn apply(&mut self, patch: &FieldPatch)
        ensures
            final(self)@ == patched(old(self)@, patch@),
    {
        match patch {
            FieldPatch::Timing { employee_id, enter_info, leave_info, work_minutes_bits } => {
                self.employee_id = employee_id.clone();
                self.enter_info = enter_info.clone();
                self.leave_info = leave_info.clone();
                self.work_minutes_bits = if *work_minutes_bits <= 0x7FF0_0000_0000_0000 {
                    *work_minutes_bits
                } else {
                    0
                };
            },
            FieldPatch::Reason { employee_id, abnormal_reason } => {
                self.employee_id = employee_id.clone();
                self.abnormal_reason = abnormal_reason.clone();
            },
        }
    }
}

/// Computes the bytes to store after an update from those stored before:
/// reads the record, or starts from a blank one, overwrites the update's
/// fields and writes the record again. An update that cannot be written
/// leaves what was stored.
pub fn apply_patch(old: Option<&[u8]>, patch: &FieldPatch) -> (r: Option<Vec<u8>>)
    ensures
        match old {
            Some(bytes) => match r {
                Some(out) => apply_patch_spec(Some(bytes@), patch@) == Some(out@),
                None => apply_patch_spec(Some(bytes@), patch@) is None,
            },
            None => match r {
                Some(out) => apply_patch_spec(None, patch@) == Some(out@),
                None => apply_patch_spec(None, patch@) is None,
            },
        },
{
    let mut record = match old {
        Some(bytes) => match Attendance::decode(bytes) {
            Some(r) => r,
            None => Attendance::blank(),
        },
        None => Attendance::blank(),
    };
    record.apply(patch);
    match record.encode() {
        Some(bytes) => Some(bytes),
        None => match old {
            Some(bytes) => Some(slice_to_vec(bytes)),
            None => None,
        },
    }
}

/// Making the same update twice leaves the record as making it once.
pub proof fn lemma_patch_idempotent(r: AttendanceView, patch: FieldPatchView)
    ensures
        patched(patched(r, patch), patch) == patched(r, patch),
{
}

/// An update of the reason leaves the timing fields as they were, and an
/// update of the timing fields leaves the reason as it was.
pub proof fn lemma_patch_isolation(r: AttendanceView, patch: FieldPatchView)
    ensures
        patch is Reason ==> {
            &&& patched(r, patch).enter_info == r.enter_info
            &&& patched(r, patch).leave_info == r.leave_info
            &&& patched(r, patch).work_minutes_bits == r.work_minutes_bits
        },
        patch is Timing ==> patched(r, patch).abnormal_reason == r.abnormal_reason,
{
}

/// What an update stores is read back as the updated record.
pub proof fn lemma_apply_patch_stable(old: Option<Seq<u8>>, patch: FieldPatchView)
    requires
        encodable(patched(stored_record(old), patch)),
    ensures
        apply_patch_spec(old, patch) is Some,
        stored_record(apply_patch_spec(old, patch)) == patched(stored_record(old), patch),
{
    lemma_decode_encode(patched(stored_record(old), patch));
}

/// Updating what an update stored, in the same way, stores the same bytes.
pub proof fn lemma_apply_patch_idempotent(old: Option<Seq<u8>>, patch: FieldPatchView)
    ensures
        apply_patch_spec(apply_patch_spec(old, patch), patch) == apply_patch_spec(old, patch),
{
    if encodable(patched(stored_record(old), patch)) {
        lemma_decode_encode(patched(stored_record(old), patch));
    }
}

/// Whatever an update does, the fields of the other group are afterwards
/// as they were before: an update of the reason keeps the timing fields,
/// and an update of the timing fields keeps the reason.
pub proof fn lemma_apply_patch_keeps_other_group(old: Option<Seq<u8>>, patch: FieldPatchView)
    ensures
        ({
            let before = stored_record(old);
            let after = stored_record(apply_patch_spec(old, patch));
            &&& patch is Reason ==> {
                &&& after.enter_info == before.enter_info
                &&& after.leave_info == before.leave_info
                &&& after.work_minutes_bits == before.work_minutes_bits
            }
            &&& patch is Timing ==> after.abnormal_reason == before.abnormal_reason
        }),
{
    if encodable(patched(stored_record(old), patch)) {
        lemma_decode_encode(patched(stored_record(old), patch));
    }
}

/// An update leaves a record whose working time is one: a working time
/// that was one stays one, and a new one is one or is taken as zero.
pub proof fn lemma_apply_patch_keeps_minutes_valid(old: Option<Seq<u8>>, patch: FieldPatchView)
    requires
        valid_minutes(stored_record(old).work_minutes_bits),
    ensures
        valid_minutes(stored_record(apply_patch_spec(old, patch)).work_minutes_bits),
{
    if encodable(patched(stored_record(old), patch)) {
        lemma_decode_encode(patched(stored_record(old), patch));
    }
}

/// A text that was read from stored bytes can be stored again.
pub proof fn lemma_read_text_fits(bytes: Seq<u8>, at: int)
    requires
        read_text(bytes, at) is Some,
    ensures
        text_fits(read_text(bytes, at).unwrap().0),
        at + 4 <= read_text(bytes, at).unwrap().1 <= bytes.len(),
{
    let len = spec_u32_from_le_bytes(bytes.subrange(at, at + 4)) as int;
    decode_utf8_encode_utf8(bytes.subrange(at + 4, at + 4 + len));
}

/// A record that was read from stored bytes can be stored again.
pub proof fn lemma_decoded_encodable(bytes: Seq<u8>)
    requires
        decode_spec(bytes) is Some,
    ensures
        encodable(decode_spec(bytes)->0),
{
    lemma_read_text_fits(bytes, 0);
    let a = read_text(bytes, 0).unwrap().1;
    lemma_read_text_fits(bytes, a);
    let b = read_text(bytes, a).unwrap().1;
    lemma_read_text_fits(bytes, b);
    let c = read_text(bytes, b).unwrap().1;
    lemma_read_text_fits(bytes, c + 8);
}

/// The record that an update starts from can always be stored.
pub proof fn lemma_stored_record_encodable(old: Option<Seq<u8>>)
    ensures
        encodable(stored_record(old)),
{
    vstd::utf8::encode_utf8_decode_utf8(Seq::<char>::empty());
    assert(encode_utf8(Seq::<char>::empty()).len() == 0) by {
        reveal_with_fuel(encode_utf8, 1);
    }
    if old is Some && decode_spec(old->0) is Some {
        lemma_decoded_encodable(old->0);
    }
}

} // verus!
