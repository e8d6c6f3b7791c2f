//! The reconciliation store: the ledger of attendance records, kept in a
//! sled database.
//!
//! A merge reads the record under a key, overwrites one group of its fields
//! and writes it back, in one atomic step of the database. A scan gives the
//! records of one date.

use vstd::prelude::*;
use vstd::slice::{slice_subrange, slice_to_vec};
use vstd::utf8::{
    decode_utf8, decode_utf8_encode_utf8, encode_utf8, encode_utf8_decode_utf8,
    encode_utf8_valid_utf8, valid_utf8,
};
use crate::config::{
    decode_input_spec, input_bytes, lemma_decode_input, storable, UserInput, UserInputView,
};
use crate::dates::CalendarDate;
use crate::keys::{
    config_key, config_key_bytes, date_prefix, has_prefix, lemma_config_key_apart,
    lemma_record_key_injective, prefix_bytes, record_key, AttendanceKey,
};
use crate::record::{
    apply_patch, apply_patch_spec, decode_spec, encodable, encode_spec,
    lemma_apply_patch_idempotent, lemma_apply_patch_keeps_minutes_valid,
    lemma_apply_patch_keeps_other_group, lemma_apply_patch_stable, lemma_decode_encode, patched,
    stored_record, string_from_utf8, valid_minutes, Attendance, AttendanceView, FieldPatch,
    FieldPatchView,
};
use crate::text::{chars_of, same_text};

verus! {

/// The handle of an open sled database.
#[verifier::external_type_specification]
#[verifier::external_body]
pub struct ExDb(sled::Db);

/// The error of a sled operation.
#[verifier::external_type_specification]
#[verifier::external_body]
pub struct ExSledError(sled::Error);

/// What a sled database holds: its keys, each with its value.
pub uninterp spec fn db_entries(db: sled::Db) -> Map<Seq<u8>, Seq<u8>>;

/// The ledger after an update of the record under `key`: the record is read
/// (or a blank one taken), its fields are overwritten and it is written
/// back; no other key changes. Where the updated record cannot be stored,
/// nothing changes.
pub open spec fn merged_entries(
    entries: Map<Seq<u8>, Seq<u8>>,
    key: Seq<u8>,
    patch: FieldPatchView,
) -> Map<Seq<u8>, Seq<u8>> {
    let old = if entries.contains_key(key) {
        Some(entries[key])
    } else {
        None
    };
    match apply_patch_spec(old, patch) {
        Some(bytes) => entries.insert(key, bytes),
        None => entries.remove(key),
    }
}

/// `Tree::fetch_and_update` of sled reads the value under a key, hands it
/// to a function and stores what the function returns under the same key
/// (or removes the key where it returns nothing), retrying until no other
/// writer came between. Here the function is [`apply_patch`]. The contract
/// speaks of the database as this handle sees it while no other handle
/// writes; of a failed call it says nothing.
#[verifier::external_body]
fn db_fetch_and_update(db: &mut sled::Db, key: &Vec<u8>, patch: &FieldPatch) -> (r: Result<
    (),
    sled::Error,
>)
    ensures
        r is Ok ==> db_entries(*final(db)) == merged_entries(db_entries(*old(db)), key@, patch@),
{
    db.fetch_and_update(key, |old| apply_patch(old, patch)).map(|_| ())
}

/// One entry that a scan passed: a key with its value.
pub type ScanPair = (Vec<u8>, Vec<u8>);

/// Every pair that a scan gave is an entry of the ledger under a key that
/// starts with the prefix.
pub open spec fn scan_sound(
    entries: Map<Seq<u8>, Seq<u8>>,
    prefix: Seq<u8>,
    pairs: Seq<ScanPair>,
) -> bool {
    forall|i: int|
        0 <= i < pairs.len() ==> has_prefix((#[trigger] pairs[i]).0@, prefix)
            && entries.contains_key(pairs[i].0@) && entries[pairs[i].0@] == pairs[i].1@
}

/// A scan gave every entry whose key starts with the prefix.
pub open spec fn scan_complete(
    entries: Map<Seq<u8>, Seq<u8>>,
    prefix: Seq<u8>,
    pairs: Seq<ScanPair>,
) -> bool {
    forall|k: Seq<u8>|
        #[trigger] entries.contains_key(k) && has_prefix(k, prefix) ==> exists|i: int|
            0 <= i < pairs.len() && (#[trigger] pairs[i]).0@ == k
}

/// `Tree::scan_prefix` of sled walks the entries whose keys start with a
/// prefix; each step gives a key with its value, or a failure. The walk is
/// given up at the first failure, which is then the result; a walk without
/// a failure has passed every such entry, and gives them as they came.
#[verifier::external_body]
fn db_scan_prefix(db: &sled::Db, prefix: &Vec<u8>) -> (r: Result<Vec<ScanPair>, sled::Error>)
    ensures
        r matches Ok(pairs) ==> scan_sound(db_entries(*db), prefix@, pairs@) && scan_complete(
            db_entries(*db),
            prefix@,
            pairs@,
        ),
{
    db.scan_prefix(prefix).map(|item| item.map(|(k, v)| (k.to_vec(), v.to_vec()))).collect()
}

/// `Tree::insert` of sled stores a value under a key, in place of what the
/// key held. Of a failed call the contract says nothing.
#[verifier::external_body]
fn db_insert(db: &mut sled::Db, key: &Vec<u8>, value: Vec<u8>) -> (r: Result<(), sled::Error>)
    ensures
        r is Ok ==> db_entries(*final(db)) == db_entries(*old(db)).insert(key@, value@),
{
    db.insert(key, value).map(|_| ())
}

/// `Tree::get` of sled gives the value stored under a key, or nothing where
/// the key holds none.
#[verifier::external_body]
fn db_get(db: &sled::Db, key: &Vec<u8>) -> (r: Result<Option<Vec<u8>>, sled::Error>)
    ensures
        r matches Ok(found) ==> match found {
            Some(value) => db_entries(*db).contains_key(key@) && db_entries(*db)[key@] == value@,
            None => !db_entries(*db).contains_key(key@),
        },
{
    db.get(key).map(|found| found.map(|value| value.to_vec()))
}

/// A text for the user about a failed sled operation: the error's own
/// `Display` form.
#[verifier::external_body]
fn sled_error_text(error: &sled::Error) -> (text: String) {
    format!("{}", error)
}

/// Why an operation on the ledger failed.
#[derive(Clone, Debug, PartialEq, Eq)]
pub enum StoreError {
    /// The database failed; the text is its own account of the failure.
    Backend { message: String },
    /// The configuration has more template mappings than its stored form
    /// can count.
    ConfigTooLarge,
}

/// What the user is told about a failure of the ledger: the database's
/// own account, or that the configuration is too large.
pub open spec fn store_error_text(error: StoreError) -> Seq<char> {
    match error {
        StoreError::Backend { message } => message@,
        StoreError::ConfigTooLarge => "configuration too large to store"@,
    }
}

impl StoreError {
    /// A text for the user about the failure.
    pub fn message(&self) -> (text: String)
        ensures
            text@ == store_error_text(*self),
    {
        match self {
            StoreError::Backend { message } => message.clone(),
            StoreError::ConfigTooLarge => "configuration too large to store".to_owned(),
        }
    }
}

/// What a write to the ledger gives, from what the database gave: success
/// for success, and for a failure of the database the failure with the
/// database's own account of it.
pub fn merge_outcome(outcome: Result<(), sled::Error>) -> (r: Result<(), StoreError>)
    ensures
        r is Ok <==> outcome is Ok,
        r is Err ==> r->Err_0 is Backend,
{
    match outcome {
        Ok(()) => Ok(()),
        Err(e) => Err(StoreError::Backend { message: sled_error_text(&e) }),
    }
}

/// The configuration that a lookup of its key gives, from what the database
/// gave: the configuration that the bytes found store; none where no bytes
/// were found or the bytes store none; and for a failure of the database
/// the failure.
pub fn loaded_input(found: Result<Option<Vec<u8>>, sled::Error>) -> (r: Result<
    Option<UserInput>,
    StoreError,
>)
    ensures
        r is Ok <==> found is Ok,
        r is Err ==> r->Err_0 is Backend,
        found matches Ok(Some(bytes)) ==> r is Ok && match r->Ok_0 {
            Some(input) => decode_input_spec(bytes@) == Some(input@),
            None => decode_input_spec(bytes@) is None,
        },
        found matches Ok(None) ==> r is Ok && r->Ok_0 is None,
{
    match found {
        Ok(Some(bytes)) => Ok(UserInput::decode(bytes.as_slice())),
        Ok(None) => Ok(None),
        Err(e) => Err(StoreError::Backend { message: sled_error_text(&e) }),
    }
}

/// The ledger: a sled database seen through one handle.
///
/// Several tasks may each work through a `Store` of their own over clones
/// of one handle; sled then keeps every update atomic for its key.
/// [`Store::entries`] describes the ledger as this handle sees it while no
/// other handle writes.
pub struct Store {
    db: sled::Db,
}

impl Store {
    /// What the ledger holds: its keys, each with its bytes.
    pub closed spec fn entries(&self) -> Map<Seq<u8>, Seq<u8>> {
        db_entries(self.db)
    }

    /// The ledger kept in an open database.
    pub fn new(db: sled::Db) -> (store: Store)
        ensures
            store.entries() == db_entries(db),
    {
        Store { db }
    }

    /// Updates the record under `key` in one atomic step.
    pub fn merge(&mut self, key: &AttendanceKey, patch: &FieldPatch) -> (r: Result<(), StoreError>)
        ensures
            r is Ok ==> final(self).entries() == merged_entries(
                old(self).entries(),
                key.bytes(),
                patch@,
            ),
            r is Err ==> r->Err_0 is Backend,
    {
        let bytes = key.to_bytes();
        merge_outcome(db_fetch_and_update(&mut self.db, &bytes, patch))
    }
}

/// The readable records of one date, by employee id: one for every key of
/// that date whose value stores a record.
pub open spec fn day_records(entries: Map<Seq<u8>, Seq<u8>>, date: CalendarDate) -> Map<
    Seq<char>,
    AttendanceView,
> {
    Map::new(
        |id: Seq<char>|
            entries.contains_key(record_key(date, id)) && decode_spec(
                entries[record_key(date, id)],
            ) is Some,
        |id: Seq<char>| decode_spec(entries[record_key(date, id)])->0,
    )
}

/// The records of one date, by employee id.
pub struct DailyRecords {
    ids: Vec<Vec<char>>,
    records: Vec<Attendance>,
    model: Ghost<Map<Seq<char>, AttendanceView>>,
}

impl View for DailyRecords {
    type V = Map<Seq<char>, AttendanceView>;

    closed spec fn view(&self) -> Map<Seq<char>, AttendanceView> {
        self.model@
    }
}

/// No id behind position `i` is the id at position `i`.
pub open spec fn is_last_of_its_id(ids: Seq<Vec<char>>, i: int) -> bool {
    forall|j: int| i < j < ids.len() ==> (#[trigger] ids[j])@ != ids[i]@
}

/// The employee and the record that one pair of a scan stands for: the id
/// is what follows the prefix of the date in the key, and the record is
/// what the value stores. A pair whose key does not start with the prefix,
/// whose id is no text, or whose value stores no record stands for nothing.
pub open spec fn pair_record(date: CalendarDate, key: Seq<u8>, value: Seq<u8>) -> Option<
    (Seq<char>, AttendanceView),
> {
    let n = date_prefix(date).len() as int;
    if has_prefix(key, date_prefix(date)) && valid_utf8(key.subrange(n, key.len() as int))
        && decode_spec(value) is Some {
        Some((decode_utf8(key.subrange(n, key.len() as int)), decode_spec(value).unwrap()))
    } else {
        None
    }
}

/// The records that the pairs of a scan stand for, by employee id. Where
/// two pairs stand for the same employee, the later one counts.
pub open spec fn scan_records(date: CalendarDate, pairs: Seq<ScanPair>) -> Map<
    Seq<char>,
    AttendanceView,
>
    decreases pairs.len(),
{
    if pairs.len() == 0 {
        Map::empty()
    } else {
        let before = scan_records(date, pairs.drop_last());
        match pair_record(date, pairs.last().0@, pairs.last().1@) {
            Some(found) => before.insert(found.0, found.1),
            None => before,
        }
    }
}

/// Whether `key` starts with `prefix`.
fn starts_with(key: &Vec<u8>, prefix: &Vec<u8>) -> (b: bool)
    ensures
        b == has_prefix(key@, prefix@),
{
    if key.len() < prefix.len() {
        return false;
    }
    let mut i: usize = 0;
    while i < prefix.len()
        invariant
            i <= prefix.len() <= key.len(),
            key@.subrange(0, i as int) == prefix@.subrange(0, i as int),
        decreases prefix.len() - i,
    {
        if key[i] != prefix[i] {
            assert(key@.subrange(0, prefix.len() as int)[i as int] == key@[i as int]);
            return false;
        }
        i += 1;
        assert(key@.subrange(0, i as int) =~= key@.subrange(0, i - 1).push(key@[i - 1]));
        assert(prefix@.subrange(0, i as int) =~= prefix@.subrange(0, i - 1).push(prefix@[i - 1]));
    }
    assert(prefix@.subrange(0, prefix.len() as int) =~= prefix@);
    true
}

impl DailyRecords {
    /// The ids and the records stand side by side, and together they say
    /// what the view says: every id has a record, and the record of an id
    /// is the one that stands with its last occurrence.
    pub closed spec fn wf(&self) -> bool {
        &&& self.ids@.len() == self.records@.len()
        &&& forall|i: int|
            0 <= i < self.ids@.len() ==> self.model@.contains_key((#[trigger] self.ids@[i])@)
        &&& forall|i: int|
            0 <= i < self.ids@.len() && #[trigger] is_last_of_its_id(self.ids@, i)
                ==> self.model@[self.ids@[i]@] == self.records@[i]@
        &&& forall|id: Seq<char>| #[trigger]
            self.model@.contains_key(id) ==> exists|i: int|
                0 <= i < self.ids@.len() && (#[trigger] self.ids@[i])@ == id
    }

    /// The records of a date from the pairs of a scan of its prefix: every
    /// pair that stands for a record gives the record of its employee, a
    /// later pair in place of an earlier one for the same employee.
    pub fn from_scan(date: &CalendarDate, items: &Vec<ScanPair>) -> (found: DailyRecords)
        ensures
            found.wf(),
            found@ == scan_records(*date, items@),
    {
        let prefix = prefix_bytes(date);
        let mut ids: Vec<Vec<char>> = Vec::new();
        let mut records: Vec<Attendance> = Vec::new();
        let mut model: Ghost<Map<Seq<char>, AttendanceView>> = Ghost(Map::empty());
        let mut i: usize = 0;
        assert(items@.subrange(0, 0) =~= Seq::<ScanPair>::empty());
        while i < items.len()
            invariant
                i <= items.len(),
                prefix@ == date_prefix(*date),
                ids@.len() == records@.len(),
                model@ == scan_records(*date, items@.subrange(0, i as int)),
                forall|j: int| 0 <= j < ids@.len() ==> model@.contains_key((#[trigger] ids@[j])@),
                forall|j: int|
                    0 <= j < ids@.len() && #[trigger] is_last_of_its_id(ids@, j) ==> model@[ids@[j]@]
                        == records@[j]@,
                forall|id: Seq<char>| #[trigger]
                    model@.contains_key(id) ==> exists|j: int|
                        0 <= j < ids@.len() && (#[trigger] ids@[j])@ == id,
            decreases items.len() - i,
        {
            proof {
                let next = items@.subrange(0, i + 1);
                assert(next.drop_last() =~= items@.subrange(0, i as int));
                assert(next.last() == items@[i as int]);
            }
            let kv = &items[i];
            let key: &Vec<u8> = &kv.0;
            let value: &Vec<u8> = &kv.1;
            if starts_with(key, &prefix) {
                let suffix = slice_to_vec(
                    slice_subrange(key.as_slice(), prefix.len(), key.len()),
                );
                match string_from_utf8(suffix) {
                    Some(id) => {
                        match Attendance::decode(value.as_slice()) {
                            Some(record) => {
                                let ghost old_ids = ids@;
                                let ghost old_records = records@;
                                let ghost old_model = model@;
                                proof {
                                    model@ = model@.insert(id@, record@);
                                }
                                ids.push(chars_of(id.as_str()));
                                records.push(record);
                                proof {
                                    let n = old_ids.len() as int;
                                    assert(ids@[n]@ == id@);
                                    assert forall|j: int| 0 <= j < ids@.len() implies model@.contains_key(
                                        (#[trigger] ids@[j])@,
                                    ) by {
                                        if j < n {
                                            assert(ids@[j] == old_ids[j]);
                                            assert(old_model.contains_key(old_ids[j]@));
                                        }
                                    }
                                    assert forall|j: int|
                                        0 <= j < ids@.len() && #[trigger] is_last_of_its_id(
                                            ids@,
                                            j,
                                        ) implies model@[ids@[j]@] == records@[j]@ by {
                                        if j < n {
                                            assert(ids@[j] == old_ids[j]);
                                            assert(records@[j] == old_records[j]);
                                            assert(ids@[n]@ != ids@[j]@);
                                            assert(is_last_of_its_id(old_ids, j)) by {
                                                assert forall|k: int|
                                                    j < k < old_ids.len() implies (
                                                #[trigger] old_ids[k])@ != old_ids[j]@ by {
                                                    assert(ids@[k] == old_ids[k]);
                                                }
                                            }
                                        }
                                    }
                                    assert forall|x: Seq<char>| #[trigger]
                                        model@.contains_key(x) implies exists|j: int|
                                        0 <= j < ids@.len() && (#[trigger] ids@[j])@ == x by {
                                        if x == id@ {
                                            assert(ids@[n]@ == x);
                                        } else {
                                            assert(old_model.contains_key(x));
                                            let j = choose|j: int|
                                                0 <= j < old_ids.len() && (
                                                #[trigger] old_ids[j])@ == x;
                                            assert(ids@[j] == old_ids[j]);
                                        }
                                    }
                                }
                            },
                            None => {},
                        }
                    },
                    None => {},
                }
            }
            i += 1;
        }
        proof {
            assert(items@.subrange(0, i as int) =~= items@);
        }
        DailyRecords { ids, records, model }
    }

    /// The record of an employee, if the date has one.
    pub fn get(&self, employee_id: &str) -> (r: Option<&Attendance>)
        requires
            self.wf(),
        ensures
            match r {
                Some(record) => self@.contains_key(employee_id@) && self@[employee_id@] == record@,
                None => !self@.contains_key(employee_id@),
            },
    {
        let wanted = chars_of(employee_id);
        let mut i: usize = self.ids.len();
        while i > 0
            invariant
                self.wf(),
                i <= self.ids@.len(),
                wanted@ == employee_id@,
                forall|k: int| i <= k < self.ids@.len() ==> (#[trigger] self.ids@[k])@ != wanted@,
            decreases i,
        {
            i -= 1;
            if same_text(&self.ids[i], &wanted) {
                assert(is_last_of_its_id(self.ids@, i as int));
                return Some(&self.records[i]);
            }
        }
        None
    }
}

/// Every pair that a scan of a date's prefix gave and that stands for a
/// record stands for the record that the ledger holds for that employee on
/// that date.
pub proof fn lemma_scan_records_sound(
    entries: Map<Seq<u8>, Seq<u8>>,
    date: CalendarDate,
    pairs: Seq<ScanPair>,
    id: Seq<char>,
)
    requires
        scan_sound(entries, date_prefix(date), pairs),
        scan_records(date, pairs).contains_key(id),
    ensures
        day_records(entries, date).contains_key(id),
        day_records(entries, date)[id] == scan_records(date, pairs)[id],
    decreases pairs.len(),
{
    if pairs.len() > 0 {
        let rest = pairs.drop_last();
        assert(scan_sound(entries, date_prefix(date), rest)) by {
            assert forall|i: int| 0 <= i < rest.len() implies has_prefix(
                (#[trigger] rest[i]).0@,
                date_prefix(date),
            ) && entries.contains_key(rest[i].0@) && entries[rest[i].0@] == rest[i].1@ by {
                assert(rest[i] == pairs[i]);
            }
        }
        let last = pairs[pairs.len() - 1];
        assert(last == pairs.last());
        let stands = pair_record(date, last.0@, last.1@);
        if stands is Some && stands.unwrap().0 == id {
            let key = last.0@;
            let n = date_prefix(date).len() as int;
            let suffix = key.subrange(n, key.len() as int);
            decode_utf8_encode_utf8(suffix);
            assert(key =~= date_prefix(date) + suffix);
            assert(key == record_key(date, id));
        } else {
            lemma_scan_records_sound(entries, date, rest, id);
        }
    }
}

/// A pair of a scan under the key of an employee, with a value that stores
/// a record, brings that employee among the records of the scan.
pub proof fn lemma_scan_records_complete(
    date: CalendarDate,
    pairs: Seq<ScanPair>,
    i: int,
    id: Seq<char>,
)
    requires
        0 <= i < pairs.len(),
        pairs[i].0@ == record_key(date, id),
        decode_spec(pairs[i].1@) is Some,
    ensures
        scan_records(date, pairs).contains_key(id),
    decreases pairs.len(),
{
    let rest = pairs.drop_last();
    if i == pairs.len() - 1 {
        let key = record_key(date, id);
        let n = date_prefix(date).len() as int;
        assert(key.subrange(0, n) =~= date_prefix(date));
        assert(key.subrange(n, key.len() as int) =~= encode_utf8(id));
        encode_utf8_valid_utf8(id);
        encode_utf8_decode_utf8(id);
    } else {
        assert(rest[i] == pairs[i]);
        lemma_scan_records_complete(date, rest, i, id);
    }
}

/// The pairs of a whole scan of a date's prefix stand for exactly the
/// records that the ledger holds for that date.
pub proof fn lemma_scan_is_day_records(
    entries: Map<Seq<u8>, Seq<u8>>,
    date: CalendarDate,
    pairs: Seq<ScanPair>,
)
    requires
        scan_sound(entries, date_prefix(date), pairs),
        scan_complete(entries, date_prefix(date), pairs),
    ensures
        scan_records(date, pairs) == day_records(entries, date),
{
    let found = scan_records(date, pairs);
    let want = day_records(entries, date);
    assert forall|id: Seq<char>| #[trigger] found.dom().contains(id) == want.dom().contains(id) by {
        if found.contains_key(id) {
            lemma_scan_records_sound(entries, date, pairs, id);
        }
        if want.contains_key(id) {
            let key = record_key(date, id);
            assert(has_prefix(key, date_prefix(date))) by {
                assert(key.subrange(0, date_prefix(date).len() as int) =~= date_prefix(date));
            }
            assert(entries.contains_key(key));
            let j = choose|j: int| 0 <= j < pairs.len() && (#[trigger] pairs[j]).0@ == key;
            lemma_scan_records_complete(date, pairs, j, id);
        }
    }
    assert forall|id: Seq<char>| #[trigger] found.dom().contains(id) implies found[id]
        == want[id] by {
        lemma_scan_records_sound(entries, date, pairs, id);
    }
    assert(found =~= want);
}

/// The records of a date from what a scan of its prefix gave: the records
/// that the pairs stand for, and for a failure of the database the failure.
pub fn scan_outcome(date: &CalendarDate, scanned: Result<Vec<ScanPair>, sled::Error>) -> (r: Result<
    DailyRecords,
    StoreError,
>)
    ensures
        r is Ok <==> scanned is Ok,
        r is Err ==> r->Err_0 is Backend,
        scanned matches Ok(pairs) ==> r is Ok && r->Ok_0.wf() && r->Ok_0@ == scan_records(
            *date,
            pairs@,
        ),
{
    match scanned {
        Ok(pairs) => Ok(DailyRecords::from_scan(date, &pairs)),
        Err(e) => Err(StoreError::Backend { message: sled_error_text(&e) }),
    }
}

impl Store {
    /// Overwrites the timing fields of the record under `key`, and leaves
    /// its reason as it is. A record that does not exist yet starts blank.
    pub fn merge_timing_fields(
        &mut self,
        key: &AttendanceKey,
        enter_info: &str,
        leave_info: &str,
        work_minutes_bits: u64,
    ) -> (r: Result<(), StoreError>)
        ensures
            r is Ok ==> final(self).entries() == merged_entries(
                old(self).entries(),
                key.bytes(),
                (FieldPatchView::Timing {
                    employee_id: key.id_text(),
                    enter_info: enter_info@,
                    leave_info: leave_info@,
                    work_minutes_bits,
                }),
            ),
            r is Err ==> r->Err_0 is Backend,
    {
        let patch = FieldPatch::timing(key.employee_id(), enter_info, leave_info, work_minutes_bits);
        self.merge(key, &patch)
    }

    /// Overwrites the reason of the record under `key`, and leaves its
    /// timing fields as they are. A record that does not exist yet starts
    /// blank.
    pub fn merge_reason_field(&mut self, key: &AttendanceKey, abnormal_reason: &str) -> (r: Result<
        (),
        StoreError,
    >)
        ensures
            r is Ok ==> final(self).entries() == merged_entries(
                old(self).entries(),
                key.bytes(),
                (FieldPatchView::Reason {
                    employee_id: key.id_text(),
                    abnormal_reason: abnormal_reason@,
                }),
            ),
            r is Err ==> r->Err_0 is Backend,
    {
        let patch = FieldPatch::reason(key.employee_id(), abnormal_reason);
        self.merge(key, &patch)
    }

    /// The records of one date, by employee id: those stored under the keys
    /// of that date, and no others. A value that stores no record is passed
    /// over.
    pub fn scan_by_date(&self, date: &CalendarDate) -> (r: Result<DailyRecords, StoreError>)
        ensures
            r matches Ok(found) ==> found.wf() && found@ == day_records(self.entries(), *date),
            r is Err ==> r->Err_0 is Backend,
    {
        let prefix = prefix_bytes(date);
        let scanned = db_scan_prefix(&self.db, &prefix);
        proof {
            if scanned is Ok {
                lemma_scan_is_day_records(self.entries(), *date, scanned->Ok_0@);
            }
        }
        scan_outcome(date, scanned)
    }
}

impl Store {
    /// Stores the configuration, in place of the one stored before.
    pub fn save_user_input(&mut self, input: &UserInput) -> (r: Result<(), StoreError>)
        ensures
            r is Ok ==> storable(input@) && final(self).entries() == old(self).entries().insert(
                config_key(),
                input_bytes(input@),
            ),
            (r matches Err(StoreError::ConfigTooLarge)) <==> !storable(input@),
            !storable(input@) ==> final(self).entries() == old(self).entries(),
    {
        let bytes = match input.encode() {
            Some(bytes) => bytes,
            None => { return Err(StoreError::ConfigTooLarge); },
        };
        let key = config_key_bytes();
        merge_outcome(db_insert(&mut self.db, &key, bytes))
    }

    /// The stored configuration, if one is stored that can be read.
    pub fn load_user_input(&self) -> (r: Result<Option<UserInput>, StoreError>)
        ensures
            r matches Ok(found) ==> match found {
                Some(input) => self.entries().contains_key(config_key()) && decode_input_spec(
                    self.entries()[config_key()],
                ) == Some(input@),
                None => !self.entries().contains_key(config_key()) || decode_input_spec(
                    self.entries()[config_key()],
                ) is None,
            },
            r is Err ==> r->Err_0 is Backend,
    {
        let key = config_key_bytes();
        loaded_input(db_get(&self.db, &key))
    }
}

/// The bytes stored under `key`, if any.
pub open spec fn stored_bytes(entries: Map<Seq<u8>, Seq<u8>>, key: Seq<u8>) -> Option<Seq<u8>> {
    if entries.contains_key(key) {
        Some(entries[key])
    } else {
        None
    }
}

/// The record of an employee on a date as the ledger has it: the record
/// stored under their key, or a blank one where none is stored that can be
/// read.
pub open spec fn record_at(entries: Map<Seq<u8>, Seq<u8>>, date: CalendarDate, id: Seq<char>) -> AttendanceView {
    stored_record(stored_bytes(entries, record_key(date, id)))
}

/// Two records agree in their timing fields.
pub open spec fn same_timing(a: AttendanceView, b: AttendanceView) -> bool {
    &&& a.enter_info == b.enter_info
    &&& a.leave_info == b.leave_info
    &&& a.work_minutes_bits == b.work_minutes_bits
}

/// Storing the configuration changes no record.
pub proof fn lemma_config_keeps_records(
    entries: Map<Seq<u8>, Seq<u8>>,
    bytes: Seq<u8>,
    date: CalendarDate,
    id: Seq<char>,
)
    ensures
        stored_bytes(entries.insert(config_key(), bytes), record_key(date, id)) == stored_bytes(
            entries,
            record_key(date, id),
        ),
        record_at(entries.insert(config_key(), bytes), date, id) == record_at(entries, date, id),
{
    lemma_config_key_apart(date, id);
}

/// Merging the same fields into the same key twice leaves the ledger as
/// merging them once.
pub proof fn lemma_merge_idempotent(
    entries: Map<Seq<u8>, Seq<u8>>,
    key: Seq<u8>,
    patch: FieldPatchView,
)
    ensures
        merged_entries(merged_entries(entries, key, patch), key, patch) == merged_entries(
            entries,
            key,
            patch,
        ),
{
    let old = stored_bytes(entries, key);
    let once = merged_entries(entries, key, patch);
    lemma_apply_patch_idempotent(old, patch);
    assert(stored_bytes(once, key) == apply_patch_spec(old, patch));
    assert(merged_entries(once, key, patch) =~= once);
}

/// Whatever a merge does, the fields of the other group are afterwards as
/// they were before: a merge of the reason keeps the timing fields of the
/// record, and a merge of the timing fields keeps its reason.
pub proof fn lemma_merge_keeps_other_group(
    entries: Map<Seq<u8>, Seq<u8>>,
    key: Seq<u8>,
    patch: FieldPatchView,
)
    ensures
        ({
            let before = stored_record(stored_bytes(entries, key));
            let after = stored_record(stored_bytes(merged_entries(entries, key, patch), key));
            &&& patch is Reason ==> {
                &&& after.enter_info == before.enter_info
                &&& after.leave_info == before.leave_info
                &&& after.work_minutes_bits == before.work_minutes_bits
            }
            &&& patch is Timing ==> after.abnormal_reason == before.abnormal_reason
        }),
{
    let old = stored_bytes(entries, key);
    lemma_apply_patch_keeps_other_group(old, patch);
    assert(stored_bytes(merged_entries(entries, key, patch), key) == apply_patch_spec(old, patch));
}

/// A merge leaves the working time of its record one: non-negative and a
/// number.
pub proof fn lemma_merge_keeps_minutes_valid(
    entries: Map<Seq<u8>, Seq<u8>>,
    key: Seq<u8>,
    patch: FieldPatchView,
)
    requires
        valid_minutes(stored_record(stored_bytes(entries, key)).work_minutes_bits),
    ensures
        valid_minutes(
            stored_record(
                stored_bytes(merged_entries(entries, key, patch), key),
            ).work_minutes_bits,
        ),
{
    let old = stored_bytes(entries, key);
    lemma_apply_patch_keeps_minutes_valid(old, patch);
    assert(stored_bytes(merged_entries(entries, key, patch), key) == apply_patch_spec(old, patch));
}

/// A merge of the reason leaves the timing fields of the record as they
/// were, and a merge of the timing fields leaves its reason as it was. The
/// fields of the merge are those of the record afterwards.
pub proof fn lemma_merge_isolation(
    entries: Map<Seq<u8>, Seq<u8>>,
    key: Seq<u8>,
    patch: FieldPatchView,
)
    requires
        encodable(patched(stored_record(stored_bytes(entries, key)), patch)),
    ensures
        ({
            let before = stored_record(stored_bytes(entries, key));
            let after = stored_record(stored_bytes(merged_entries(entries, key, patch), key));
            &&& after == patched(before, patch)
            &&& patch is Reason ==> {
                &&& after.enter_info == before.enter_info
                &&& after.leave_info == before.leave_info
                &&& after.work_minutes_bits == before.work_minutes_bits
            }
            &&& patch is Timing ==> after.abnormal_reason == before.abnormal_reason
        }),
{
    lemma_apply_patch_stable(stored_bytes(entries, key), patch);
}

/// A merge changes nothing under any other key.
pub proof fn lemma_merge_frame(
    entries: Map<Seq<u8>, Seq<u8>>,
    key: Seq<u8>,
    patch: FieldPatchView,
    other: Seq<u8>,
)
    requires
        other != key,
    ensures
        stored_bytes(merged_entries(entries, key, patch), other) == stored_bytes(entries, other),
{
}

/// A merge under a key of one date leaves the records of every other date
/// as they were.
pub proof fn lemma_merge_keeps_other_dates(
    entries: Map<Seq<u8>, Seq<u8>>,
    keyed: CalendarDate,
    id: Seq<char>,
    patch: FieldPatchView,
    scanned: CalendarDate,
)
    requires
        scanned.wf(),
        keyed.wf(),
        scanned != keyed,
    ensures
        day_records(merged_entries(entries, record_key(keyed, id), patch), scanned) == day_records(
            entries,
            scanned,
        ),
{
    let key = record_key(keyed, id);
    let after = merged_entries(entries, key, patch);
    assert forall|other: Seq<char>| record_key(scanned, other) != key by {
        if record_key(scanned, other) == key {
            lemma_record_key_injective(scanned, other, keyed, id);
        }
    }
    assert(day_records(after, scanned) =~= day_records(entries, scanned)) by {
        assert forall|other: Seq<char>|
            stored_bytes(after, record_key(scanned, other)) == stored_bytes(
                entries,
                record_key(scanned, other),
            ) by {
            lemma_merge_frame(entries, key, patch, record_key(scanned, other));
        }
    }
}

/// After a merge, a scan of the key's date finds the record with the
/// fields of the merge, and with its other fields as they were.
pub proof fn lemma_merge_then_scan(
    entries: Map<Seq<u8>, Seq<u8>>,
    date: CalendarDate,
    id: Seq<char>,
    patch: FieldPatchView,
)
    requires
        encodable(patched(stored_record(stored_bytes(entries, record_key(date, id))), patch)),
    ensures
        day_records(merged_entries(entries, record_key(date, id), patch), date).contains_key(id),
        day_records(merged_entries(entries, record_key(date, id), patch), date)[id] == patched(
            stored_record(stored_bytes(entries, record_key(date, id))),
            patch,
        ),
{
    let key = record_key(date, id);
    let record = patched(stored_record(stored_bytes(entries, key)), patch);
    let after = merged_entries(entries, key, patch);
    lemma_decode_encode(record);
    assert(after.contains_key(key));
    assert(after[key] == encode_spec(record));
    assert(decode_spec(after[key]) == Some(record));
}

/// A merge for one employee leaves the records of every other employee of
/// the same date as they were.
pub proof fn lemma_merge_keeps_other_employees(
    entries: Map<Seq<u8>, Seq<u8>>,
    date: CalendarDate,
    id: Seq<char>,
    patch: FieldPatchView,
    other: Seq<char>,
)
    requires
        date.wf(),
        other != id,
    ensures
        day_records(merged_entries(entries, record_key(date, id), patch), date).contains_key(other)
            == day_records(entries, date).contains_key(other),
        day_records(entries, date).contains_key(other) ==> day_records(
            merged_entries(entries, record_key(date, id), patch),
            date,
        )[other] == day_records(entries, date)[other],
{
    if record_key(date, other) == record_key(date, id) {
        lemma_record_key_injective(date, other, date, id);
    }
    lemma_merge_frame(entries, record_key(date, id), patch, record_key(date, other));
}

/// A configuration that was saved is the one that is loaded.
pub proof fn lemma_saved_input_loads(entries: Map<Seq<u8>, Seq<u8>>, input: UserInputView)
    requires
        storable(input),
    ensures
        decode_input_spec(entries.insert(config_key(), input_bytes(input))[config_key()]) == Some(
            input,
        ),
{
    lemma_decode_input(input);
}

} // verus!
