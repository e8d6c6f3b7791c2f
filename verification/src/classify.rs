//! The anomaly classifier: which of five fixed markers a free-text reason
//! holds, and the label shown for it.
//!
//! The markers are tried in a fixed order and the first one found decides,
//! whatever else the text holds.

use vstd::prelude::*;
use crate::record::Attendance;
use crate::text::{chars_of, contains, contains_text, push_all, string_of, trim, trim_text};

verus! {

/// The markers, in their order of priority.
#[derive(Clone, Copy, Debug, PartialEq, Eq, Structural)]
pub enum Marker {
    /// A swipe is missing (缺卡).
    MissingSwipe,
    /// A swipe was filled in afterwards (补卡).
    BackfilledSwipe,
    /// The employee came late (迟到).
    LateArrival,
    /// The employee left early (早退).
    EarlyDeparture,
    /// The swipe was a virtual one (虚拟).
    VirtualSwipe,
}

/// The timing field that a text was taken from.
#[derive(Clone, Copy, Debug, PartialEq, Eq, Structural)]
pub enum Swipe {
    /// The swipe on arrival.
    Enter,
    /// The swipe on leaving.
    Leave,
}

/// The text that stands for a marker in a reason, and the label shown for
/// it.
pub open spec fn marker_text(marker: Marker) -> Seq<char> {
    match marker {
        Marker::MissingSwipe => seq!['缺', '卡'],
        Marker::BackfilledSwipe => seq!['补', '卡'],
        Marker::LateArrival => seq!['迟', '到'],
        Marker::EarlyDeparture => seq!['早', '退'],
        Marker::VirtualSwipe => seq!['虚', '拟'],
    }
}

/// The place of a marker in the order of priority, from 0.
pub open spec fn rank(marker: Marker) -> int {
    match marker {
        Marker::MissingSwipe => 0,
        Marker::BackfilledSwipe => 1,
        Marker::LateArrival => 2,
        Marker::EarlyDeparture => 3,
        Marker::VirtualSwipe => 4,
    }
}

/// The marker that decides for a reason: the first in priority whose text
/// occurs in it, as a substring and with case fixed.
pub open spec fn classify_spec(reason: Seq<char>) -> Option<Marker> {
    if contains_text(reason, marker_text(Marker::MissingSwipe)) {
        Some(Marker::MissingSwipe)
    } else if contains_text(reason, marker_text(Marker::BackfilledSwipe)) {
        Some(Marker::BackfilledSwipe)
    } else if contains_text(reason, marker_text(Marker::LateArrival)) {
        Some(Marker::LateArrival)
    } else if contains_text(reason, marker_text(Marker::EarlyDeparture)) {
        Some(Marker::EarlyDeparture)
    } else if contains_text(reason, marker_text(Marker::VirtualSwipe)) {
        Some(Marker::VirtualSwipe)
    } else {
        None
    }
}

/// The label of a reason: the text of its marker, or nothing.
pub open spec fn label_text(marker: Option<Marker>) -> Seq<char> {
    match marker {
        Some(m) => marker_text(m),
        None => Seq::<char>::empty(),
    }
}

/// The label of a timing field: a missing or backfilled swipe is named as
/// the morning's or the evening's; the other markers keep their label.
pub open spec fn swipe_label_text(swipe: Swipe, marker: Option<Marker>) -> Seq<char> {
    match (swipe, marker) {
        (Swipe::Enter, Some(Marker::MissingSwipe)) => seq!['缺', '早', '卡'],
        (Swipe::Enter, Some(Marker::BackfilledSwipe)) => seq!['补', '早', '卡'],
        (Swipe::Leave, Some(Marker::MissingSwipe)) => seq!['缺', '晚', '卡'],
        (Swipe::Leave, Some(Marker::BackfilledSwipe)) => seq!['补', '晚', '卡'],
        (_, other) => label_text(other),
    }
}

/// The attendance detail of a record: the labels of its arrival, of its
/// leaving and of its reason, one per line, without the blanks and empty
/// lines at either end.
pub open spec fn detail_text(
    enter_info: Seq<char>,
    leave_info: Seq<char>,
    abnormal_reason: Seq<char>,
) -> Seq<char> {
    trim_text(
        swipe_label_text(Swipe::Enter, classify_spec(enter_info)) + seq!['\n'] + swipe_label_text(
            Swipe::Leave,
            classify_spec(leave_info),
        ) + seq!['\n'] + label_text(classify_spec(abnormal_reason)),
    )
}

/// The characters of a marker.
fn marker_chars(marker: Marker) -> (out: Vec<char>)
    ensures
        out@ == marker_text(marker),
{
    let out = match marker {
        Marker::MissingSwipe => vec!['缺', '卡'],
        Marker::BackfilledSwipe => vec!['补', '卡'],
        Marker::LateArrival => vec!['迟', '到'],
        Marker::EarlyDeparture => vec!['早', '退'],
        Marker::VirtualSwipe => vec!['虚', '拟'],
    };
    assert(out@ =~= marker_text(marker));
    out
}

/// The characters of the label of a reason.
fn label_chars(marker: Option<Marker>) -> (out: Vec<char>)
    ensures
        out@ == label_text(marker),
{
    match marker {
        Some(m) => marker_chars(m),
        None => Vec::new(),
    }
}

/// The characters of the label of a timing field.
fn swipe_label_chars(swipe: Swipe, marker: Option<Marker>) -> (out: Vec<char>)
    ensures
        out@ == swipe_label_text(swipe, marker),
{
    let out = match (swipe, marker) {
        (Swipe::Enter, Some(Marker::MissingSwipe)) => vec!['缺', '早', '卡'],
        (Swipe::Enter, Some(Marker::BackfilledSwipe)) => vec!['补', '早', '卡'],
        (Swipe::Leave, Some(Marker::MissingSwipe)) => vec!['缺', '晚', '卡'],
        (Swipe::Leave, Some(Marker::BackfilledSwipe)) => vec!['补', '晚', '卡'],
        (_, other) => label_chars(other),
    };
    assert(out@ =~= swipe_label_text(swipe, marker));
    out
}

/// Finds the marker that decides for the characters of a reason.
fn classify_chars(reason: &Vec<char>) -> (marker: Option<Marker>)
    ensures
        marker == classify_spec(reason@),
{
    if contains(reason, &marker_chars(Marker::MissingSwipe)) {
        Some(Marker::MissingSwipe)
    } else if contains(reason, &marker_chars(Marker::BackfilledSwipe)) {
        Some(Marker::BackfilledSwipe)
    } else if contains(reason, &marker_chars(Marker::LateArrival)) {
        Some(Marker::LateArrival)
    } else if contains(reason, &marker_chars(Marker::EarlyDeparture)) {
        Some(Marker::EarlyDeparture)
    } else if contains(reason, &marker_chars(Marker::VirtualSwipe)) {
        Some(Marker::VirtualSwipe)
    } else {
        None
    }
}

/// Finds the marker that decides for a reason.
pub fn classify(reason: &str) -> (marker: Option<Marker>)
    ensures
        marker == classify_spec(reason@),
{
    classify_chars(&chars_of(reason))
}

/// The label of a reason: the text of the first marker, in priority order,
/// that the reason holds, or the empty text where it holds none.
pub fn sum_up(reason: &str) -> (label: String)
    ensures
        label@ == label_text(classify_spec(reason@)),
{
    string_of(&label_chars(classify(reason)))
}

/// The label of a timing field of the given kind.
pub fn swipe_label(swipe: Swipe, info: &str) -> (label: String)
    ensures
        label@ == swipe_label_text(swipe, classify_spec(info@)),
{
    string_of(&swipe_label_chars(swipe, classify(info)))
}

/// The attendance detail that a report shows for a record.
pub fn detail(record: &Attendance) -> (text: String)
    ensures
        text@ == detail_text(record@.enter_info, record@.leave_info, record@.abnormal_reason),
{
    let mut lines = swipe_label_chars(Swipe::Enter, classify(record.enter_info.as_str()));
    lines.push('\n');
    let leave = swipe_label_chars(Swipe::Leave, classify(record.leave_info.as_str()));
    push_all(&mut lines, &leave);
    lines.push('\n');
    let reason = label_chars(classify(record.abnormal_reason.as_str()));
    push_all(&mut lines, &reason);
    assert(lines@ =~= swipe_label_text(Swipe::Enter, classify_spec(record@.enter_info)) + seq!['\n']
        + swipe_label_text(Swipe::Leave, classify_spec(record@.leave_info)) + seq!['\n']
        + label_text(classify_spec(record@.abnormal_reason)));
    string_of(&trim(&lines))
}

/// The marker that decides is held by the reason, and no marker of higher
/// priority is; a reason without a label holds no marker at all.
pub proof fn lemma_classify_first(reason: Seq<char>, other: Marker)
    ensures
        classify_spec(reason) matches Some(m) ==> contains_text(reason, marker_text(m)) && (rank(
            other,
        ) < rank(m) ==> !contains_text(reason, marker_text(other))),
        classify_spec(reason) is None ==> !contains_text(reason, marker_text(other)),
        contains_text(reason, marker_text(other)) ==> classify_spec(reason) is Some && rank(
            classify_spec(reason)->0,
        ) <= rank(other),
{
}

} // verus!
