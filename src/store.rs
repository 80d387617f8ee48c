//! The operations on today's record as they apply to the stored text: each
//! reads the document, fails with `Parse` when the text is not a JSON
//! object, acts on the record under `today` (the caller's `dd.mm.yyyy`
//! key), and hands back the text to store when the document changed.

use vstd::prelude::*;
use crate::days::{field_outcome, has_key, increment_outcome, tasks_name, tasks_outcome, time_outcome, with_record};
use crate::document::{document_of_text, renders, DayView, Document, StoreError};
use crate::text::ratio_text;

verus! {

/// The document that a stored text holds (meaningful when it reads).
pub open spec fn stored(t: Seq<char>) -> Seq<(Seq<char>, DayView)> {
    document_of_text(t)->Some_0
}

/// A result with its value dropped.
pub open spec fn done<T>(r: Result<T, StoreError>) -> Result<(), StoreError> {
    match r {
        Ok(_) => Ok(()),
        Err(e) => Err(e),
    }
}

/// The result is a `Parse` error.
pub open spec fn is_parse_error<T>(r: Result<T, StoreError>) -> bool {
    r matches Err(StoreError::Parse(_))
}

/// Whether the stored document has a record for `today`.
pub fn check_today_exists(text: &str, today: &str) -> (r: Result<bool, StoreError>)
    ensures
        document_of_text(text@) is None ==> is_parse_error(r),
        document_of_text(text@) is Some ==> r == Ok::<bool, StoreError>(has_key(stored(text@), today@)),
{
    let doc = match Document::from_text(text) {
        Ok(d) => d,
        Err(e) => return Err(e),
    };
    Ok(doc.has_day(today))
}

/// Adds a record for `today` to the stored document when it has none: the
/// text to store, or `None` when nothing changed.
pub fn add_today_date(text: &str, today: &str) -> (r: Result<Option<String>, StoreError>)
    ensures
        document_of_text(text@) is None ==> is_parse_error(r),
        document_of_text(text@) is Some ==> r is Ok && (r->Ok_0 is None <==> has_key(stored(text@), today@))
            && (r->Ok_0 matches Some(t) ==> renders(t@, with_record(stored(text@), today@))),
{
    let mut doc = match Document::from_text(text) {
        Ok(d) => d,
        Err(e) => return Err(e),
    };
    if doc.ensure_record(today) {
        Ok(Some(doc.to_text()))
    } else {
        Ok(None)
    }
}

/// Moves the clock that `label` names of `today`'s record on by one minute
/// in the stored document: the text to store.
pub fn increment_today_time(text: &str, today: &str, label: &str) -> (r: Result<String, StoreError>)
    ensures
        document_of_text(text@) is None ==> is_parse_error(r),
        document_of_text(text@) is Some ==> exists|d: Seq<(Seq<char>, DayView)>|
            #[trigger] increment_outcome(stored(text@), d, today@, label@, done(r)) && (r matches Ok(t) ==> renders(t@, d)),
{
    let mut doc = match Document::from_text(text) {
        Ok(d) => d,
        Err(e) => return Err(e),
    };
    let res = doc.increment_time(today, label);
    let ghost d1 = doc@;
    match res {
        Ok(()) => {
            let t = doc.to_text();
            let r: Result<String, StoreError> = Ok(t);
            assert(increment_outcome(stored(text@), d1, today@, label@, done(r)));
            r
        },
        Err(e) => {
            let r: Result<String, StoreError> = Err(e);
            assert(increment_outcome(stored(text@), d1, today@, label@, done(r)));
            r
        },
    }
}

/// The time on the clock that `label` names of `today`'s record, in the
/// stored document.
pub fn get_today_time(text: &str, today: &str, label: &str) -> (r: Result<String, StoreError>)
    ensures
        document_of_text(text@) is None ==> is_parse_error(r),
        document_of_text(text@) is Some ==> time_outcome(stored(text@), today@, label@, r),
{
    let doc = match Document::from_text(text) {
        Ok(d) => d,
        Err(e) => return Err(e),
    };
    doc.get_time(today, label)
}

/// The task ratio of `today`'s record in the stored document.
pub fn get_today_tasks(text: &str, today: &str) -> (r: Result<String, StoreError>)
    ensures
        document_of_text(text@) is None ==> is_parse_error(r),
        document_of_text(text@) is Some ==> field_outcome(stored(text@), today@, tasks_name(), r),
{
    let doc = match Document::from_text(text) {
        Ok(d) => d,
        Err(e) => return Err(e),
    };
    doc.get_tasks(today)
}

/// Sets the task ratio of `today` to `completed/total` in the stored
/// document: the text to store.
pub fn update_today_tasks(text: &str, today: &str, completed: u32, total: u32) -> (r: Result<String, StoreError>)
    ensures
        document_of_text(text@) is None ==> is_parse_error(r),
        document_of_text(text@) is Some ==> exists|d: Seq<(Seq<char>, DayView)>|
            #[trigger] tasks_outcome(stored(text@), d, today@, ratio_text(completed as nat, total as nat), done(r))
                && (r matches Ok(t) ==> renders(t@, d)),
{
    let mut doc = match Document::from_text(text) {
        Ok(d) => d,
        Err(e) => return Err(e),
    };
    let ghost ratio = ratio_text(completed as nat, total as nat);
    let res = doc.set_tasks(today, completed, total);
    let ghost d1 = doc@;
    match res {
        Ok(()) => {
            let t = doc.to_text();
            let r: Result<String, StoreError> = Ok(t);
            assert(tasks_outcome(stored(text@), d1, today@, ratio, done(r)));
            r
        },
        Err(e) => {
            let r: Result<String, StoreError> = Err(e);
            assert(tasks_outcome(stored(text@), d1, today@, ratio, done(r)));
            r
        },
    }
}

} // verus!
