//! The day records: creating today's record, moving its clocks on, setting
//! its task ratio and reading its fields.

use vstd::prelude::*;
use crate::document::{day_wf, fields_view, document_wf, field_wf, Day, DayView, Document, Field, FieldView, StoreError};
use crate::json::keys_unique;
use crate::text::{incremented_time, ratio_text, tasks_text, tick, time_of, time_text};

verus! {

/// Which clock of a day an operation is about.
#[derive(Debug, Clone, Copy, PartialEq, Eq, Structural)]
pub enum Category {
    /// Work time, stored in the `work` field.
    Work,
    /// Rest time, stored in the `relax` field.
    Rest,
}

/// The upper-case form of a text, as `str::to_uppercase` gives it.
pub uninterp spec fn upper_of(s: Seq<char>) -> Seq<char>;

/// Relies on `str::to_uppercase`: the upper-case form depends on the
/// characters alone.
#[verifier::external_body]
fn uppercase(s: &str) -> (r: String)
    ensures
        r@ == upper_of(s@),
{
    s.to_uppercase()
}

/// The category that an upper-case label names: exactly `WORK` or `REST`.
pub open spec fn category_of_upper(u: Seq<char>) -> Option<Category> {
    if u == seq!['W', 'O', 'R', 'K'] {
        Some(Category::Work)
    } else if u == seq!['R', 'E', 'S', 'T'] {
        Some(Category::Rest)
    } else {
        None
    }
}

/// The category that a label names: its upper-case form is `WORK` or `REST`.
pub open spec fn category_of(label: Seq<char>) -> Option<Category> {
    category_of_upper(upper_of(label))
}

/// The record field that holds a category's time.
pub open spec fn field_name(c: Category) -> Seq<char> {
    match c {
        Category::Work => seq!['w', 'o', 'r', 'k'],
        Category::Rest => seq!['r', 'e', 'l', 'a', 'x'],
    }
}

/// The record field that holds the task ratio.
pub open spec fn tasks_name() -> Seq<char> {
    seq!['t', 'a', 's', 'k', 's']
}

/// The time that a fresh record starts with.
pub open spec fn zero_time() -> Seq<char> {
    seq!['0', ':', '0', '0']
}

/// `k` is the key at position `i`.
pub open spec fn key_at<V>(es: Seq<(Seq<char>, V)>, k: Seq<char>, i: int) -> bool {
    0 <= i < es.len() && es[i].0 == k
}

/// Some entry has the key `k`.
pub open spec fn has_key<V>(es: Seq<(Seq<char>, V)>, k: Seq<char>) -> bool {
    exists|i: int| key_at(es, k, i)
}

/// The position of the key `k` (meaningful when `has_key`).
pub open spec fn index_of<V>(es: Seq<(Seq<char>, V)>, k: Seq<char>) -> int {
    choose|i: int| key_at(es, k, i)
}

/// A new record: both clocks at `0:00` and the given task ratio.
pub open spec fn fresh_record(tasks: Seq<char>) -> Seq<(Seq<char>, FieldView)> {
    seq![
        (field_name(Category::Work), FieldView::Text(zero_time())),
        (field_name(Category::Rest), FieldView::Text(zero_time())),
        (tasks_name(), FieldView::Text(tasks)),
    ]
}

/// The document with a record for `k`: unchanged when it has one, else with
/// a fresh record (task ratio `0/0`) added at the end.
pub open spec fn with_record(d: Seq<(Seq<char>, DayView)>, k: Seq<char>) -> Seq<(Seq<char>, DayView)> {
    if has_key(d, k) {
        d
    } else {
        d.push((k, DayView::Record(fresh_record(seq!['0', '/', '0']))))
    }
}

/// A stored time one minute later, read permissively.
pub open spec fn ticked(s: Seq<char>) -> Seq<char> {
    time_text(tick(time_of(s).0, time_of(s).1).0, tick(time_of(s).0, time_of(s).1).1)
}

/// The fields with the clock `name` one minute on; unchanged when that field
/// is absent or not a string.
pub open spec fn tick_field(fs: Seq<(Seq<char>, FieldView)>, name: Seq<char>) -> Seq<(Seq<char>, FieldView)> {
    if has_key(fs, name) {
        match fs[index_of(fs, name)].1 {
            FieldView::Text(s) => fs.update(index_of(fs, name), (name, FieldView::Text(ticked(s)))),
            FieldView::Other(_) => fs,
        }
    } else {
        fs
    }
}

/// The fields with `name` set to `v`: in place when present, else added at the end.
pub open spec fn set_field(fs: Seq<(Seq<char>, FieldView)>, name: Seq<char>, v: FieldView) -> Seq<(Seq<char>, FieldView)> {
    if has_key(fs, name) {
        fs.update(index_of(fs, name), (name, v))
    } else {
        fs.push((name, v))
    }
}

/// The string held in field `name` of a day, if it is a record with that
/// field and the field is a string.
pub open spec fn field_text(d: DayView, name: Seq<char>) -> Option<Seq<char>> {
    match d {
        DayView::Record(fs) => if has_key(fs, name) {
            match fs[index_of(fs, name)].1 {
                FieldView::Text(s) => Some(s),
                FieldView::Other(_) => None,
            }
        } else {
            None
        },
        DayView::Other(_) => None,
    }
}

/// The document after setting the task ratio of day `k` to `ratio`: a day
/// with no entry gets a fresh record; an entry that is not a record is kept.
pub open spec fn with_tasks(d: Seq<(Seq<char>, DayView)>, k: Seq<char>, ratio: Seq<char>) -> Seq<(Seq<char>, DayView)> {
    if has_key(d, k) {
        match d[index_of(d, k)].1 {
            DayView::Record(fs) => d.update(
                index_of(d, k),
                (k, DayView::Record(set_field(fs, tasks_name(), FieldView::Text(ratio)))),
            ),
            DayView::Other(_) => d,
        }
    } else {
        d.push((k, DayView::Record(fresh_record(ratio))))
    }
}

/// What setting the task ratio of day `k` to `ratio` does, from document
/// `d0` to `d1` with result `r`: an entry that is not a record fails with
/// `MalformedRecord` and is left as it was; otherwise the ratio is set (see
/// `with_tasks`).
pub open spec fn tasks_outcome(
    d0: Seq<(Seq<char>, DayView)>,
    d1: Seq<(Seq<char>, DayView)>,
    k: Seq<char>,
    ratio: Seq<char>,
    r: Result<(), StoreError>,
) -> bool {
    if has_key(d0, k) && d0[index_of(d0, k)].1 is Other {
        r == Err::<(), StoreError>(StoreError::MalformedRecord) && d1 == d0
    } else {
        r == Ok::<(), StoreError>(()) && d1 == with_tasks(d0, k, ratio)
    }
}

/// What moving clock `label` of day `k` on does, from document `d0` to `d1`
/// with result `r`: an unknown label fails with `InvalidLabel`, then a
/// missing day with `NoRecord`, then an entry that is not a record with
/// `MalformedRecord`, each leaving the document as it was; otherwise the
/// clock field is one minute on (see `tick_field`).
pub open spec fn increment_outcome(
    d0: Seq<(Seq<char>, DayView)>,
    d1: Seq<(Seq<char>, DayView)>,
    k: Seq<char>,
    label: Seq<char>,
    r: Result<(), StoreError>,
) -> bool {
    match category_of(label) {
        None => r == Err::<(), StoreError>(StoreError::InvalidLabel) && d1 == d0,
        Some(c) => if !has_key(d0, k) {
            r == Err::<(), StoreError>(StoreError::NoRecord) && d1 == d0
        } else {
            match d0[index_of(d0, k)].1 {
                DayView::Other(_) => r == Err::<(), StoreError>(StoreError::MalformedRecord) && d1 == d0,
                DayView::Record(fs) => r == Ok::<(), StoreError>(()) && d1 == d0.update(
                    index_of(d0, k),
                    (k, DayView::Record(tick_field(fs, field_name(c)))),
                ),
            }
        },
    }
}

/// What reading field `name` of day `k` gives: `NoRecord` for a missing
/// day, the field's string, or `FieldMissing` when the entry is not a
/// record or the field is absent or not a string.
pub open spec fn field_outcome(
    d: Seq<(Seq<char>, DayView)>,
    k: Seq<char>,
    name: Seq<char>,
    r: Result<String, StoreError>,
) -> bool {
    if !has_key(d, k) {
        r == Err::<String, StoreError>(StoreError::NoRecord)
    } else {
        match field_text(d[index_of(d, k)].1, name) {
            Some(s) => r is Ok && r->Ok_0@ == s,
            None => r == Err::<String, StoreError>(StoreError::FieldMissing),
        }
    }
}

/// What reading clock `label` of day `k` gives: `NoRecord` for a missing
/// day, then `InvalidLabel` for an unknown label, else as `field_outcome`
/// for the clock's field.
pub open spec fn time_outcome(
    d: Seq<(Seq<char>, DayView)>,
    k: Seq<char>,
    label: Seq<char>,
    r: Result<String, StoreError>,
) -> bool {
    if !has_key(d, k) {
        r == Err::<String, StoreError>(StoreError::NoRecord)
    } else {
        match category_of(label) {
            None => r == Err::<String, StoreError>(StoreError::InvalidLabel),
            Some(c) => field_outcome(d, k, field_name(c), r),
        }
    }
}

/// With distinct keys, a position holding `k` is the position of `k`.
pub(crate) proof fn lemma_index_unique<V>(es: Seq<(Seq<char>, V)>, k: Seq<char>, i: int)
    requires
        keys_unique(es),
        key_at(es, k, i),
    ensures
        has_key(es, k),
        index_of(es, k) == i,
{
    let j = index_of(es, k);
    assert(key_at(es, k, j));
    if i != j {
        assert(es[i].0 != es[j].0);
    }
}

/// Two texts hold the same characters.
fn same_text(a: &str, b: &str) -> (r: bool)
    ensures
        r == (a@ == b@),
{
    let n = a.unicode_len();
    if n != b.unicode_len() {
        return false;
    }
    let mut i: usize = 0;
    while i < n
        invariant
            n == a@.len(),
            n == b@.len(),
            i <= n,
            forall|j: int| 0 <= j < i ==> a@[j] == b@[j],
        decreases n - i,
    {
        if a.get_char(i) != b.get_char(i) {
            return false;
        }
        i = i + 1;
    }
    assert(a@ =~= b@);
    true
}

/// The position of the entry whose key is `k`, if any.
fn find_key<V>(es: &Vec<(String, V)>, k: &str) -> (r: Option<usize>)
    ensures
        r matches Some(i) ==> i < es@.len() && es@[i as int].0@ == k@,
        r is None ==> forall|i: int| 0 <= i < es@.len() ==> (#[trigger] es@[i]).0@ != k@,
{
    let mut i: usize = 0;
    while i < es.len()
        invariant
            i <= es@.len(),
            forall|j: int| 0 <= j < i ==> (#[trigger] es@[j]).0@ != k@,
        decreases es@.len() - i,
    {
        if same_text(es[i].0.as_str(), k) {
            return Some(i);
        }
        i = i + 1;
    }
    None
}

/// Reads a label that is already in upper case: `WORK` or `REST` exactly.
pub fn category_of_uppercase(u: &str) -> (r: Option<Category>)
    ensures
        r == category_of_upper(u@),
{
    proof {
        reveal_strlit("WORK");
        reveal_strlit("REST");
    }
    assert("WORK"@ =~= seq!['W', 'O', 'R', 'K']);
    assert("REST"@ =~= seq!['R', 'E', 'S', 'T']);
    if same_text(u, "WORK") {
        Some(Category::Work)
    } else if same_text(u, "REST") {
        Some(Category::Rest)
    } else {
        None
    }
}

/// Reads a category label in any case: its upper-case form must be `WORK`
/// or `REST`.
pub fn parse_category(label: &str) -> (r: Option<Category>)
    ensures
        r == category_of(label@),
{
    let u = uppercase(label);
    category_of_uppercase(u.as_str())
}

/// The record field that holds a category's time.
fn field_key(c: Category) -> (r: String)
    ensures
        r@ == field_name(c),
{
    proof {
        reveal_strlit("work");
        reveal_strlit("relax");
    }
    match c {
        Category::Work => {
            let r = String::from_str("work");
            assert(r@ =~= field_name(c));
            r
        },
        Category::Rest => {
            let r = String::from_str("relax");
            assert(r@ =~= field_name(c));
            r
        },
    }
}

/// The record field that holds the task ratio.
fn tasks_key() -> (r: String)
    ensures
        r@ == tasks_name(),
{
    proof {
        reveal_strlit("tasks");
    }
    let r = String::from_str("tasks");
    assert(r@ =~= tasks_name());
    r
}

/// A new record with both clocks at `0:00` and the given task ratio.
fn fresh_fields(tasks: String) -> (r: Vec<(String, Field)>)
    ensures
        fields_view(r@) == fresh_record(tasks@),
        day_wf(DayView::Record(fresh_record(tasks@))),
{
    proof {
        reveal_strlit("0:00");
    }
    let zero1 = String::from_str("0:00");
    let zero2 = String::from_str("0:00");
    assert(zero1@ =~= zero_time());
    let mut r: Vec<(String, Field)> = Vec::new();
    r.push((field_key(Category::Work), Field::Text(zero1)));
    r.push((field_key(Category::Rest), Field::Text(zero2)));
    r.push((tasks_key(), Field::Text(tasks)));
    assert(fields_view(r@) =~= fresh_record(tasks@));
    let ghost fr = fresh_record(tasks@);
    assert(fr[0].0[0] != fr[1].0[0]);
    assert(fr[0].0[0] != fr[2].0[0]);
    assert(fr[1].0[0] != fr[2].0[0]);
    r
}

/// Replacing the entry at the position of its own key keeps keys distinct.
pub(crate) proof fn lemma_update_keeps_unique<V>(es: Seq<(Seq<char>, V)>, i: int, v: V)
    requires
        keys_unique(es),
        0 <= i < es.len(),
    ensures
        keys_unique(es.update(i, (es[i].0, v))),
{
    let u = es.update(i, (es[i].0, v));
    assert forall|a: int, b: int| 0 <= a < u.len() && 0 <= b < u.len() && a != b implies #[trigger] u[a].0 != #[trigger] u[b].0 by {
        assert(u[a].0 == es[a].0);
        assert(u[b].0 == es[b].0);
    }
}

/// Adding an entry under a new key keeps keys distinct.
pub(crate) proof fn lemma_push_keeps_unique<V>(es: Seq<(Seq<char>, V)>, k: Seq<char>, v: V)
    requires
        keys_unique(es),
        !has_key(es, k),
    ensures
        keys_unique(es.push((k, v))),
{
    let u = es.push((k, v));
    assert forall|a: int, b: int| 0 <= a < u.len() && 0 <= b < u.len() && a != b implies #[trigger] u[a].0 != #[trigger] u[b].0 by {
        if a == es.len() as int {
            assert(!key_at(es, k, b));
        } else if b == es.len() as int {
            assert(!key_at(es, k, a));
        }
    }
}

/// Replacing day `i` by a canonical day under the same key keeps the document
/// well formed.
proof fn lemma_update_day_wf(d: Seq<(Seq<char>, DayView)>, i: int, day: DayView)
    requires
        document_wf(d),
        0 <= i < d.len(),
        day_wf(day),
    ensures
        document_wf(d.update(i, (d[i].0, day))),
{
    lemma_update_keeps_unique(d, i, day);
    let u = d.update(i, (d[i].0, day));
    assert forall|j: int| 0 <= j < u.len() implies day_wf(#[trigger] u[j].1) by {
        if j != i {
            assert(u[j] == d[j]);
        }
    }
}

/// Adding a canonical day under a new key keeps the document well formed.
proof fn lemma_push_day_wf(d: Seq<(Seq<char>, DayView)>, k: Seq<char>, day: DayView)
    requires
        document_wf(d),
        !has_key(d, k),
        day_wf(day),
    ensures
        document_wf(d.push((k, day))),
{
    lemma_push_keeps_unique(d, k, day);
    let u = d.push((k, day));
    assert forall|j: int| 0 <= j < u.len() implies day_wf(#[trigger] u[j].1) by {
        if j < d.len() {
            assert(u[j] == d[j]);
        }
    }
}

/// Finds day `key` in a document: its position, or `None`.
fn find_day(doc: &Document, key: &str) -> (r: Option<usize>)
    requires
        doc.wf(),
    ensures
        r matches Some(i) ==> has_key(doc@, key@) && i == index_of(doc@, key@),
        r is None ==> !has_key(doc@, key@),
{
    let r = find_key(&doc.days, key);
    proof {
        match r {
            Some(i) => {
                assert(doc@[i as int].0 == doc.days@[i as int].0@);
                lemma_index_unique(doc@, key@, i as int);
            },
            None => {
                assert forall|i: int| !key_at(doc@, key@, i) by {
                    if 0 <= i < doc@.len() {
                        assert(doc@[i].0 == doc.days@[i].0@);
                    }
                }
            },
        }
    }
    r
}

/// Finds field `name` in a record: its position, or `None`.
fn find_field(fs: &Vec<(String, Field)>, name: &str) -> (r: Option<usize>)
    requires
        keys_unique(fields_view(fs@)),
    ensures
        r matches Some(i) ==> has_key(fields_view(fs@), name@) && i == index_of(fields_view(fs@), name@),
        r is None ==> !has_key(fields_view(fs@), name@),
{
    let r = find_key(fs, name);
    proof {
        let v = fields_view(fs@);
        match r {
            Some(i) => {
                assert(v[i as int].0 == fs@[i as int].0@);
                lemma_index_unique(v, name@, i as int);
            },
            None => {
                assert forall|i: int| !key_at(v, name@, i) by {
                    if 0 <= i < v.len() {
                        assert(v[i].0 == fs@[i].0@);
                    }
                }
            },
        }
    }
    r
}

/// The string held in field `name` of a day.
fn day_field_text(d: &Day, name: &str) -> (r: Option<String>)
    requires
        day_wf(d.view()),
    ensures
        r matches Some(s) ==> field_text(d.view(), name@) == Some(s@),
        r is None ==> field_text(d.view(), name@) is None,
{
    match d {
        Day::Record(fs) => match find_field(fs, name) {
            Some(j) => match &fs[j].1 {
                Field::Text(s) => Some(s.clone()),
                Field::Other(_) => None,
            },
            None => None,
        },
        Day::Other(_) => None,
    }
}

impl Document {
    /// Whether the document has a day under `key`.
    pub fn has_day(&self, key: &str) -> (r: bool)
        requires
            self.wf(),
        ensures
            r == has_key(self@, key@),
    {
        find_day(self, key).is_some()
    }

    /// Makes sure that day `key` has a record: adds a fresh one (clocks at
    /// `0:00`, tasks `0/0`) at the end when there is none, and leaves the
    /// document as it is otherwise. Returns whether a record was added.
    pub fn ensure_record(&mut self, key: &str) -> (r: bool)
        requires
            old(self).wf(),
        ensures
            final(self)@ == with_record(old(self)@, key@),
            r == !has_key(old(self)@, key@),
            final(self).wf(),
    {
        match find_day(self, key) {
            Some(_) => false,
            None => {
                proof {
                    reveal_strlit("0/0");
                }
                let t = String::from_str("0/0");
                assert(t@ =~= seq!['0', '/', '0']);
                let fs = fresh_fields(t);
                let ghost before = self@;
                self.days.push((String::from_str(key), Day::Record(fs)));
                assert(self@ =~= before.push((key@, DayView::Record(fresh_record(seq!['0', '/', '0'])))));
                proof {
                    lemma_push_day_wf(before, key@, DayView::Record(fresh_record(seq!['0', '/', '0'])));
                }
                true
            },
        }
    }

    /// Moves the clock that `label` names (its upper-case form is `WORK` or `REST`)
    /// of day `key` on by one minute. Fails with `InvalidLabel` for any other
    /// label, then with `NoRecord` when the day has no entry and with
    /// `MalformedRecord` when its entry is not a record, each time leaving the
    /// document as it was. A clock field that is absent or not a string is
    /// left alone.
    pub fn increment_time(&mut self, key: &str, label: &str) -> (r: Result<(), StoreError>)
        requires
            old(self).wf(),
        ensures
            final(self).wf(),
            increment_outcome(old(self)@, final(self)@, key@, label@, r),
    {
        let c = match parse_category(label) {
            Some(c) => c,
            None => return Err(StoreError::InvalidLabel),
        };
        let i = match find_day(self, key) {
            Some(i) => i,
            None => return Err(StoreError::NoRecord),
        };
        let ghost d0 = self@;
        assert(d0[i as int] == (self.days@[i as int].0@, self.days@[i as int].1.view()));
        assert(day_wf(d0[i as int].1));
        let ghost before = self.days@;
        let (k, day) = self.days.remove(i);
        let mut fs = match day {
            Day::Record(fs) => fs,
            Day::Other(v) => {
                self.days.insert(i, (k, Day::Other(v)));
                assert(self.days@ =~= before);
                return Err(StoreError::MalformedRecord);
            },
        };
        let ghost f0 = fields_view(fs@);
        let name = field_key(c);
        match find_field(&fs, name.as_str()) {
            Some(j) => {
                let next = match &fs[j].1 {
                    Field::Text(t) => Some(incremented_time(t.as_str())),
                    Field::Other(_) => None,
                };
                match next {
                    Some(t) => {
                        let ghost fb = fs@;
                        fs.set(j, (name, Field::Text(t)));
                        assert(fields_view(fs@) =~= tick_field(f0, field_name(c)));
                        proof {
                            lemma_update_keeps_unique(f0, j as int, FieldView::Text(t@));
                            assert forall|m: int| 0 <= m < fields_view(fs@).len() implies field_wf(
                                #[trigger] fields_view(fs@)[m].1,
                            ) by {
                                if m != j {
                                    assert(fields_view(fs@)[m] == f0[m]);
                                }
                            }
                        }
                    },
                    None => {},
                }
            },
            None => {},
        }
        let ghost nd = DayView::Record(fields_view(fs@));
        assert(fields_view(fs@) == tick_field(f0, field_name(c)));
        self.days.insert(i, (k, Day::Record(fs)));
        assert(self@ =~= d0.update(i as int, (key@, nd)));
        proof {
            lemma_update_day_wf(d0, i as int, nd);
        }
        Ok(())
    }

    /// The time on the clock that `label` names, for day `key`. Fails with
    /// `NoRecord` when the day has no entry, then with `InvalidLabel` for a
    /// label whose upper-case form is not `WORK` or `REST`, and with
    /// `FieldMissing` when the entry is not a record or its clock field is
    /// absent or not a string.
    pub fn get_time(&self, key: &str, label: &str) -> (r: Result<String, StoreError>)
        requires
            self.wf(),
        ensures
            time_outcome(self@, key@, label@, r),
    {
        if !self.has_day(key) {
            return Err(StoreError::NoRecord);
        }
        let c = match parse_category(label) {
            Some(c) => c,
            None => return Err(StoreError::InvalidLabel),
        };
        let name = field_key(c);
        self.field_of_day(key, name.as_str())
    }

    /// The task ratio of day `key`. Fails with `NoRecord` when the day has no
    /// entry, and with `FieldMissing` when the entry is not a record or its
    /// `tasks` field is absent or not a string.
    pub fn get_tasks(&self, key: &str) -> (r: Result<String, StoreError>)
        requires
            self.wf(),
        ensures
            field_outcome(self@, key@, tasks_name(), r),
    {
        let name = tasks_key();
        self.field_of_day(key, name.as_str())
    }

    /// The string in field `name` of day `key`.
    fn field_of_day(&self, key: &str, name: &str) -> (r: Result<String, StoreError>)
        requires
            self.wf(),
        ensures
            field_outcome(self@, key@, name@, r),
    {
        match find_day(self, key) {
            Some(i) => {
                assert(self@[i as int] == (self.days@[i as int].0@, self.days@[i as int].1.view()));
                assert(day_wf(self@[i as int].1));
                match day_field_text(&self.days[i].1, name) {
                    Some(s) => Ok(s),
                    None => Err(StoreError::FieldMissing),
                }
            },
            None => Err(StoreError::NoRecord),
        }
    }

    /// Sets the task ratio of day `key` to `completed/total`. A day with no
    /// entry gets a fresh record at the end (clocks at `0:00`); an entry that
    /// is not a record fails with `MalformedRecord` and is left as it was;
    /// otherwise the `tasks` field is overwritten in place, or added at the
    /// end of the record, and the other fields are kept.
    pub fn set_tasks(&mut self, key: &str, completed: u32, total: u32) -> (r: Result<(), StoreError>)
        requires
            old(self).wf(),
        ensures
            tasks_outcome(old(self)@, final(self)@, key@, ratio_text(completed as nat, total as nat), r),
            final(self).wf(),
    {
        let ratio = tasks_text(completed, total);
        let ghost rv = ratio@;
        let ghost d0 = self@;
        match find_day(self, key) {
            None => {
                let fs = fresh_fields(ratio);
                self.days.push((String::from_str(key), Day::Record(fs)));
                assert(self@ =~= d0.push((key@, DayView::Record(fresh_record(rv)))));
                proof {
                    lemma_push_day_wf(d0, key@, DayView::Record(fresh_record(rv)));
                }
                Ok(())
            },
            Some(i) => {
                assert(d0[i as int] == (self.days@[i as int].0@, self.days@[i as int].1.view()));
                assert(day_wf(d0[i as int].1));
                let ghost before = self.days@;
                let (k, day) = self.days.remove(i);
                let nd = match day {
                    Day::Other(v) => {
                        self.days.insert(i, (k, Day::Other(v)));
                        assert(self.days@ =~= before);
                        return Err(StoreError::MalformedRecord);
                    },
                    Day::Record(mut fs) => {
                        let ghost f0 = fields_view(fs@);
                        let name = tasks_key();
                        match find_field(&fs, name.as_str()) {
                            Some(j) => {
                                fs.set(j, (name, Field::Text(ratio)));
                                assert(fields_view(fs@) =~= f0.update(j as int, (tasks_name(), FieldView::Text(rv))));
                                proof {
                                    lemma_update_keeps_unique(f0, j as int, FieldView::Text(rv));
                                }
                            },
                            None => {
                                fs.push((name, Field::Text(ratio)));
                                assert(fields_view(fs@) =~= f0.push((tasks_name(), FieldView::Text(rv))));
                                proof {
                                    lemma_push_keeps_unique(f0, tasks_name(), FieldView::Text(rv));
                                }
                            },
                        }
                        assert(fields_view(fs@) == set_field(f0, tasks_name(), FieldView::Text(rv)));
                        assert forall|m: int| 0 <= m < fields_view(fs@).len() implies field_wf(
                            #[trigger] fields_view(fs@)[m].1,
                        ) by {
                            if m < f0.len() && fields_view(fs@)[m].0 != tasks_name() {
                                assert(fields_view(fs@)[m] == f0[m]);
                            }
                        }
                        Day::Record(fs)
                    },
                };
                let ghost ndv = nd.view();
                self.days.insert(i, (k, nd));
                assert(self@ =~= d0.update(i as int, (key@, ndv)));
                proof {
                    lemma_update_day_wf(d0, i as int, ndv);
                }
                Ok(())
            },
        }
    }

}

} // verus!
