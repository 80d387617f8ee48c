//! The in-memory document: days keyed by date, each holding a record of
//! fields, with anything unrecognised carried through as JSON.

use vstd::prelude::*;
use crate::json::{
    entries_in, entries_view, error_detail, keys_unique, object_json, parsed_json, pretty_json, print_json,
    parse_json, string_in, string_json, take_entries, take_string,
};

verus! {

/// Why an operation on the store failed.
#[derive(Debug, Clone, PartialEq, Eq)]
pub enum StoreError {
    /// The document text is not a JSON object: what the parser reported.
    Parse(String),
    /// There is no record for the requested day.
    NoRecord,
    /// The category label is neither `WORK` nor `REST`.
    InvalidLabel,
    /// The day's entry is not a record (not a JSON object).
    MalformedRecord,
    /// The requested field is absent or is not a string.
    FieldMissing,
}

/// The value of one field of a day record.
pub enum Field {
    /// A string value, such as `"1:05"` or `"3/5"`.
    Text(String),
    /// Any other JSON value, kept as it was.
    Other(serde_json::Value),
}

/// What a document holds under one date key.
pub enum Day {
    /// A record: its fields in their order.
    Record(Vec<(String, Field)>),
    /// Any JSON value that is not an object, kept as it was.
    Other(serde_json::Value),
}

/// The whole document: date keys and their days, in their order.
pub struct Document {
    pub days: Vec<(String, Day)>,
}

/// The model of a field value.
pub enum FieldView {
    Text(Seq<char>),
    Other(serde_json::Value),
}

/// The model of a day.
pub enum DayView {
    Record(Seq<(Seq<char>, FieldView)>),
    Other(serde_json::Value),
}

impl Field {
    pub open spec fn view(&self) -> FieldView {
        match self {
            Field::Text(s) => FieldView::Text(s@),
            Field::Other(v) => FieldView::Other(*v),
        }
    }
}

/// The model of a record's fields.
pub open spec fn fields_view(fs: Seq<(String, Field)>) -> Seq<(Seq<char>, FieldView)> {
    fs.map_values(|f: (String, Field)| (f.0@, f.1.view()))
}

impl Day {
    pub open spec fn view(&self) -> DayView {
        match self {
            Day::Record(fs) => DayView::Record(fields_view(fs@)),
            Day::Other(v) => DayView::Other(*v),
        }
    }
}

/// The model of a document's days.
pub open spec fn days_view(ds: Seq<(String, Day)>) -> Seq<(Seq<char>, DayView)> {
    ds.map_values(|d: (String, Day)| (d.0@, d.1.view()))
}

impl View for Document {
    type V = Seq<(Seq<char>, DayView)>;

    open spec fn view(&self) -> Seq<(Seq<char>, DayView)> {
        days_view(self.days@)
    }
}

/// How a JSON value reads as a field.
pub open spec fn field_of_json(v: serde_json::Value) -> FieldView {
    match string_in(v) {
        Some(s) => FieldView::Text(s),
        None => FieldView::Other(v),
    }
}

/// How a JSON value reads as a day.
pub open spec fn day_of_json(v: serde_json::Value) -> DayView {
    match entries_in(v) {
        Some(es) => DayView::Record(
            es.map_values(|e: (Seq<char>, serde_json::Value)| (e.0, field_of_json(e.1))),
        ),
        None => DayView::Other(v),
    }
}

/// How a JSON value reads as a document: `None` unless it is an object.
pub open spec fn document_of_json(v: serde_json::Value) -> Option<Seq<(Seq<char>, DayView)>> {
    match entries_in(v) {
        Some(es) => Some(
            es.map_values(|e: (Seq<char>, serde_json::Value)| (e.0, day_of_json(e.1))),
        ),
        None => None,
    }
}

/// How a document text reads: `None` unless it is valid JSON holding an object.
pub open spec fn document_of_text(t: Seq<char>) -> Option<Seq<(Seq<char>, DayView)>> {
    match parsed_json(t) {
        Some(v) => document_of_json(v),
        None => None,
    }
}

/// `t` is the printed text of a JSON value that reads as the document `d`.
pub open spec fn renders(t: Seq<char>, d: Seq<(Seq<char>, DayView)>) -> bool {
    exists|v: serde_json::Value| document_of_json(v) == Some(d) && t == #[trigger] pretty_json(v)
}

/// A field is in canonical form: a value kept as other JSON is not a string.
pub open spec fn field_wf(f: FieldView) -> bool {
    match f {
        FieldView::Text(_) => true,
        FieldView::Other(v) => string_in(v) is None,
    }
}

/// A day is in canonical form: its field names are distinct and its fields
/// canonical, or, kept as other JSON, it is not an object.
pub open spec fn day_wf(d: DayView) -> bool {
    match d {
        DayView::Record(fs) => keys_unique(fs) && forall|i: int|
            0 <= i < fs.len() ==> field_wf(#[trigger] fs[i].1),
        DayView::Other(v) => entries_in(v) is None,
    }
}

/// A document is well formed: its date keys are distinct and its days canonical.
pub open spec fn document_wf(ds: Seq<(Seq<char>, DayView)>) -> bool {
    keys_unique(ds) && forall|i: int| 0 <= i < ds.len() ==> day_wf(#[trigger] ds[i].1)
}

impl Document {
    pub open spec fn wf(&self) -> bool {
        document_wf(self@)
    }

    /// An empty document.
    pub fn new() -> (r: Document)
        ensures
            r@ == Seq::<(Seq<char>, DayView)>::empty(),
            r.wf(),
    {
        let r = Document { days: Vec::new() };
        assert(r@ =~= Seq::<(Seq<char>, DayView)>::empty());
        r
    }
}

/// Reads a JSON value as a field.
fn field_from_json(v: serde_json::Value) -> (r: Field)
    ensures
        r.view() == field_of_json(v),
        field_wf(r.view()),
{
    match take_string(v) {
        Ok(s) => Field::Text(s),
        Err(w) => Field::Other(w),
    }
}

/// Keys copied position by position from a list with distinct keys are
/// distinct.
proof fn lemma_keys_carried<V, W>(src: Seq<(Seq<char>, V)>, out: Seq<(Seq<char>, W)>)
    requires
        keys_unique(src),
        out.len() == src.len(),
        forall|i: int| 0 <= i < out.len() ==> #[trigger] out[i].0 == src[i].0,
    ensures
        keys_unique(out),
{
    assert forall|i: int, j: int| 0 <= i < out.len() && 0 <= j < out.len() && i != j implies #[trigger] out[i].0
        != #[trigger] out[j].0 by {
        assert(out[i].0 == src[i].0);
        assert(out[j].0 == src[j].0);
    }
}

/// Converts the value of each entry with `f`, keeping keys and order.
fn convert_entries<A, B, F: Fn(A) -> B>(es: Vec<(String, A)>, f: F) -> (r: Vec<(String, B)>)
    requires
        forall|i: int| 0 <= i < es@.len() ==> f.requires((#[trigger] es@[i].1,)),
    ensures
        r@.len() == es@.len(),
        forall|i: int| 0 <= i < es@.len() ==> (#[trigger] r@[i]).0 == es@[i].0 && f.ensures((es@[i].1,), r@[i].1),
{
    let ghost src = es@;
    let n = es.len();
    let mut es = es;
    let mut out: Vec<(String, B)> = Vec::new();
    while es.len() > 0
        invariant
            out@.len() + es@.len() == n,
            n == src.len(),
            es@ == src.subrange(out@.len() as int, n as int),
            forall|i: int| 0 <= i < n ==> f.requires((#[trigger] src[i].1,)),
            forall|i: int| 0 <= i < out@.len() ==> (#[trigger] out@[i]).0 == src[i].0 && f.ensures((src[i].1,), out@[i].1),
        decreases es@.len(),
    {
        let ghost i = out@.len() as int;
        assert(es@[0] == src[i]);
        let (k, v) = es.remove(0);
        let w = f(v);
        out.push((k, w));
        assert(es@ =~= src.subrange(i + 1, n as int));
    }
    out
}

/// Reads a JSON value as a day.
fn day_from_json(v: serde_json::Value) -> (r: Day)
    ensures
        r.view() == day_of_json(v),
        day_wf(r.view()),
{
    match take_entries(v) {
        Ok(es) => {
            let ghost src = entries_view(es@);
            let ghost raw = es@;
            let fs = convert_entries(es, field_from_json);
            assert forall|i: int| 0 <= i < fs@.len() implies #[trigger] fields_view(fs@)[i] == (
                src[i].0,
                field_of_json(src[i].1),
            ) && field_wf(fields_view(fs@)[i].1) by {
                assert(fs@[i].0 == raw[i].0);
            }
            assert(fields_view(fs@) =~= src.map_values(
                |e: (Seq<char>, serde_json::Value)| (e.0, field_of_json(e.1)),
            ));
            proof {
                lemma_keys_carried(src, fields_view(fs@));
            }
            Day::Record(fs)
        },
        Err(w) => Day::Other(w),
    }
}

/// Writes a field as a JSON value.
fn field_to_json(f: Field) -> (r: serde_json::Value)
    requires
        field_wf(f.view()),
    ensures
        field_of_json(r) == f.view(),
{
    match f {
        Field::Text(s) => string_json(s),
        Field::Other(v) => v,
    }
}

/// Writes a day as a JSON value.
fn day_to_json(d: Day) -> (r: serde_json::Value)
    requires
        day_wf(d.view()),
    ensures
        day_of_json(r) == d.view(),
{
    match d {
        Day::Record(fs) => {
            let ghost src = fields_view(fs@);
            let ghost raw = fs@;
            assert forall|i: int| 0 <= i < raw.len() implies field_wf((#[trigger] raw[i]).1.view()) by {
                assert(src[i].1 == raw[i].1.view());
            }
            let es = convert_entries(fs, field_to_json);
            assert forall|i: int| 0 <= i < es@.len() implies #[trigger] entries_view(es@)[i].0 == src[i].0
                && field_of_json(entries_view(es@)[i].1) == src[i].1 by {
                assert(es@[i].0 == raw[i].0);
            }
            proof {
                lemma_keys_carried(src, entries_view(es@));
            }
            let ghost ev = entries_view(es@);
            let r = object_json(es);
            assert(ev.map_values(|e: (Seq<char>, serde_json::Value)| (e.0, field_of_json(e.1))) =~= src);
            r
        },
        Day::Other(v) => v,
    }
}

impl Document {
    /// Reads a JSON value as a document; fails with `Parse` unless it is an object.
    pub fn from_json(v: serde_json::Value) -> (r: Result<Document, StoreError>)
        ensures
            r is Ok <==> document_of_json(v) is Some,
            r is Ok ==> r->Ok_0@ == document_of_json(v)->0 && r->Ok_0.wf(),
            r is Err ==> r->Err_0 is Parse,
    {
        match take_entries(v) {
            Ok(es) => {
                let ghost src = entries_view(es@);
                let ghost raw = es@;
                let ds = convert_entries(es, day_from_json);
                let doc = Document { days: ds };
                assert forall|i: int| 0 <= i < doc@.len() implies #[trigger] doc@[i] == (
                    src[i].0,
                    day_of_json(src[i].1),
                ) && day_wf(doc@[i].1) by {
                    assert(ds@[i].0 == raw[i].0);
                }
                assert(doc@ =~= src.map_values(
                    |e: (Seq<char>, serde_json::Value)| (e.0, day_of_json(e.1)),
                ));
                proof {
                    lemma_keys_carried(src, doc@);
                }
                Ok(doc)
            },
            Err(_) => Err(StoreError::Parse(String::from_str("the document is not a JSON object"))),
        }
    }

    /// Writes the document as a JSON object that reads back as the same document.
    pub fn to_json(self) -> (r: serde_json::Value)
        requires
            self.wf(),
        ensures
            document_of_json(r) == Some(self@),
    {
        let ghost src = self@;
        let ghost raw = self.days@;
        assert forall|i: int| 0 <= i < raw.len() implies day_wf((#[trigger] raw[i]).1.view()) by {
            assert(src[i].1 == raw[i].1.view());
        }
        let es = convert_entries(self.days, day_to_json);
        assert forall|i: int| 0 <= i < es@.len() implies #[trigger] entries_view(es@)[i].0 == src[i].0
            && day_of_json(entries_view(es@)[i].1) == src[i].1 by {
            assert(es@[i].0 == raw[i].0);
        }
        proof {
            lemma_keys_carried(src, entries_view(es@));
        }
        let ghost ev = entries_view(es@);
        let r = object_json(es);
        assert(ev.map_values(|e: (Seq<char>, serde_json::Value)| (e.0, day_of_json(e.1))) =~= src);
        r
    }

    /// Reads a document from its text: fails with `Parse` unless the text is
    /// valid JSON holding an object.
    pub fn from_text(t: &str) -> (r: Result<Document, StoreError>)
        ensures
            r is Ok <==> document_of_text(t@) is Some,
            r is Ok ==> r->Ok_0@ == document_of_text(t@)->0 && r->Ok_0.wf(),
            r is Err ==> r->Err_0 is Parse,
    {
        match parse_json(t) {
            Ok(v) => Document::from_json(v),
            Err(e) => Err(StoreError::Parse(error_detail(&e))),
        }
    }

    /// Writes the document as pretty-printed JSON text, of a value that reads
    /// back as the same document.
    pub fn to_text(self) -> (r: String)
        requires
            self.wf(),
        ensures
            renders(r@, self@),
    {
        let v = self.to_json();
        match print_json(&v) {
            Ok(t) => t,
            Err(_) => String::new(),
        }
    }
}

} // verus!
