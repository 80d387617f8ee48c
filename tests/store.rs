use timetrack::store::{
    add_today_date, check_today_exists, get_today_tasks, get_today_time, increment_today_time,
    update_today_tasks,
};
use timetrack::{
    category_of_uppercase, format_time, incremented_time, next_time, parse_category, parse_time, parse_u32_or_zero,
    tasks_text, Category, Day, Document, Field, StoreError,
};

const DAY: &str = "01.01.2024";

fn doc(text: &str) -> Document {
    match Document::from_text(text) {
        Ok(d) => d,
        Err(e) => panic!("document did not load: {:?}", e),
    }
}

fn text_of(d: Document) -> String {
    d.to_text()
}

fn record(work: &str) -> Document {
    doc(&format!(
        "{{\"{}\": {{\"work\": \"{}\", \"relax\": \"0:00\", \"tasks\": \"0/0\"}}}}",
        DAY, work
    ))
}

#[test]
fn increment_wraps_minutes_and_carries_hours() {
    for h in [0u64, 1, 9, 10, 123] {
        for m in 0u64..60 {
            let (h2, m2) = next_time(h, m);
            assert_eq!(m2, (m + 1) % 60);
            assert_eq!(h2, h + (m + 1) / 60);
            let stored = format_time(h, m);
            assert_eq!(incremented_time(&stored), format_time(h2, m2));
        }
    }
    assert_eq!(incremented_time("1:59"), "2:00");
    assert_eq!(incremented_time("0:05"), "0:06");
    assert_eq!(incremented_time("12:30"), "12:31");
}

#[test]
fn time_format_and_parse() {
    assert_eq!(format_time(0, 0), "0:00");
    assert_eq!(format_time(1, 5), "1:05");
    assert_eq!(format_time(100, 59), "100:59");
    assert_eq!(parse_time("3:07"), (3, 7));
    assert_eq!(parse_time("3:07:45"), (3, 7));
    assert_eq!(parse_time("7"), (7, 0));
    assert_eq!(parse_time("x:y"), (0, 0));
    assert_eq!(parse_time(""), (0, 0));
}

#[test]
fn permissive_number_parse() {
    assert_eq!(parse_u32_or_zero("42"), 42);
    assert_eq!(parse_u32_or_zero("+42"), 42);
    assert_eq!(parse_u32_or_zero("007"), 7);
    assert_eq!(parse_u32_or_zero("4294967295"), 4294967295);
    assert_eq!(parse_u32_or_zero("4294967296"), 0);
    assert_eq!(parse_u32_or_zero("-1"), 0);
    assert_eq!(parse_u32_or_zero("+"), 0);
    assert_eq!(parse_u32_or_zero(""), 0);
    assert_eq!(parse_u32_or_zero("1a"), 0);
    assert_eq!(incremented_time("abc"), "0:01");
    assert_eq!(incremented_time("5"), "5:01");
    assert_eq!(incremented_time("+3:x"), "3:01");
}

#[test]
fn labels_ignore_case() {
    assert_eq!(parse_category("work"), Some(Category::Work));
    assert_eq!(parse_category("WORK"), Some(Category::Work));
    assert_eq!(parse_category("Work"), Some(Category::Work));
    assert_eq!(parse_category("rEsT"), Some(Category::Rest));
    assert_eq!(parse_category("re\u{17f}t"), Some(Category::Rest));
    assert_eq!(parse_category("re\u{fb06}"), Some(Category::Rest));
    assert_eq!(category_of_uppercase("WORK"), Some(Category::Work));
    assert_eq!(category_of_uppercase("REST"), Some(Category::Rest));
    assert_eq!(category_of_uppercase("work"), None);
    assert_eq!(category_of_uppercase("RELAX"), None);
    assert_eq!(parse_category("BREAK"), None);
    assert_eq!(parse_category("relax"), None);
    assert_eq!(parse_category(""), None);
    let mut outs = Vec::new();
    for label in ["work", "WORK", "Work"] {
        let mut d = record("0:10");
        assert_eq!(d.increment_time(DAY, label), Ok(()));
        outs.push(text_of(d));
    }
    assert_eq!(outs[0], outs[1]);
    assert_eq!(outs[1], outs[2]);
}

#[test]
fn invalid_label_leaves_document_unchanged() {
    let before = text_of(record("0:10"));
    let mut d = record("0:10");
    assert_eq!(d.increment_time(DAY, "BREAK"), Err(StoreError::InvalidLabel));
    assert_eq!(text_of(d), before);
    let mut empty = Document::new();
    assert_eq!(empty.increment_time(DAY, "BREAK"), Err(StoreError::InvalidLabel));
    assert_eq!(record("0:10").get_time(DAY, "BREAK"), Err(StoreError::InvalidLabel));
    assert_eq!(Document::new().get_time(DAY, "BREAK"), Err(StoreError::NoRecord));
}

#[test]
fn set_tasks_then_get_tasks() {
    let mut d = record("0:10");
    assert_eq!(d.set_tasks(DAY, 3, 5), Ok(()));
    assert_eq!(d.get_tasks(DAY), Ok("3/5".to_string()));
    assert_eq!(d.get_time(DAY, "work"), Ok("0:10".to_string()));
    assert_eq!(tasks_text(3, 5), "3/5");
    assert_eq!(tasks_text(4294967295, 0), "4294967295/0");
}

#[test]
fn ensure_record_is_idempotent() {
    let mut d = Document::new();
    assert!(d.ensure_record(DAY));
    let once = text_of(doc(&text_of(d)));
    let mut d = doc(&once);
    assert!(!d.ensure_record(DAY));
    assert_eq!(text_of(d), once);
}

#[test]
fn save_then_load_gives_the_same_document() {
    let stored = "{\"02.01.2024\": {\"work\": \"1:00\", \"relax\": 5, \"tasks\": \"1/2\", \"note\": [1, 2]}, \
        \"01.01.2024\": {\"work\": \"0:30\", \"relax\": \"0:15\", \"tasks\": \"0/0\"}, \"meta\": 3}";
    let first = text_of(doc(stored));
    let second = text_of(doc(&first));
    assert_eq!(first, second);
    let v: serde_json::Value = serde_json::from_str(&first).unwrap();
    let w: serde_json::Value = serde_json::from_str(stored).unwrap();
    assert_eq!(v, w);
    let keys: Vec<&String> = v.as_object().unwrap().keys().collect();
    assert_eq!(keys, vec!["02.01.2024", "01.01.2024", "meta"]);
    let d = Document::from_json(doc(stored).to_json()).expect("reads back");
    assert_eq!(text_of(d), first);
}

#[test]
fn empty_store_then_today_record() {
    let mut d = doc("{}");
    assert!(!d.has_day(DAY));
    assert!(d.ensure_record(DAY));
    assert!(d.has_day(DAY));
    assert_eq!(d.get_time(DAY, "work"), Ok("0:00".to_string()));
    assert_eq!(d.get_time(DAY, "REST"), Ok("0:00".to_string()));
    assert_eq!(d.get_tasks(DAY), Ok("0/0".to_string()));
}

#[test]
fn increment_at_fifty_nine_minutes() {
    let mut d = record("0:59");
    assert_eq!(d.increment_time(DAY, "work"), Ok(()));
    assert_eq!(d.get_time(DAY, "work"), Ok("1:00".to_string()));
    assert_eq!(d.get_time(DAY, "rest"), Ok("0:00".to_string()));
}

#[test]
fn set_tasks_creates_missing_record() {
    let mut d = Document::new();
    assert_eq!(d.set_tasks(DAY, 0, 0), Ok(()));
    assert_eq!(d.get_tasks(DAY), Ok("0/0".to_string()));
    assert_eq!(d.get_time(DAY, "work"), Ok("0:00".to_string()));
    assert_eq!(d.get_time(DAY, "rest"), Ok("0:00".to_string()));
    let mut other = doc("{\"01.01.2024\": 7}");
    let before = text_of(doc("{\"01.01.2024\": 7}"));
    assert_eq!(other.set_tasks(DAY, 2, 9), Err(StoreError::MalformedRecord));
    assert_eq!(text_of(other), before);
    let mut partial = doc("{\"01.01.2024\": {\"work\": \"2:00\"}}");
    assert_eq!(partial.set_tasks(DAY, 1, 1), Ok(()));
    assert_eq!(
        text_of(partial),
        text_of(doc("{\"01.01.2024\": {\"work\": \"2:00\", \"tasks\": \"1/1\"}}"))
    );
}

#[test]
fn invalid_json_is_a_parse_error() {
    assert!(matches!(Document::from_text("{not json"), Err(StoreError::Parse(_))));
    assert!(matches!(Document::from_text(""), Err(StoreError::Parse(_))));
    assert!(matches!(Document::from_text("[1, 2]"), Err(StoreError::Parse(_))));
    assert!(matches!(Document::from_text("\"x\""), Err(StoreError::Parse(_))));
}

#[test]
fn missing_and_malformed_records() {
    let mut d = Document::new();
    assert_eq!(d.increment_time(DAY, "work"), Err(StoreError::NoRecord));
    assert_eq!(d.get_time(DAY, "work"), Err(StoreError::NoRecord));
    assert_eq!(d.get_tasks(DAY), Err(StoreError::NoRecord));
    let mut bad = doc("{\"01.01.2024\": \"oops\"}");
    assert_eq!(bad.increment_time(DAY, "work"), Err(StoreError::MalformedRecord));
    assert_eq!(bad.get_time(DAY, "work"), Err(StoreError::FieldMissing));
    assert_eq!(bad.get_tasks(DAY), Err(StoreError::FieldMissing));
    let mut odd = doc("{\"01.01.2024\": {\"work\": 12, \"tasks\": null}}");
    let before = text_of(doc("{\"01.01.2024\": {\"work\": 12, \"tasks\": null}}"));
    assert_eq!(odd.increment_time(DAY, "work"), Ok(()));
    assert_eq!(odd.increment_time(DAY, "rest"), Ok(()));
    assert_eq!(odd.get_time(DAY, "work"), Err(StoreError::FieldMissing));
    assert_eq!(odd.get_tasks(DAY), Err(StoreError::FieldMissing));
    assert_eq!(text_of(odd), before);
}

#[test]
fn fields_are_strings_or_kept_json() {
    let d = doc("{\"01.01.2024\": {\"work\": \"0:01\", \"relax\": true}, \"x\": 1}");
    assert_eq!(d.days.len(), 2);
    match &d.days[0].1 {
        Day::Record(fs) => {
            assert!(matches!(&fs[0].1, Field::Text(s) if s == "0:01"));
            assert!(matches!(&fs[1].1, Field::Other(serde_json::Value::Bool(true))));
        }
        Day::Other(_) => panic!("expected a record"),
    }
    assert!(matches!(&d.days[1].1, Day::Other(_)));
}

#[test]
fn stored_text_operations_reject_invalid_json() {
    let bad = "{oops";
    assert!(matches!(check_today_exists(bad, DAY), Err(StoreError::Parse(_))));
    assert!(matches!(add_today_date(bad, DAY), Err(StoreError::Parse(_))));
    assert!(matches!(increment_today_time(bad, DAY, "work"), Err(StoreError::Parse(_))));
    assert!(matches!(get_today_time(bad, DAY, "work"), Err(StoreError::Parse(_))));
    assert!(matches!(get_today_tasks(bad, DAY), Err(StoreError::Parse(_))));
    assert!(matches!(update_today_tasks(bad, DAY, 1, 2), Err(StoreError::Parse(_))));
    assert!(matches!(check_today_exists("[]", DAY), Err(StoreError::Parse(_))));
    match check_today_exists(bad, DAY) {
        Err(StoreError::Parse(detail)) => assert!(detail.contains("line 1")),
        other => panic!("expected a parse error, got {:?}", other),
    }
}

#[test]
fn stored_text_operations_round() {
    assert_eq!(check_today_exists("{}", DAY), Ok(false));
    assert_eq!(get_today_time("{}", DAY, "BREAK"), Err(StoreError::NoRecord));
    let text = add_today_date("{}", DAY).unwrap().expect("a record is added");
    assert_eq!(check_today_exists(&text, DAY), Ok(true));
    assert_eq!(check_today_exists(&text, "02.01.2024"), Ok(false));
    assert_eq!(add_today_date(&text, DAY), Ok(None));
    assert_eq!(get_today_time(&text, DAY, "work"), Ok("0:00".to_string()));
    assert_eq!(get_today_time(&text, DAY, "BREAK"), Err(StoreError::InvalidLabel));
    assert_eq!(increment_today_time(&text, DAY, "BREAK"), Err(StoreError::InvalidLabel));
    assert_eq!(increment_today_time(&text, "02.01.2024", "work"), Err(StoreError::NoRecord));
    let text = increment_today_time(&text, DAY, "Work").unwrap();
    assert_eq!(get_today_time(&text, DAY, "WORK"), Ok("0:01".to_string()));
    let text = update_today_tasks(&text, DAY, 3, 5).unwrap();
    assert_eq!(get_today_tasks(&text, DAY), Ok("3/5".to_string()));
    assert_eq!(get_today_time(&text, DAY, "work"), Ok("0:01".to_string()));
    assert_eq!(update_today_tasks("{\"01.01.2024\": 1}", DAY, 1, 1), Err(StoreError::MalformedRecord));
}
