use diary_tui::date::Date;
use diary_tui::storage::DiaryStorage;

fn d(y: i32, m: u32, day: u32) -> Date {
    Date::from_ymd(y, m, day).unwrap()
}

#[test]
fn new_store_has_no_entries() {
    let store = DiaryStorage::new();
    assert!(!store.has_entry(&d(2024, 5, 15)));
    assert_eq!(store.get_entry(&d(2024, 5, 15)), None);
}

#[test]
fn set_then_get_returns_the_text() {
    let mut store = DiaryStorage::new();
    store.set_entry(d(2024, 5, 15), String::from("wrote some Verus"));
    assert!(store.has_entry(&d(2024, 5, 15)));
    assert_eq!(
        store.get_entry(&d(2024, 5, 15)),
        Some(String::from("wrote some Verus"))
    );
    assert!(!store.has_entry(&d(2024, 5, 16)));
}

#[test]
fn set_overwrites_existing_entry() {
    let mut store = DiaryStorage::new();
    store.set_entry(d(2024, 5, 15), String::from("first"));
    store.set_entry(d(2024, 5, 15), String::from("second"));
    assert_eq!(store.get_entry(&d(2024, 5, 15)), Some(String::from("second")));
}

#[test]
fn empty_text_removes_the_entry() {
    let mut store = DiaryStorage::new();
    store.set_entry(d(2024, 5, 15), String::from("something"));
    assert!(store.has_entry(&d(2024, 5, 15)));
    store.set_entry(d(2024, 5, 15), String::new());
    assert!(!store.has_entry(&d(2024, 5, 15)));
    assert_eq!(store.get_entry(&d(2024, 5, 15)), None);
}

#[test]
fn empty_text_on_absent_entry_stays_absent() {
    let mut store = DiaryStorage::new();
    store.set_entry(d(2024, 5, 15), String::new());
    assert!(!store.has_entry(&d(2024, 5, 15)));
}

#[test]
fn save_then_load_round_trips_the_mapping() {
    let mut store = DiaryStorage::new();
    store.set_entry(d(2024, 5, 15), String::from("many\nlines\nhere"));
    store.set_entry(d(2024, 12, 31), String::from("año nuevo 🎆"));
    store.set_entry(d(33, 1, 2), String::from("long ago"));
    let doc = store.to_json();
    let loaded = DiaryStorage::from_json(&doc).unwrap();
    for date in [d(2024, 5, 15), d(2024, 12, 31), d(33, 1, 2), d(2024, 1, 1)] {
        assert_eq!(loaded.get_entry(&date), store.get_entry(&date));
        assert_eq!(loaded.has_entry(&date), store.has_entry(&date));
    }
}

#[test]
fn empty_store_round_trips() {
    let store = DiaryStorage::new();
    let doc = store.to_json();
    let loaded = DiaryStorage::from_json(&doc).unwrap();
    assert!(!loaded.has_entry(&d(2024, 5, 15)));
}

#[test]
fn from_json_accepts_a_flat_string_object() {
    let loaded = DiaryStorage::from_json("{\"2024-05-15\": \"hello\"}").unwrap();
    assert_eq!(loaded.get_entry(&d(2024, 5, 15)), Some(String::from("hello")));
}

#[test]
fn from_json_rejects_malformed_documents() {
    assert!(DiaryStorage::from_json("not json at all").is_err());
    assert!(DiaryStorage::from_json("{\"k\": 3}").is_err());
    assert!(DiaryStorage::from_json("[1, 2]").is_err());
    assert!(DiaryStorage::from_json("").is_err());
}

#[test]
fn from_json_of_empty_object_is_empty_store() {
    let loaded = DiaryStorage::from_json("{}").unwrap();
    assert!(!loaded.has_entry(&d(2024, 5, 15)));
}
