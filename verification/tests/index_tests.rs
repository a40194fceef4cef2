use persist_props::error::StoreError;
use persist_props::index::PropertyIndex;
use persist_props::order::{bytes_before, text_before};
use persist_props::record::{key_before, name_of, Property, PropertyRecord};

fn record(name: &str, value: &str) -> PropertyRecord {
    PropertyRecord { name: Some(name.to_string()), value: Some(value.to_string()) }
}

fn property(name: &str, value: &str) -> Property {
    Property { name: name.to_string(), value: value.to_string() }
}

fn names(index: &PropertyIndex) -> Vec<Option<String>> {
    index.records().iter().map(|r| r.name.clone()).collect()
}

#[test]
fn bytes_go_by_the_first_difference() {
    assert!(bytes_before(&[1, 2], &[1, 3]));
    assert!(!bytes_before(&[1, 3], &[1, 2]));
    assert!(bytes_before(&[1, 2], &[2]));
    assert!(!bytes_before(&[2], &[1, 2]));
    assert!(bytes_before(&[0x7f], &[0x80]));
    assert!(bytes_before(&[0x00], &[0xff]));
}

#[test]
fn a_proper_prefix_comes_first() {
    assert!(bytes_before(&[], &[0]));
    assert!(!bytes_before(&[0], &[]));
    assert!(bytes_before(&[5, 6], &[5, 6, 0]));
    assert!(!bytes_before(&[5, 6, 0], &[5, 6]));
}

#[test]
fn nothing_comes_before_itself() {
    assert!(!bytes_before(&[], &[]));
    assert!(!bytes_before(&[1, 2, 3], &[1, 2, 3]));
    assert!(!text_before("", ""));
    assert!(!text_before("ro.test", "ro.test"));
}

#[test]
fn text_goes_by_its_bytes_not_its_letters() {
    assert!(text_before("B", "a"));
    assert!(!text_before("a", "B"));
    assert!(text_before("a", "ab"));
    assert!(!text_before("ab", "a"));
    assert!(text_before("", "a"));
    assert!(text_before("z", "\u{e9}"));
    assert!(!text_before("\u{e9}", "z"));
    assert!(text_before("persist.a", "persist.b"));
    assert!(text_before("persist.sys.10", "persist.sys.9"));
}

#[test]
fn an_absent_name_comes_before_every_name() {
    assert!(key_before(None, Some("")));
    assert!(key_before(None, Some("a")));
    assert!(!key_before(None, None));
    assert!(!key_before(Some("a"), None));
    assert!(!key_before(Some(""), None));
    assert!(key_before(Some("a"), Some("b")));
    assert!(!key_before(Some("b"), Some("a")));
    assert!(!key_before(Some("a"), Some("a")));
}

#[test]
fn name_of_borrows_the_name() {
    assert_eq!(name_of(&record("ro.test", "1")), Some("ro.test"));
    assert_eq!(name_of(&PropertyRecord { name: None, value: Some("1".to_string()) }), None);
}

#[test]
fn a_new_index_is_empty() {
    let index = PropertyIndex::new();
    assert_eq!(index.len(), 0);
    assert!(index.records().is_empty());
    assert!(index.entries().is_empty());
    assert_eq!(index.find_index("a"), Err(0));
    assert_eq!(index.lookup("a"), None);
}

#[test]
fn decode_sorts_by_name() {
    let index = PropertyIndex::decode(vec![
        record("persist.c", "3"),
        record("persist.a", "1"),
        record("persist.b", "2"),
    ]);
    assert_eq!(
        index.records(),
        &vec![record("persist.a", "1"), record("persist.b", "2"), record("persist.c", "3")]
    );
    assert_eq!(index.len(), 3);
}

#[test]
fn decode_keeps_what_is_sorted() {
    let sorted = vec![record("a", "1"), record("b", "2"), record("c", "3")];
    let index = PropertyIndex::decode(sorted.clone());
    assert_eq!(index.into_records(), sorted);
}

#[test]
fn decode_is_stable() {
    let index = PropertyIndex::decode(vec![
        record("b", "first"),
        record("a", "first"),
        record("b", "second"),
        PropertyRecord { name: None, value: Some("nameless".to_string()) },
        record("a", "second"),
        record("b", "third"),
    ]);
    assert_eq!(
        index.into_records(),
        vec![
            PropertyRecord { name: None, value: Some("nameless".to_string()) },
            record("a", "first"),
            record("a", "second"),
            record("b", "first"),
            record("b", "second"),
            record("b", "third"),
        ]
    );
}

#[test]
fn decode_of_nothing_is_empty() {
    assert_eq!(PropertyIndex::decode(Vec::new()).into_records(), Vec::new());
}

#[test]
fn find_index_gives_the_place_or_the_insertion_point() {
    let index = PropertyIndex::decode(vec![record("b", "2"), record("d", "4"), record("f", "6")]);
    assert_eq!(index.find_index("b"), Ok(0));
    assert_eq!(index.find_index("d"), Ok(1));
    assert_eq!(index.find_index("f"), Ok(2));
    assert_eq!(index.find_index("a"), Err(0));
    assert_eq!(index.find_index(""), Err(0));
    assert_eq!(index.find_index("c"), Err(1));
    assert_eq!(index.find_index("bb"), Err(1));
    assert_eq!(index.find_index("e"), Err(2));
    assert_eq!(index.find_index("g"), Err(3));
    assert_eq!(index.find_index("ff"), Err(3));
}

#[test]
fn find_index_steps_over_nameless_records() {
    let index = PropertyIndex::decode(vec![
        record("a", "1"),
        PropertyRecord { name: None, value: Some("x".to_string()) },
        PropertyRecord { name: None, value: None },
    ]);
    assert_eq!(index.find_index(""), Err(2));
    assert_eq!(index.find_index("a"), Ok(2));
    assert_eq!(index.find_index("b"), Err(3));
}

#[test]
fn find_index_gives_the_first_of_equal_names() {
    let index = PropertyIndex::decode(vec![
        record("a", "1"),
        record("b", "first"),
        record("b", "second"),
        record("b", "third"),
        record("c", "3"),
    ]);
    assert_eq!(index.find_index("b"), Ok(1));
    assert_eq!(index.lookup("b"), Some("first".to_string()));
}

#[test]
fn find_gives_the_record_or_not_found() {
    let index = PropertyIndex::decode(vec![record("b", "2"), record("a", "1")]);
    assert_eq!(index.find("a"), Ok(&record("a", "1")));
    assert_eq!(index.find("b"), Ok(&record("b", "2")));
    assert_eq!(index.find("c"), Err(StoreError::NotFound));
    assert_eq!(PropertyIndex::new().find("a"), Err(StoreError::NotFound));
}

#[test]
fn lookup_gives_the_value() {
    let index = PropertyIndex::decode(vec![record("b", "2"), record("a", ""), record("c", "3")]);
    assert_eq!(index.lookup("a"), Some(String::new()));
    assert_eq!(index.lookup("b"), Some("2".to_string()));
    assert_eq!(index.lookup("c"), Some("3".to_string()));
    assert_eq!(index.lookup("d"), None);
    assert_eq!(index.lookup("B"), None);
}

#[test]
fn lookup_of_a_record_without_value_gives_nothing() {
    let index = PropertyIndex::decode(vec![PropertyRecord {
        name: Some("a".to_string()),
        value: None,
    }]);
    assert_eq!(index.find_index("a"), Ok(0));
    assert_eq!(index.lookup("a"), None);
}

#[test]
fn upsert_inserts_in_order() {
    let mut index = PropertyIndex::new();
    index.upsert("m", "1");
    index.upsert("a", "2");
    index.upsert("z", "3");
    index.upsert("b", "4");
    assert_eq!(
        index.records(),
        &vec![record("a", "2"), record("b", "4"), record("m", "1"), record("z", "3")]
    );
}

#[test]
fn upsert_overwrites_and_never_duplicates() {
    let mut index = PropertyIndex::decode(vec![record("a", "1"), record("b", "2")]);
    index.upsert("b", "two");
    index.upsert("a", "one");
    index.upsert("a", "uno");
    assert_eq!(index.records(), &vec![record("a", "uno"), record("b", "two")]);
    assert_eq!(index.len(), 2);
}

#[test]
fn upsert_gives_a_value_to_a_record_that_had_none() {
    let mut index = PropertyIndex::decode(vec![PropertyRecord {
        name: Some("a".to_string()),
        value: None,
    }]);
    index.upsert("a", "1");
    assert_eq!(index.into_records(), vec![record("a", "1")]);
}

#[test]
fn upsert_then_lookup_reads_back() {
    let mut index = PropertyIndex::decode(vec![record("k", "old"), record("q", "other")]);
    index.upsert("k", "new");
    assert_eq!(index.lookup("k"), Some("new".to_string()));
    assert_eq!(index.lookup("q"), Some("other".to_string()));
    index.upsert("j", "fresh");
    assert_eq!(index.lookup("j"), Some("fresh".to_string()));
    assert_eq!(index.lookup("k"), Some("new".to_string()));
    assert_eq!(index.lookup("q"), Some("other".to_string()));
}

#[test]
fn the_index_does_not_depend_on_the_order_of_writes() {
    let writes = [("d", "4"), ("a", "1"), ("c", "3"), ("b", "2"), ("e", "5")];
    let mut forward = PropertyIndex::new();
    for (name, value) in writes.iter() {
        forward.upsert(name, value);
    }
    let mut backward = PropertyIndex::new();
    for (name, value) in writes.iter().rev() {
        backward.upsert(name, value);
    }
    assert_eq!(forward.records(), backward.records());
    assert_eq!(
        forward.entries(),
        vec![
            property("a", "1"),
            property("b", "2"),
            property("c", "3"),
            property("d", "4"),
            property("e", "5"),
        ]
    );
}

#[test]
fn remove_takes_the_record_out() {
    let mut index = PropertyIndex::decode(vec![record("a", "1"), record("b", "2"), record("c", "3")]);
    assert!(index.remove("b"));
    assert_eq!(index.records(), &vec![record("a", "1"), record("c", "3")]);
    assert!(index.remove("a"));
    assert!(index.remove("c"));
    assert_eq!(index.len(), 0);
}

#[test]
fn remove_of_what_is_not_there_changes_nothing() {
    let mut index = PropertyIndex::decode(vec![record("a", "1"), record("c", "3")]);
    assert!(!index.remove("b"));
    assert!(!index.remove(""));
    assert!(!index.remove("d"));
    assert_eq!(index.records(), &vec![record("a", "1"), record("c", "3")]);
}

#[test]
fn remove_twice_fails_the_second_time() {
    let mut index = PropertyIndex::decode(vec![record("a", "1"), record("b", "2")]);
    assert!(index.remove("a"));
    assert!(!index.remove("a"));
    assert_eq!(index.records(), &vec![record("b", "2")]);
}

#[test]
fn remove_takes_one_of_two_equal_names() {
    let mut index = PropertyIndex::decode(vec![record("a", "first"), record("a", "second")]);
    assert!(index.remove("a"));
    assert_eq!(index.lookup("a"), Some("second".to_string()));
    assert!(index.remove("a"));
    assert!(!index.remove("a"));
}

#[test]
fn entries_are_the_live_records_in_order() {
    let index = PropertyIndex::decode(vec![
        record("c", "3"),
        PropertyRecord { name: Some("b".to_string()), value: None },
        PropertyRecord { name: None, value: Some("x".to_string()) },
        record("a", "1"),
        PropertyRecord { name: None, value: None },
    ]);
    assert_eq!(index.len(), 5);
    assert_eq!(index.entries(), vec![property("a", "1"), property("c", "3")]);
}

#[test]
fn names_stay_strictly_increasing_through_sets_and_deletes() {
    let mut index = PropertyIndex::new();
    let edits: [(&str, Option<&str>); 12] = [
        ("persist.m", Some("1")),
        ("persist.a", Some("2")),
        ("persist.z", Some("3")),
        ("persist.m", Some("4")),
        ("persist.b", Some("5")),
        ("persist.a", None),
        ("persist.Z", Some("6")),
        ("persist.q", None),
        ("persist.", Some("7")),
        ("persist.z", None),
        ("persist.mm", Some("8")),
        ("persist.a", Some("9")),
    ];
    for (name, value) in edits.iter() {
        match value {
            Some(value) => index.upsert(name, value),
            None => {
                index.remove(name);
            }
        }
        let all = names(&index);
        for pair in all.windows(2) {
            assert!(pair[0] < pair[1]);
        }
        let reported = index.entries();
        for pair in reported.windows(2) {
            assert!(pair[0].name.as_bytes() < pair[1].name.as_bytes());
        }
    }
    assert_eq!(
        index.entries(),
        vec![
            property("persist.", "7"),
            property("persist.Z", "6"),
            property("persist.a", "9"),
            property("persist.b", "5"),
            property("persist.m", "4"),
            property("persist.mm", "8"),
        ]
    );
}
