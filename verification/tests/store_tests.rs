use persist_props::error::StoreError;
use persist_props::record::{Property, PropertyRecord};
use persist_props::store::{
    entry_name, persist_delete_prop, persist_get_prop, persist_get_props, persist_set_prop, Action,
    Event, Mode, Operation, Outcome, Payload, Request, Target,
};

fn record(name: &str, value: &str) -> PropertyRecord {
    PropertyRecord { name: Some(name.to_string()), value: Some(value.to_string()) }
}

fn property(name: &str, value: &str) -> Property {
    Property { name: name.to_string(), value: value.to_string() }
}

fn kind(action: &Action) -> &'static str {
    match action {
        Action::ProbeContainer => "probe",
        Action::ReadContainer => "read_container",
        Action::ReadEntry { .. } => "read_entry",
        Action::ListEntries => "list",
        Action::CreateTemp { .. } => "create_temp",
        Action::WriteTemp { .. } => "write_temp",
        Action::CloneAttributes => "clone_attributes",
        Action::Replace { .. } => "replace",
        Action::RemoveTemp { .. } => "remove_temp",
        Action::RemoveEntry { .. } => "remove_entry",
        Action::Finish { .. } => "finish",
    }
}

/// A store in memory. It refuses to do for one layout what belongs to the
/// other, and to put a file in place that was not written in full.
struct Fake {
    container: Option<Result<Vec<PropertyRecord>, StoreError>>,
    entries: Vec<(Option<String>, Result<String, StoreError>)>,
    temp: Option<Option<Payload>>,
    failing: Vec<&'static str>,
    log: Vec<&'static str>,
}

impl Fake {
    fn with_container(records: Vec<PropertyRecord>) -> Fake {
        Fake {
            container: Some(Ok(records)),
            entries: Vec::new(),
            temp: None,
            failing: Vec::new(),
            log: Vec::new(),
        }
    }

    fn with_files(files: &[(&str, &str)]) -> Fake {
        Fake {
            container: None,
            entries: files
                .iter()
                .map(|(name, value)| (Some(name.to_string()), Ok(value.to_string())))
                .collect(),
            temp: None,
            failing: Vec::new(),
            log: Vec::new(),
        }
    }

    fn records(&self) -> Vec<PropertyRecord> {
        match &self.container {
            Some(Ok(records)) => records.clone(),
            _ => panic!("no container that decodes"),
        }
    }

    fn files(&self) -> Vec<(String, String)> {
        self.entries
            .iter()
            .map(|(name, value)| (name.clone().unwrap(), value.clone().unwrap()))
            .collect()
    }

    fn mode(&self) -> Mode {
        if self.container.is_some() {
            Mode::Container
        } else {
            Mode::FlatFile
        }
    }

    fn perform(&mut self, action: Action) -> Event {
        let what = kind(&action);
        self.log.push(what);
        let fails = self.failing.contains(&what);
        match action {
            Action::ProbeContainer => Event::Exists(self.container.is_some()),
            Action::ReadContainer => {
                assert_eq!(self.mode(), Mode::Container);
                if fails {
                    return Event::Failed(StoreError::IoFailure);
                }
                match self.container.clone().unwrap() {
                    Ok(records) => Event::Records(records),
                    Err(error) => Event::Failed(error),
                }
            }
            Action::ReadEntry { name } => {
                assert_eq!(self.mode(), Mode::FlatFile);
                match self.entries.iter().find(|(n, _)| n.as_deref() == Some(name.as_str())) {
                    Some((_, Ok(value))) => Event::Text(value.clone()),
                    Some((_, Err(error))) => Event::Failed(*error),
                    None => Event::Failed(StoreError::NotFound),
                }
            }
            Action::ListEntries => {
                assert_eq!(self.mode(), Mode::FlatFile);
                if fails {
                    return Event::Failed(StoreError::IoFailure);
                }
                Event::Names(self.entries.iter().map(|(n, _)| n.clone()).collect())
            }
            Action::CreateTemp { mode } => {
                assert_eq!(self.mode(), mode);
                if fails {
                    return Event::Failed(StoreError::IoFailure);
                }
                self.temp = Some(None);
                Event::Done
            }
            Action::WriteTemp { payload } => {
                assert!(self.temp.is_some());
                match (&payload, self.mode()) {
                    (Payload::Records(_), Mode::Container) => {}
                    (Payload::Text(_), Mode::FlatFile) => {}
                    _ => panic!("payload of the other layout"),
                }
                if fails {
                    self.temp = Some(None);
                    return Event::Failed(StoreError::IoFailure);
                }
                self.temp = Some(Some(payload));
                Event::Done
            }
            Action::CloneAttributes => {
                assert_eq!(self.mode(), Mode::Container);
                if fails {
                    return Event::Failed(StoreError::IoFailure);
                }
                Event::Done
            }
            Action::Replace { target } => {
                if fails {
                    return Event::Failed(StoreError::IoFailure);
                }
                match (target, self.temp.take()) {
                    (Target::Container, Some(Some(Payload::Records(records)))) => {
                        assert_eq!(self.mode(), Mode::Container);
                        self.container = Some(Ok(records));
                    }
                    (Target::Entry { name }, Some(Some(Payload::Text(value)))) => {
                        assert_eq!(self.mode(), Mode::FlatFile);
                        match self.entries.iter_mut().find(|(n, _)| n.as_deref() == Some(name.as_str())) {
                            Some(entry) => entry.1 = Ok(value),
                            None => self.entries.push((Some(name), Ok(value))),
                        }
                    }
                    _ => panic!("a file that was not written in full was put in place"),
                }
                Event::Done
            }
            Action::RemoveTemp { mode } => {
                assert_eq!(self.mode(), mode);
                if fails {
                    return Event::Failed(StoreError::IoFailure);
                }
                self.temp = None;
                Event::Done
            }
            Action::RemoveEntry { name } => {
                assert_eq!(self.mode(), Mode::FlatFile);
                let before = self.entries.len();
                self.entries.retain(|(n, _)| n.as_deref() != Some(name.as_str()));
                if self.entries.len() == before {
                    Event::Failed(StoreError::NotFound)
                } else {
                    Event::Done
                }
            }
            Action::Finish { .. } => panic!("nothing to perform at the end"),
        }
    }
}

/// Runs an operation for at most `turns` actions; `None` if it was cut off
/// before its end.
fn run_for(fake: &mut Fake, start: (Operation, Action), turns: usize) -> Option<Outcome> {
    let (mut op, mut action) = start;
    let mut done = 0;
    loop {
        if let Action::Finish { outcome } = action {
            assert!(op.is_finished());
            fake.log.push("finish");
            return Some(outcome);
        }
        if done == turns {
            return None;
        }
        let event = fake.perform(action);
        let (after, asked) = op.step(event);
        op = after;
        action = asked;
        done += 1;
    }
}

fn run(fake: &mut Fake, start: (Operation, Action)) -> Outcome {
    run_for(fake, start, 1000).unwrap()
}

fn set(fake: &mut Fake, name: &str, value: &str) -> bool {
    run(fake, persist_set_prop(name, value)).success()
}

fn delete(fake: &mut Fake, name: &str) -> bool {
    run(fake, persist_delete_prop(name)).success()
}

fn get(fake: &mut Fake, name: &str) -> Vec<Property> {
    run(fake, persist_get_prop(name)).reports
}

fn get_all(fake: &mut Fake) -> Vec<Property> {
    run(fake, persist_get_props()).reports
}

#[test]
fn every_operation_begins_with_the_probe() {
    assert_eq!(
        persist_get_prop("ro.test"),
        (
            Operation::Probing { request: Request::Get { name: "ro.test".to_string() } },
            Action::ProbeContainer
        )
    );
    assert_eq!(
        persist_get_props(),
        (Operation::Probing { request: Request::GetAll }, Action::ProbeContainer)
    );
    assert_eq!(
        persist_set_prop("ro.test", "1"),
        (
            Operation::Probing {
                request: Request::Put { name: "ro.test".to_string(), value: "1".to_string() }
            },
            Action::ProbeContainer
        )
    );
    assert_eq!(
        persist_delete_prop("ro.test"),
        (
            Operation::Probing { request: Request::Delete { name: "ro.test".to_string() } },
            Action::ProbeContainer
        )
    );
}

#[test]
fn scenario_on_an_empty_container() {
    let mut fake = Fake::with_container(Vec::new());
    assert!(set(&mut fake, "ro.test", "1"));
    assert_eq!(get(&mut fake, "ro.test"), vec![property("ro.test", "1")]);
    assert!(set(&mut fake, "ro.test", "2"));
    assert_eq!(get(&mut fake, "ro.test"), vec![property("ro.test", "2")]);
    assert_eq!(get_all(&mut fake), vec![property("ro.test", "2")]);
    assert_eq!(fake.records(), vec![record("ro.test", "2")]);
    assert!(delete(&mut fake, "ro.test"));
    assert_eq!(get(&mut fake, "ro.test"), Vec::new());
    assert_eq!(fake.records(), Vec::new());
    assert!(fake.entries.is_empty());
}

#[test]
fn scenario_on_an_empty_directory() {
    let mut fake = Fake::with_files(&[]);
    assert!(set(&mut fake, "ro.test", "1"));
    assert_eq!(get(&mut fake, "ro.test"), vec![property("ro.test", "1")]);
    assert!(set(&mut fake, "ro.test", "2"));
    assert_eq!(get(&mut fake, "ro.test"), vec![property("ro.test", "2")]);
    assert_eq!(get_all(&mut fake), vec![property("ro.test", "2")]);
    assert_eq!(fake.files(), vec![("ro.test".to_string(), "2".to_string())]);
    assert!(delete(&mut fake, "ro.test"));
    assert_eq!(get(&mut fake, "ro.test"), Vec::new());
    assert!(fake.files().is_empty());
    assert!(fake.container.is_none());
}

#[test]
fn what_is_set_is_read_back_in_any_order() {
    let writes = [("persist.d", "4"), ("persist.a", "1"), ("persist.c", "3"), ("persist.b", "2")];
    let mut forward = Fake::with_container(Vec::new());
    for (name, value) in writes.iter() {
        assert!(set(&mut forward, name, value));
    }
    let mut backward = Fake::with_container(Vec::new());
    for (name, value) in writes.iter().rev() {
        assert!(set(&mut backward, name, value));
    }
    for (name, value) in writes.iter() {
        assert_eq!(get(&mut forward, name), vec![property(name, value)]);
        assert_eq!(get(&mut backward, name), vec![property(name, value)]);
    }
    let expected = vec![
        property("persist.a", "1"),
        property("persist.b", "2"),
        property("persist.c", "3"),
        property("persist.d", "4"),
    ];
    assert_eq!(get_all(&mut forward), expected);
    assert_eq!(get_all(&mut backward), expected);
    assert_eq!(forward.records(), backward.records());
}

#[test]
fn what_is_set_is_read_back_from_flat_files() {
    let mut fake = Fake::with_files(&[("persist.x", "old")]);
    assert!(set(&mut fake, "persist.y", "1"));
    assert!(set(&mut fake, "persist.x", "new"));
    assert_eq!(get(&mut fake, "persist.x"), vec![property("persist.x", "new")]);
    assert_eq!(get(&mut fake, "persist.y"), vec![property("persist.y", "1")]);
    assert_eq!(
        get_all(&mut fake),
        vec![property("persist.x", "new"), property("persist.y", "1")]
    );
}

#[test]
fn the_container_is_read_in_the_order_of_names() {
    let mut fake = Fake::with_container(vec![
        record("persist.c", "3"),
        PropertyRecord { name: Some("persist.dead".to_string()), value: None },
        record("persist.a", "1"),
        PropertyRecord { name: None, value: Some("nameless".to_string()) },
        record("persist.b", "2"),
    ]);
    assert_eq!(
        get_all(&mut fake),
        vec![property("persist.a", "1"), property("persist.b", "2"), property("persist.c", "3")]
    );
    assert_eq!(get(&mut fake, "persist.dead"), Vec::new());
    assert_eq!(fake.log, vec![
        "probe", "read_container", "finish", "probe", "read_container", "finish"
    ]);
}

#[test]
fn a_set_writes_the_whole_sorted_index_back() {
    let mut fake = Fake::with_container(vec![record("c", "3"), record("a", "1")]);
    assert!(set(&mut fake, "b", "2"));
    assert_eq!(fake.records(), vec![record("a", "1"), record("b", "2"), record("c", "3")]);
    assert_eq!(
        fake.log,
        vec![
            "probe",
            "read_container",
            "create_temp",
            "write_temp",
            "clone_attributes",
            "replace",
            "finish"
        ]
    );
    assert!(fake.temp.is_none());
}

#[test]
fn a_set_of_a_flat_file_clones_no_attributes() {
    let mut fake = Fake::with_files(&[]);
    assert!(set(&mut fake, "a", "1"));
    assert_eq!(fake.log, vec!["probe", "create_temp", "write_temp", "replace", "finish"]);
    assert!(fake.temp.is_none());
}

#[test]
fn names_come_out_strictly_increasing_after_sets_and_deletes() {
    let mut fake = Fake::with_container(Vec::new());
    let edits: [(&str, Option<&str>); 9] = [
        ("m", Some("1")),
        ("a", Some("2")),
        ("z", Some("3")),
        ("m", Some("4")),
        ("a", None),
        ("B", Some("5")),
        ("q", None),
        ("mm", Some("6")),
        ("", Some("7")),
    ];
    for (name, value) in edits.iter() {
        match value {
            Some(value) => assert!(set(&mut fake, name, value)),
            None => {
                delete(&mut fake, name);
            }
        }
        let all = get_all(&mut fake);
        for pair in all.windows(2) {
            assert!(pair[0].name.as_bytes() < pair[1].name.as_bytes());
        }
    }
    assert_eq!(
        get_all(&mut fake),
        vec![
            property("", "7"),
            property("B", "5"),
            property("m", "4"),
            property("mm", "6"),
            property("z", "3"),
        ]
    );
}

#[test]
fn a_failure_at_any_step_leaves_the_container_as_it_was() {
    let before = vec![record("a", "1"), record("b", "2")];
    for step in ["read_container", "create_temp", "write_temp", "replace"] {
        let mut fake = Fake::with_container(before.clone());
        fake.failing = vec![step];
        let outcome = run(&mut fake, persist_set_prop("c", "3"));
        assert_eq!(outcome.result, Err(StoreError::IoFailure));
        assert!(!outcome.success());
        assert!(outcome.reports.is_empty());
        assert_eq!(fake.records(), before);
        assert!(fake.temp.is_none());

        let mut fake = Fake::with_container(before.clone());
        fake.failing = vec![step];
        assert!(!delete(&mut fake, "a"));
        assert_eq!(fake.records(), before);
        assert!(fake.temp.is_none());
    }
}

#[test]
fn a_failed_write_removes_the_temporary_file_and_nothing_else() {
    let mut fake = Fake::with_container(vec![record("a", "1")]);
    fake.failing = vec!["write_temp"];
    assert!(!set(&mut fake, "b", "2"));
    assert_eq!(
        fake.log,
        vec!["probe", "read_container", "create_temp", "write_temp", "remove_temp", "finish"]
    );
    let mut fake = Fake::with_container(vec![record("a", "1")]);
    fake.failing = vec!["replace"];
    assert!(!set(&mut fake, "b", "2"));
    assert_eq!(
        fake.log,
        vec![
            "probe",
            "read_container",
            "create_temp",
            "write_temp",
            "clone_attributes",
            "replace",
            "remove_temp",
            "finish"
        ]
    );
    let mut fake = Fake::with_container(vec![record("a", "1")]);
    fake.failing = vec!["create_temp"];
    assert!(!set(&mut fake, "b", "2"));
    assert_eq!(fake.log, vec!["probe", "read_container", "create_temp", "finish"]);
}

#[test]
fn the_error_of_the_write_outlives_a_failed_cleanup() {
    let mut fake = Fake::with_container(vec![record("a", "1")]);
    fake.failing = vec!["write_temp", "remove_temp"];
    let outcome = run(&mut fake, persist_set_prop("b", "2"));
    assert_eq!(outcome.result, Err(StoreError::IoFailure));
    assert_eq!(fake.records(), vec![record("a", "1")]);
}

#[test]
fn attributes_that_cannot_be_cloned_do_not_stop_the_write() {
    let mut fake = Fake::with_container(vec![record("a", "1")]);
    fake.failing = vec!["clone_attributes"];
    assert!(set(&mut fake, "b", "2"));
    assert_eq!(fake.records(), vec![record("a", "1"), record("b", "2")]);
}

#[test]
fn a_crash_before_the_rename_leaves_the_container_as_it_was() {
    let before = vec![record("a", "1"), record("b", "2")];
    let after = vec![record("a", "1"), record("b", "two")];
    for turns in 0..6 {
        let mut fake = Fake::with_container(before.clone());
        assert!(run_for(&mut fake, persist_set_prop("b", "two"), turns).is_none());
        assert!(!fake.log.contains(&"replace"));
        assert_eq!(fake.records(), before);
    }
    let mut fake = Fake::with_container(before.clone());
    let outcome = run_for(&mut fake, persist_set_prop("b", "two"), 6);
    assert_eq!(outcome, Some(Outcome { result: Ok(()), reports: Vec::new() }));
    assert_eq!(fake.records(), after);
}

#[test]
fn a_crash_before_the_rename_leaves_the_flat_file_as_it_was() {
    for turns in 0..4 {
        let mut fake = Fake::with_files(&[("a", "old")]);
        assert!(run_for(&mut fake, persist_set_prop("a", "new"), turns).is_none());
        assert_eq!(fake.files(), vec![("a".to_string(), "old".to_string())]);
    }
    let mut fake = Fake::with_files(&[("a", "old")]);
    assert!(run_for(&mut fake, persist_set_prop("a", "new"), 4).unwrap().success());
    assert_eq!(fake.files(), vec![("a".to_string(), "new".to_string())]);
}

#[test]
fn a_delete_of_what_is_not_there_fails_and_changes_nothing() {
    let mut fake = Fake::with_container(vec![record("a", "1")]);
    let outcome = run(&mut fake, persist_delete_prop("b"));
    assert_eq!(outcome.result, Err(StoreError::NotFound));
    assert_eq!(fake.records(), vec![record("a", "1")]);
    assert_eq!(fake.log, vec!["probe", "read_container", "finish"]);

    let mut fake = Fake::with_files(&[("a", "1")]);
    let outcome = run(&mut fake, persist_delete_prop("b"));
    assert_eq!(outcome.result, Err(StoreError::NotFound));
    assert_eq!(fake.files(), vec![("a".to_string(), "1".to_string())]);
    assert_eq!(fake.log, vec!["probe", "remove_entry", "finish"]);
}

#[test]
fn a_second_delete_fails() {
    let mut fake = Fake::with_container(vec![record("a", "1"), record("b", "2")]);
    assert!(delete(&mut fake, "a"));
    assert!(!delete(&mut fake, "a"));
    assert_eq!(fake.records(), vec![record("b", "2")]);

    let mut fake = Fake::with_files(&[("a", "1"), ("b", "2")]);
    assert!(delete(&mut fake, "a"));
    assert!(!delete(&mut fake, "a"));
    assert_eq!(fake.files(), vec![("b".to_string(), "2".to_string())]);
}

#[test]
fn with_a_container_no_flat_file_is_consulted() {
    let mut fake = Fake::with_container(vec![record("in.container", "1")]);
    fake.entries = vec![(Some("in.file".to_string()), Ok("2".to_string()))];
    assert_eq!(get(&mut fake, "in.file"), Vec::new());
    assert_eq!(get_all(&mut fake), vec![property("in.container", "1")]);
    assert!(set(&mut fake, "in.file", "3"));
    assert!(delete(&mut fake, "in.container"));
    assert!(!delete(&mut fake, "in.container"));
    assert_eq!(fake.records(), vec![record("in.file", "3")]);
    assert_eq!(fake.files(), vec![("in.file".to_string(), "2".to_string())]);
    for what in ["read_entry", "list", "remove_entry"] {
        assert!(!fake.log.contains(&what));
    }
}

#[test]
fn without_a_container_none_is_read_or_made() {
    let mut fake = Fake::with_files(&[("a", "1")]);
    assert!(set(&mut fake, "b", "2"));
    assert_eq!(get(&mut fake, "a"), vec![property("a", "1")]);
    assert_eq!(get_all(&mut fake), vec![property("a", "1"), property("b", "2")]);
    assert!(delete(&mut fake, "a"));
    assert!(fake.container.is_none());
    for what in ["read_container", "clone_attributes"] {
        assert!(!fake.log.contains(&what));
    }
}

#[test]
fn a_lookup_of_a_missing_flat_file_is_not_found() {
    let mut fake = Fake::with_files(&[("a", "1")]);
    let outcome = run(&mut fake, persist_get_prop("b"));
    assert_eq!(outcome, Outcome { result: Err(StoreError::NotFound), reports: Vec::new() });
}

#[test]
fn a_lookup_of_a_missing_record_reports_nothing() {
    let mut fake = Fake::with_container(vec![record("a", "1")]);
    let outcome = run(&mut fake, persist_get_prop("b"));
    assert_eq!(outcome, Outcome { result: Ok(()), reports: Vec::new() });
}

#[test]
fn a_container_that_does_not_decode_is_an_error() {
    let mut fake = Fake::with_container(Vec::new());
    fake.container = Some(Err(StoreError::CorruptData));
    for start in [
        persist_get_prop("a"),
        persist_get_props(),
        persist_set_prop("a", "1"),
        persist_delete_prop("a"),
    ] {
        let outcome = run(&mut fake, start);
        assert_eq!(outcome, Outcome { result: Err(StoreError::CorruptData), reports: Vec::new() });
    }
    assert!(!fake.log.contains(&"create_temp"));
    assert_eq!(fake.container, Some(Err(StoreError::CorruptData)));
}

#[test]
fn the_first_set_makes_the_container() {
    let mut fake = Fake::with_container(Vec::new());
    fake.container = Some(Err(StoreError::NotFound));
    assert_eq!(
        run(&mut fake, persist_get_prop("a")),
        Outcome { result: Err(StoreError::NotFound), reports: Vec::new() }
    );
    assert_eq!(run(&mut fake, persist_get_props()).result, Err(StoreError::NotFound));
    assert_eq!(run(&mut fake, persist_delete_prop("a")).result, Err(StoreError::NotFound));
    assert!(set(&mut fake, "a", "1"));
    assert_eq!(fake.records(), vec![record("a", "1")]);
}

#[test]
fn an_enumeration_skips_what_it_cannot_read() {
    let mut fake = Fake::with_files(&[("b", "2")]);
    fake.entries.push((None, Ok("nameless".to_string())));
    fake.entries.push((Some("unreadable".to_string()), Err(StoreError::IoFailure)));
    fake.entries.push((Some("a".to_string()), Ok("1".to_string())));
    fake.entries.push((None, Err(StoreError::IoFailure)));
    let outcome = run(&mut fake, persist_get_props());
    assert_eq!(
        outcome,
        Outcome { result: Ok(()), reports: vec![property("b", "2"), property("a", "1")] }
    );
    assert_eq!(
        fake.log,
        vec!["probe", "list", "read_entry", "read_entry", "read_entry", "finish"]
    );
}

#[test]
fn an_enumeration_of_an_empty_directory_reports_nothing() {
    let mut fake = Fake::with_files(&[]);
    assert_eq!(
        run(&mut fake, persist_get_props()),
        Outcome { result: Ok(()), reports: Vec::new() }
    );
    assert_eq!(fake.log, vec!["probe", "list", "finish"]);
}

#[test]
fn a_directory_that_cannot_be_listed_is_an_error() {
    let mut fake = Fake::with_files(&[("a", "1")]);
    fake.failing = vec!["list"];
    assert_eq!(
        run(&mut fake, persist_get_props()),
        Outcome { result: Err(StoreError::IoFailure), reports: Vec::new() }
    );
}

#[test]
fn a_name_that_is_not_text_is_invalid() {
    assert_eq!(entry_name(&Some("persist.a".to_string())), Ok("persist.a".to_string()));
    assert_eq!(entry_name(&Some(String::new())), Ok(String::new()));
    assert_eq!(entry_name(&None), Err(StoreError::NameInvalid));
}

#[test]
fn an_event_that_answers_nothing_ends_the_operation() {
    let failed = Outcome { result: Err(StoreError::IoFailure), reports: Vec::new() };
    let (op, _) = persist_get_prop("a");
    assert_eq!(op.step(Event::Done), (Operation::Finished, Action::Finish { outcome: failed }));

    let failed = Outcome { result: Err(StoreError::IoFailure), reports: Vec::new() };
    let (op, _) = persist_get_props();
    let (op, action) = op.step(Event::Exists(false));
    assert_eq!(action, Action::ListEntries);
    assert_eq!(
        op.step(Event::Text("x".to_string())),
        (Operation::Finished, Action::Finish { outcome: failed })
    );

    let failed = Outcome { result: Err(StoreError::IoFailure), reports: Vec::new() };
    assert_eq!(
        Operation::Finished.step(Event::Done),
        (Operation::Finished, Action::Finish { outcome: failed })
    );
}

#[test]
fn an_event_that_answers_nothing_during_a_write_removes_the_temporary_file() {
    let (op, _) = persist_set_prop("a", "1");
    let (op, action) = op.step(Event::Exists(false));
    assert_eq!(action, Action::CreateTemp { mode: Mode::FlatFile });
    let (op, action) = op.step(Event::Done);
    assert_eq!(action, Action::WriteTemp { payload: Payload::Text("1".to_string()) });
    let (op, action) = op.step(Event::Exists(true));
    assert_eq!(action, Action::RemoveTemp { mode: Mode::FlatFile });
    assert_eq!(op, Operation::Discarding { mode: Mode::FlatFile, error: StoreError::IoFailure });
    let (op, action) = op.step(Event::Done);
    assert!(op.is_finished());
    assert_eq!(
        action,
        Action::Finish { outcome: Outcome { result: Err(StoreError::IoFailure), reports: Vec::new() } }
    );
}

#[test]
fn the_steps_of_a_set_in_a_container() {
    let (op, action) = persist_set_prop("b", "2");
    assert_eq!(action, Action::ProbeContainer);
    let (op, action) = op.step(Event::Exists(true));
    assert_eq!(action, Action::ReadContainer);
    assert_eq!(
        op,
        Operation::Loading {
            request: Request::Put { name: "b".to_string(), value: "2".to_string() }
        }
    );
    let (op, action) = op.step(Event::Records(vec![record("c", "3"), record("a", "1")]));
    assert_eq!(action, Action::CreateTemp { mode: Mode::Container });
    let (op, action) = op.step(Event::Done);
    assert_eq!(
        action,
        Action::WriteTemp {
            payload: Payload::Records(vec![record("a", "1"), record("b", "2"), record("c", "3")])
        }
    );
    assert_eq!(op, Operation::Writing { target: Target::Container });
    let (op, action) = op.step(Event::Done);
    assert_eq!((&op, &action), (&Operation::Cloning, &Action::CloneAttributes));
    let (op, action) = op.step(Event::Done);
    assert_eq!(action, Action::Replace { target: Target::Container });
    assert_eq!(op, Operation::Replacing { target: Target::Container });
    assert!(!op.is_finished());
    let (op, action) = op.step(Event::Done);
    assert!(op.is_finished());
    assert_eq!(action, Action::Finish { outcome: Outcome { result: Ok(()), reports: Vec::new() } });
}

#[test]
fn the_steps_of_a_delete_of_a_flat_file() {
    let (op, _) = persist_delete_prop("a");
    let (op, action) = op.step(Event::Exists(false));
    assert_eq!(action, Action::RemoveEntry { name: "a".to_string() });
    assert_eq!(op, Operation::Removing);
    let (op, action) = op.step(Event::Failed(StoreError::IoFailure));
    assert!(op.is_finished());
    assert_eq!(
        action,
        Action::Finish { outcome: Outcome { result: Err(StoreError::IoFailure), reports: Vec::new() } }
    );
}

#[test]
fn the_steps_of_a_lookup_of_a_flat_file() {
    let (op, _) = persist_get_prop("a");
    let (op, action) = op.step(Event::Exists(false));
    assert_eq!(action, Action::ReadEntry { name: "a".to_string() });
    assert_eq!(op, Operation::ReadingEntry { name: "a".to_string() });
    let (_, action) = op.step(Event::Text("1".to_string()));
    assert_eq!(
        action,
        Action::Finish { outcome: Outcome { result: Ok(()), reports: vec![property("a", "1")] } }
    );
}

#[test]
fn success_is_what_the_result_says() {
    assert!(Outcome { result: Ok(()), reports: Vec::new() }.success());
    assert!(!Outcome { result: Err(StoreError::NotFound), reports: Vec::new() }.success());
    assert!(!Outcome { result: Err(StoreError::CorruptData), reports: Vec::new() }.success());
}

#[test]
fn an_enumeration_that_has_run_past_its_names_ends() {
    let stray = Operation::Walking { names: vec!["a".to_string()], at: 1, reports: Vec::new() };
    assert_eq!(
        stray.step(Event::Text("1".to_string())),
        (
            Operation::Finished,
            Action::Finish {
                outcome: Outcome { result: Err(StoreError::IoFailure), reports: Vec::new() }
            }
        )
    );
}

#[test]
fn an_enumeration_reads_one_file_after_the_other() {
    let (op, _) = persist_get_props();
    let (op, _) = op.step(Event::Exists(false));
    let (op, action) = op.step(Event::Names(vec![
        Some("b".to_string()),
        None,
        Some("a".to_string()),
    ]));
    assert_eq!(action, Action::ReadEntry { name: "b".to_string() });
    assert_eq!(
        op,
        Operation::Walking {
            names: vec!["b".to_string(), "a".to_string()],
            at: 0,
            reports: Vec::new()
        }
    );
    let (op, action) = op.step(Event::Failed(StoreError::NotFound));
    assert_eq!(action, Action::ReadEntry { name: "a".to_string() });
    let (op, action) = op.step(Event::Text("1".to_string()));
    assert!(op.is_finished());
    assert_eq!(
        action,
        Action::Finish { outcome: Outcome { result: Ok(()), reports: vec![property("a", "1")] } }
    );
}
