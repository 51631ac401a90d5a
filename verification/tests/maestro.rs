use orchestra::maestro::control::{principal_heartbeat, start_symphony, stop_symphony, WatchEvent};
use orchestra::maestro::dto::{
    CreateNote, CreateSymphony, HeartbeatDto, HeartbeatNoteDto, NoteDto, SymphonyDto,
};
use orchestra::maestro::models::{
    InMemoryStore, Note, NoteState, Principal, PrincipalState, RestartPolicy, Symphony, SymphonyState,
};
use orchestra::maestro::{GetNotesQueryParams, WatchManager};
use orchestra::watcher::field_selector::FieldSelector;
use orchestra::watcher::EventType;
use tokio::sync::mpsc::error::TryRecvError;

fn note(name: &str, symphony: &str, host: &str, state: NoteState) -> Note {
    Note {
        name: name.to_string(),
        symphony: symphony.to_string(),
        description: "some desc".to_string(),
        host: host.to_string(),
        command: "ping".to_string(),
        args: vec![],
        env: vec![],
        restart_policy: RestartPolicy::Never,
        state,
    }
}

fn create_note(name: &str, command: &str, args: &[&str]) -> CreateNote {
    CreateNote {
        name: name.to_string(),
        description: format!("{} desc", name),
        host: "localhost".to_string(),
        command: command.to_string(),
        args: args.iter().map(|a| a.to_string()).collect(),
        env: vec![],
        restart_policy: RestartPolicy::Never,
    }
}

fn heartbeat(name: &str, notes: Vec<(&str, &str, NoteState)>) -> HeartbeatDto {
    HeartbeatDto {
        name: name.to_string(),
        notes: notes
            .into_iter()
            .map(|(s, n, st)| HeartbeatNoteDto { symphony: s.to_string(), name: n.to_string(), state: st })
            .collect(),
    }
}

#[test]
fn test_get_principals_empty() {
    let store = InMemoryStore::new();
    assert!(store.get_all_principals().is_empty(), "Expected no principals initially");
}

#[test]
fn test_get_principals_with_existing() {
    let mut store = InMemoryStore::new();
    store.upsert_principal(Principal {
        host: "some-host".to_string(),
        capabilities: vec!["test-cap".to_string()],
        state: PrincipalState::NotReady,
        last_updated: 12345,
    });
    let principals = store.get_all_principals();
    assert_eq!(principals.len(), 1, "Expected one principal in the list");
    assert_eq!(principals[0].host, "some-host");
    assert!(matches!(principals[0].state, PrincipalState::NotReady));
}

#[test]
fn test_post_heartbeat_new_principal() {
    let mut store = InMemoryStore::new();
    let events = principal_heartbeat(&mut store, heartbeat("brand-new-host", vec![]), 1_700_000_000);
    assert!(events.is_empty());
    let principals = store.get_all_principals();
    assert_eq!(principals.len(), 1);
    assert_eq!(principals[0].host, "brand-new-host");
    assert!(matches!(principals[0].state, PrincipalState::Ready));
    assert_eq!(principals[0].last_updated(), 1_700_000_000);
    assert!(principals[0].capabilities().is_empty());
}

#[test]
fn test_post_heartbeat_existing_principal() {
    let mut store = InMemoryStore::new();
    store.upsert_principal(Principal {
        host: "some-host".to_string(),
        capabilities: vec!["test-cap".into()],
        state: PrincipalState::NotReady,
        last_updated: 100,
    });
    principal_heartbeat(&mut store, heartbeat("some-host", vec![]), 200);
    let principals = store.get_all_principals();
    assert_eq!(principals.len(), 1, "Expected one principal");
    assert_eq!(principals[0].host, "some-host");
    assert!(matches!(principals[0].state, PrincipalState::Ready));
    assert!(principals[0].last_updated > 100, "Expected last_updated to be updated");
}

fn store_with_note(note_name: &str, state: NoteState, symphony_state: SymphonyState) -> InMemoryStore {
    let mut store = InMemoryStore::new();
    // The note goes in first: a terminating symphony takes no new notes.
    store.add_note(note(note_name, "my-symphony", "brand-new-host", state));
    store.add_symphony(Symphony {
        state: symphony_state,
        name: "my-symphony".into(),
        notes: vec![note_name.to_string()],
    });
    store
}

#[test]
fn test_post_heartbeat_with_known_notes() {
    let mut store = store_with_note("existing-note", NoteState::Running, SymphonyState::Running);
    let events = principal_heartbeat(
        &mut store,
        heartbeat("brand-new-host", vec![("my-symphony", "existing-note", NoteState::Terminated)]),
        5,
    );
    let found_note = store.get_note("my-symphony", "existing-note");
    assert!(found_note.is_none(), "The route logic (since the note is Terminated) should remove the note");
    // The symphony is running, so it stays, without the note.
    let s = store.get_symphony("my-symphony").expect("symphony stays");
    assert!(s.notes().is_empty());
    assert_eq!(events.len(), 1);
    match &events[0] {
        WatchEvent::Note(e) => {
            assert!(matches!(e.event_type, EventType::Deleted));
            assert_eq!(e.resource.name, "existing-note");
        }
        _ => panic!("expected a note event"),
    }
}

#[test]
fn terminated_last_note_removes_terminating_symphony() {
    let mut store = store_with_note("n", NoteState::Terminating, SymphonyState::Terminating);
    let events = principal_heartbeat(&mut store, heartbeat("h", vec![("my-symphony", "n", NoteState::Terminated)]), 5);
    assert!(store.get_symphony("my-symphony").is_none());
    assert!(store.get_note("my-symphony", "n").is_none());
    assert_eq!(events.len(), 2);
    match &events[1] {
        WatchEvent::Symphony(e) => {
            assert!(matches!(e.event_type, EventType::Deleted));
            assert_eq!(e.resource.name, "my-symphony");
            assert!(e.resource.notes.is_empty());
        }
        _ => panic!("expected a symphony event"),
    }
}

#[test]
fn test_post_heartbeat_with_unknown_note() {
    let mut store = InMemoryStore::new();
    let events = principal_heartbeat(
        &mut store,
        heartbeat("host-with-unknown-note", vec![("my-symphony", "some-other-note", NoteState::Running)]),
        1,
    );
    assert!(events.is_empty());
    let all_notes = store.get_all_notes();
    assert!(all_notes.is_empty(), "The unknown note should not have been created/inserted");
    let principals = store.get_all_principals();
    assert_eq!(principals.len(), 1);
    assert_eq!(principals[0].host, "host-with-unknown-note");
}

#[test]
fn test_post_heartbeat_modifies_note_state() {
    let mut store = store_with_note("note-to-update", NoteState::Pending, SymphonyState::Running);
    let events = principal_heartbeat(
        &mut store,
        heartbeat("my-host", vec![("my-symphony", "note-to-update", NoteState::Running)]),
        1,
    );
    let updated_note = store.get_note("my-symphony", "note-to-update").expect("Should exist");
    assert_eq!(updated_note.state, NoteState::Running);
    assert_eq!(events.len(), 2);
    match (&events[0], &events[1]) {
        (WatchEvent::Note(n), WatchEvent::Symphony(s)) => {
            assert!(matches!(n.event_type, EventType::Modified));
            assert_eq!(n.resource.state, NoteState::Running);
            assert!(matches!(s.event_type, EventType::Modified));
            assert_eq!(s.resource.notes.len(), 1);
            assert_eq!(s.resource.notes[0].state, NoteState::Running);
        }
        _ => panic!("expected a note then a symphony event"),
    }
}

#[test]
fn terminating_note_only_becomes_terminated() {
    let mut store = store_with_note("n", NoteState::Terminating, SymphonyState::Running);
    let events = principal_heartbeat(&mut store, heartbeat("h", vec![("my-symphony", "n", NoteState::Running)]), 1);
    assert!(events.is_empty());
    assert_eq!(store.get_note("my-symphony", "n").unwrap().state, NoteState::Terminating);
}

#[test]
fn same_state_reports_nothing() {
    let mut store = store_with_note("n", NoteState::Running, SymphonyState::Running);
    let events = principal_heartbeat(&mut store, heartbeat("h", vec![("my-symphony", "n", NoteState::Running)]), 1);
    assert!(events.is_empty());
}

#[test]
fn test_principal_heartbeat() {
    let mut store = InMemoryStore::new();
    assert!(store.get_all_principals().is_empty(), "Expected no principals initially");
    principal_heartbeat(&mut store, heartbeat("TestPrincipal", vec![("", "someNote", NoteState::Running)]), 3);
    let principals = store.get_all_principals();
    assert_eq!(principals.len(), 1);
    assert_eq!(principals[0].host, "TestPrincipal");
}

#[test]
fn test_get_notes_non_watching() {
    let mut store = InMemoryStore::new();
    let mut n1 = note("Note 1", "Symphony 1", "host", NoteState::Pending);
    n1.description = "desc".into();
    let mut n2 = note("Note 2", "Symphony 2", "host", NoteState::Pending);
    n2.description = "desc".into();
    store.add_note(n1);
    store.add_note(n2);
    let notes = store.get_all_notes();
    assert_eq!(notes.len(), 2);
    assert!(notes.iter().any(|note| note.name == "Note 1"));
    assert!(notes.iter().any(|note| note.name == "Note 2"));
    assert!(!GetNotesQueryParams { watch: None }.watching());
    assert!(!GetNotesQueryParams { watch: Some(false) }.watching());
    assert!(GetNotesQueryParams { watch: Some(true) }.watching());
}

#[test]
fn test_create_and_list_symphonies() {
    let mut store = InMemoryStore::new();
    let events = start_symphony(
        &mut store,
        &CreateSymphony { name: "TestSymphony".to_string(), notes: vec![create_note("NoteA", "echo", &["Hello", "World"])] },
    );
    assert_eq!(events.len(), 2);
    let symphonies = store.get_all_symphonies_with_notes();
    assert!(!symphonies.is_empty());
    let test_symphony = symphonies.iter().find(|s| s.name == "TestSymphony").expect("Expected 'TestSymphony' to exist");
    assert_eq!(test_symphony.notes.len(), 1);
    assert_eq!(test_symphony.notes[0].name, "NoteA");
    assert_eq!(test_symphony.notes[0].state, NoteState::Pending);
    assert_eq!(test_symphony.notes[0].args, vec!["Hello".to_string(), "World".to_string()]);
    assert_eq!(*test_symphony.state(), SymphonyState::Running);
}

#[test]
fn starting_an_existing_symphony_does_nothing() {
    let mut store = InMemoryStore::new();
    start_symphony(&mut store, &CreateSymphony { name: "S".into(), notes: vec![create_note("a", "echo", &[])] });
    let events =
        start_symphony(&mut store, &CreateSymphony { name: "S".into(), notes: vec![create_note("b", "echo", &[])] });
    assert!(events.is_empty());
    assert!(store.get_note("S", "b").is_none());
    assert_eq!(store.get_symphony("S").unwrap().notes(), vec!["a".to_string()]);
}

#[test]
fn test_stop_symphony() {
    let mut store = InMemoryStore::new();
    start_symphony(
        &mut store,
        &CreateSymphony {
            name: "StopMe".to_string(),
            notes: vec![create_note("StopNote1", "echo", &["Stopping"]), create_note("StopNote2", "ping", &["127.0.0.1"])],
        },
    );
    let (ok, events) = stop_symphony(&mut store, "StopMe");
    assert!(ok);
    assert_eq!(events.len(), 3);
    let symphonies = store.get_all_symphonies_with_notes();
    let stopped = symphonies.iter().find(|s| s.name == "StopMe").expect("Expected to find 'StopMe' in the list of symphonies");
    assert_eq!(stopped.state, SymphonyState::Terminating);
    assert!(stopped.notes.iter().all(|n| n.state == NoteState::Terminating));
    // Stopping again is fine and does nothing.
    let (ok, events) = stop_symphony(&mut store, "StopMe");
    assert!(ok);
    assert!(events.is_empty());
    // An unknown symphony cannot be stopped.
    let (ok, events) = stop_symphony(&mut store, "nope");
    assert!(!ok);
    assert!(events.is_empty());
}

#[test]
fn stop_fails_at_a_missing_note() {
    let mut store = InMemoryStore::new();
    store.add_symphony(Symphony { name: "S".into(), notes: vec!["a".into(), "gone".into(), "b".into()], state: SymphonyState::Running });
    store.add_note(note("a", "S", "h", NoteState::Running));
    store.add_note(note("b", "S", "h", NoteState::Running));
    let (ok, events) = stop_symphony(&mut store, "S");
    assert!(!ok);
    assert_eq!(events.len(), 1);
    assert_eq!(store.get_note("S", "a").unwrap().state, NoteState::Terminating);
    assert_eq!(store.get_note("S", "b").unwrap().state, NoteState::Running);
    assert_eq!(*store.get_symphony("S").unwrap().state(), SymphonyState::Running);
}

#[test]
fn test_notes_sse_watch() {
    let mut store = InMemoryStore::new();
    let mut wm = WatchManager::default();
    let mut receiver = wm.subscribe_note(FieldSelector::default());
    let events = start_symphony(
        &mut store,
        &CreateSymphony { name: "WatchTestSymphony".into(), notes: vec![create_note("WatchNote", "echo", &["Hello"])] },
    );
    for e in events {
        match e {
            WatchEvent::Note(e) => wm.notify_note(e),
            WatchEvent::Symphony(e) => wm.notify_symphony(e),
        }
    }
    let added = receiver.try_recv().expect("Expected SSE 'added' event");
    assert_eq!(added.event_type.to_string(), EventType::Added.to_string());
    assert_eq!(added.resource.name, "WatchNote");
    assert_eq!(added.resource.symphony, "WatchTestSymphony");
    assert!(matches!(receiver.try_recv(), Err(TryRecvError::Empty)));
}

#[test]
fn watch_manager_filters_by_host() {
    let mut wm = WatchManager::new();
    let mut mine = wm.subscribe_note(FieldSelector::from_query("host=me"));
    let mut principals = wm.subscribe_principal(FieldSelector::from_query("host=p1"));
    wm.notify_note(orchestra::watcher::Event { event_type: EventType::Added, resource: note("x", "s", "other", NoteState::Pending) });
    wm.notify_note(orchestra::watcher::Event { event_type: EventType::Added, resource: note("y", "s", "me", NoteState::Pending) });
    assert_eq!(mine.try_recv().unwrap().resource.name, "y");
    assert!(matches!(mine.try_recv(), Err(TryRecvError::Empty)));
    wm.notify_principal(orchestra::watcher::Event {
        event_type: EventType::Modified,
        resource: Principal { host: "p1".into(), capabilities: vec![], state: PrincipalState::Ready, last_updated: 0 },
    });
    assert_eq!(principals.try_recv().unwrap().resource.host, "p1");
}

#[test]
fn update_errors_name_the_missing_record() {
    let mut store = InMemoryStore::new();
    assert_eq!(store.update_note(note("n", "s", "h", NoteState::Pending)), Err("Note 's:n' not found".to_string()));
    assert_eq!(
        store.update_symphony(Symphony { name: "s".into(), notes: vec![], state: SymphonyState::Running }),
        Err("Symphony 's' not found".to_string())
    );
    assert_eq!(
        store.update_principal(Principal { host: "h".into(), capabilities: vec![], state: PrincipalState::Ready, last_updated: 0 }),
        Err("Principal 'h' not found".to_string())
    );
    store.add_note(note("n", "s", "h", NoteState::Pending));
    assert_eq!(store.update_note(note("n", "s", "h2", NoteState::Running)), Ok(()));
    assert_eq!(store.get_note("s", "n").unwrap().host, "h2");
}

#[test]
fn store_read_after_write_and_remove() {
    let mut store = InMemoryStore::new();
    store.add_note(note("n", "s", "h", NoteState::Pending));
    store.add_note(note("n", "t", "h", NoteState::Pending));
    store.add_note(note("n", "s", "h3", NoteState::Crashed));
    assert_eq!(store.get_all_notes().len(), 2);
    assert_eq!(store.get_note("s", "n").unwrap().host, "h3");
    store._update_note_state("s", "n", NoteState::Completed);
    assert_eq!(store.get_note("s", "n").unwrap().state, NoteState::Completed);
    store._update_note_state("s", "missing", NoteState::Completed);
    store.remove_note("s", "n");
    assert!(store.get_note("s", "n").is_none());
    assert!(store.get_note("t", "n").is_some());
    store.add_symphony(Symphony { name: "s".into(), notes: vec![], state: SymphonyState::Running });
    assert_eq!(store.get_all_symphonies().len(), 1);
    store.remove_symphony("s");
    assert!(store.get_symphony("s").is_none());
    store.add_principal(Principal { host: "h".into(), capabilities: vec![], state: PrincipalState::Ready, last_updated: 1 });
    store._remove_principal("h");
    assert!(store.get_principal("h").is_none());
    assert!(store.get_symphony_with_notes("s").is_none());
}

#[test]
fn dto_conversions() {
    let dto = SymphonyDto {
        name: "S".into(),
        notes: vec![NoteDto {
            name: "a".into(),
            description: "d".into(),
            host: "h".into(),
            command: "c".into(),
            args: vec!["x".into()],
            env: vec![("K".into(), "V".into())],
            restart_policy: RestartPolicy::OnFailure,
        }],
    };
    let s = dto.to_data_obj();
    assert_eq!(s.name(), "S");
    assert_eq!(s.notes(), vec!["a".to_string()]);
    assert_eq!(*s.state(), SymphonyState::Running);
    let n = dto.notes[0].to_data_obj("S");
    assert_eq!(n.symphony, "S");
    assert_eq!(n.state, NoteState::Pending);
    assert_eq!(n.env, vec![("K".to_string(), "V".to_string())]);
    assert_eq!(n.restart_policy, RestartPolicy::OnFailure);
}

#[test]
fn terminating_note_survives_a_heartbeat_that_does_not_terminate_it() {
    let mut store = store_with_note("n", NoteState::Terminating, SymphonyState::Running);
    let before = store.get_note("my-symphony", "n").unwrap();
    let events = principal_heartbeat(
        &mut store,
        heartbeat(
            "h",
            vec![
                ("my-symphony", "n", NoteState::Running),
                ("my-symphony", "n", NoteState::Crashed),
                ("other", "x", NoteState::Terminated),
            ],
        ),
        1,
    );
    assert!(events.is_empty());
    let after = store.get_note("my-symphony", "n").unwrap();
    assert_eq!(after.state, NoteState::Terminating);
    assert_eq!(after.host, before.host);
}

#[test]
fn last_note_terminated_within_a_heartbeat_closes_the_symphony() {
    let mut store = store_with_note("n", NoteState::Running, SymphonyState::Terminating);
    let events = principal_heartbeat(
        &mut store,
        heartbeat(
            "h",
            vec![
                ("my-symphony", "n", NoteState::Crashed),
                ("my-symphony", "n", NoteState::Terminated),
                ("my-symphony", "n", NoteState::Running),
            ],
        ),
        1,
    );
    assert!(store.get_note("my-symphony", "n").is_none());
    assert!(store.get_symphony("my-symphony").is_none());
    assert_eq!(events.len(), 4);
    match (&events[2], &events[3]) {
        (WatchEvent::Note(n), WatchEvent::Symphony(s)) => {
            assert!(matches!(n.event_type, EventType::Deleted));
            assert_eq!(n.resource.name, "n");
            assert!(matches!(s.event_type, EventType::Deleted));
            assert_eq!(s.resource.name, "my-symphony");
        }
        _ => panic!("expected the note's deletion, then the symphony's"),
    }
}

#[test]
fn symphony_with_notes_lists_note_names() {
    let w = orchestra::maestro::dto::SymphonyWithNotes {
        name: "S".to_string(),
        notes: vec![
            note("a", "S", "h", NoteState::Running),
            note("b", "S", "h", NoteState::Pending),
        ],
        state: SymphonyState::Running,
    };
    assert_eq!(w.notes(), vec!["a".to_string(), "b".to_string()]);
    assert_eq!(w.name(), "S");
}

#[test]
fn terminating_symphony_takes_no_new_notes() {
    let mut store = store_with_note("n", NoteState::Running, SymphonyState::Terminating);
    store.add_note(note("late", "my-symphony", "h", NoteState::Pending));
    assert!(store.get_note("my-symphony", "late").is_none());
    // A stored note of it can still be replaced.
    store.add_note(note("n", "my-symphony", "h", NoteState::Crashed));
    assert_eq!(store.get_note("my-symphony", "n").unwrap().state, NoteState::Crashed);
    // A running symphony takes new notes.
    let mut store = store_with_note("n", NoteState::Running, SymphonyState::Running);
    store.add_note(note("late", "my-symphony", "h", NoteState::Pending));
    assert!(store.get_note("my-symphony", "late").is_some());
}

#[test]
fn links_agree_checks_notes_against_symphonies() {
    let store = InMemoryStore::new();
    assert!(store.links_agree());
    let store = store_with_note("n", NoteState::Running, SymphonyState::Running);
    assert!(store.links_agree());
    let mut lone = InMemoryStore::new();
    lone.add_note(note("n", "nowhere", "h", NoteState::Pending));
    assert!(!lone.links_agree());
    let mut missing = InMemoryStore::new();
    missing.add_symphony(Symphony { name: "S".into(), notes: vec!["a".into()], state: SymphonyState::Running });
    assert!(!missing.links_agree());
    let mut unnamed = store_with_note("n", NoteState::Running, SymphonyState::Running);
    unnamed.add_note(note("extra", "my-symphony", "h", NoteState::Pending));
    assert!(!unnamed.links_agree());
}
