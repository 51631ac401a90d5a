use orchestra::auditorium::dto::{CreateSymphony, CreateSymphonyNote};
use orchestra::auditorium::tracked_symphonies::{
    AuditoriumResourceState, InMemoryAuditoriumStore, TrackedStatus, TrackedSymphony,
};
use orchestra::auditorium::{stop_symphony_url, symphonies_url, symphonies_watch_url};
use orchestra::maestro::dto::SymphonyWithNotes;
use orchestra::maestro::models::{Note, NoteState, RestartPolicy, SymphonyState};

fn maestro_note(name: &str, state: NoteState) -> Note {
    Note {
        name: name.to_string(),
        description: String::new(),
        host: "me".to_string(),
        command: "echo".to_string(),
        args: vec![],
        env: vec![],
        restart_policy: RestartPolicy::Never,
        symphony: "Symphony1".to_string(),
        state,
    }
}

fn by_name(list: &[TrackedSymphony], name: &str) -> TrackedSymphony {
    list.iter().find(|s| s.name == name).unwrap().clone()
}

fn payload(name: &str, notes: &[&str]) -> CreateSymphony {
    CreateSymphony {
        name: name.to_string(),
        notes: notes
            .iter()
            .map(|n| CreateSymphonyNote {
                name: n.to_string(),
                description: "d".into(),
                host: "h".into(),
                command: "c".into(),
                args: vec![],
                env: vec![],
                restart_policy: RestartPolicy::Always,
            })
            .collect(),
    }
}

#[test]
fn defaults_hold_two_stopped_symphonies() {
    let store = InMemoryAuditoriumStore::with_defaults();
    let all = store.merged_symphonies(None);
    assert_eq!(all.len(), 2);
    let s1 = by_name(&all, "Symphony1");
    assert_eq!(s1.notes.len(), 2);
    assert_eq!(s1.notes[0].name, "Note1");
    assert_eq!(s1.notes[0].args, vec!["Hello".to_string(), "World".to_string()]);
    assert_eq!(s1.notes[1].command, "ping");
    assert_eq!(s1.notes[1].env, vec![("VAR1".to_string(), "value1".to_string())]);
    let s2 = by_name(&all, "MyHardcodedSymphony");
    assert!(s2.notes.is_empty());
    assert_eq!(s2.auditorium_state, AuditoriumResourceState::Stopped);
}

#[test]
fn merge_with_maestro_list() {
    let store = InMemoryAuditoriumStore::with_defaults();
    let maestro = vec![SymphonyWithNotes {
        name: "Symphony1".into(),
        notes: vec![maestro_note("Note1", NoteState::Running)],
        state: SymphonyState::Running,
    }];
    let all = store.merged_symphonies(Some(&maestro));
    let s1 = by_name(&all, "Symphony1");
    assert_eq!(s1.auditorium_state, AuditoriumResourceState::Running);
    assert_eq!(s1.notes[0].auditorium_state, AuditoriumResourceState::Running);
    assert_eq!(s1.notes[0].state, NoteState::Running);
    assert_eq!(s1.notes[1].auditorium_state, AuditoriumResourceState::Stopped);
    assert_eq!(s1.notes[1].state, NoteState::Terminated);
    let s2 = by_name(&all, "MyHardcodedSymphony");
    assert_eq!(s2.auditorium_state, AuditoriumResourceState::Stopped);
}

#[test]
fn later_maestro_entry_wins() {
    let store = InMemoryAuditoriumStore::with_defaults();
    let maestro = vec![SymphonyWithNotes {
        name: "Symphony1".into(),
        notes: vec![maestro_note("Note2", NoteState::Pending), maestro_note("Note2", NoteState::Crashed)],
        state: SymphonyState::Running,
    }];
    let all = store.merged_symphonies(Some(&maestro));
    let s1 = by_name(&all, "Symphony1");
    assert_eq!(s1.notes[1].state, NoteState::Crashed);
}

#[test]
fn merge_in_place_and_mark_stopped() {
    let mut store = InMemoryAuditoriumStore::with_defaults();
    let maestro = vec![SymphonyWithNotes {
        name: "Symphony1".into(),
        notes: vec![maestro_note("Note1", NoteState::Running), maestro_note("Note2", NoteState::Completed)],
        state: SymphonyState::Running,
    }];
    store.merge_symphonies(&maestro);
    let s1 = by_name(&store.merged_symphonies(Some(&maestro)), "Symphony1");
    assert_eq!(s1.notes[1].state, NoteState::Completed);
    store.mark_stopped(&"Symphony1".to_string());
    // Matched against an empty list, everything stops; mark_stopped alone keeps note states.
    let mut copy = InMemoryAuditoriumStore::with_defaults();
    copy.merge_symphonies(&maestro);
    copy.mark_stopped(&"Symphony1".to_string());
    let after = by_name(&copy.merged_symphonies(Some(&maestro)), "Symphony1");
    assert_eq!(after.auditorium_state, AuditoriumResourceState::Running);
}

#[test]
fn create_update_delete_tracked() {
    let mut store = InMemoryAuditoriumStore::new();
    assert_eq!(store.create_tracked_symphony(payload("A", &["n1"])), TrackedStatus::Created);
    assert_eq!(store.create_tracked_symphony(payload("A", &[])), TrackedStatus::Conflict);
    let all = store.merged_symphonies(None);
    assert_eq!(all[0].notes[0].state, NoteState::Terminated);
    assert_eq!(all[0].notes[0].restart_policy, RestartPolicy::Always);
    assert_eq!(store.update_tracked_symphony(&"B".to_string(), payload("B", &[])), TrackedStatus::NotFound);
    assert_eq!(store.update_tracked_symphony(&"A".to_string(), payload("C", &["x", "y"])), TrackedStatus::Succeeded);
    assert!(!store.contains(&"A".to_string()));
    assert!(store.contains(&"C".to_string()));
    assert_eq!(store.merged_symphonies(None)[0].notes.len(), 2);
    assert_eq!(store.delete_tracked_symphony(&"C".to_string()), TrackedStatus::Succeeded);
    assert_eq!(store.delete_tracked_symphony(&"C".to_string()), TrackedStatus::NotFound);
    assert!(store.merged_symphonies(None).is_empty());
}

#[test]
fn proxy_urls() {
    assert_eq!(symphonies_url("http://m:3000"), "http://m:3000/api/v1/symphonies");
    assert_eq!(stop_symphony_url("http://m:3000", "S1"), "http://m:3000/api/v1/symphonies/S1/stop");
    assert_eq!(symphonies_watch_url("http://m:3000"), "http://m:3000/api/v1/symphonies?watch=true");
}
