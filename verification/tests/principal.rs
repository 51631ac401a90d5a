use orchestra::maestro::models::{Note, NoteState, RestartPolicy};
use orchestra::principal::config::{default_heartbeat_interval, PrincipalConfig};
use orchestra::principal::note_process::ManagedNotes;
use orchestra::principal::StreamMessage;

fn note(name: &str, state: NoteState, policy: RestartPolicy) -> Note {
    Note {
        name: name.to_string(),
        description: String::new(),
        host: "me".to_string(),
        command: "echo".to_string(),
        args: vec![],
        env: vec![],
        restart_policy: policy,
        symphony: "s".to_string(),
        state,
    }
}

#[test]
fn start_then_running_note_is_not_started_again() {
    let mut notes = ManagedNotes::new();
    let n = note("a", NoteState::Pending, RestartPolicy::Never);
    assert!(notes.start_decision(&n));
    notes.record_started(n.clone(), Some(42));
    assert!(!notes.start_decision(&n));
    let hb = notes.heartbeat();
    assert_eq!(hb.name, "me");
    assert_eq!(hb.notes.len(), 1);
    assert_eq!(hb.notes[0].state, NoteState::Running);
    assert_eq!(hb.notes[0].symphony, "s");
}

#[test]
fn failed_spawn_marks_note_terminated() {
    let mut notes = ManagedNotes::new();
    notes.record_started(note("a", NoteState::Pending, RestartPolicy::Never), None);
    let hb = notes.heartbeat();
    assert_eq!(hb.notes[0].state, NoteState::Terminated);
    // Without a process and not running, it may be tried again.
    assert!(notes.start_decision(&note("a", NoteState::Pending, RestartPolicy::Never)));
}

#[test]
fn terminating_note_is_not_started() {
    let notes = ManagedNotes::new();
    assert!(!notes.start_decision(&note("a", NoteState::Terminating, RestartPolicy::Always)));
}

#[test]
fn stop_note_kills_only_notes_with_a_process() {
    let mut notes = ManagedNotes::new();
    assert_eq!(notes.stop_note("missing"), None);
    notes.record_started(note("a", NoteState::Pending, RestartPolicy::Never), Some(7));
    notes.record_started(note("b", NoteState::Pending, RestartPolicy::Never), None);
    assert_eq!(notes.stop_note("a"), Some(7));
    assert_eq!(notes.stop_note("b"), None);
    // A killed note is not restarted when its process exits.
    assert!(notes.handle_exit("a", 137).is_none());
}

#[test]
fn exit_follows_restart_policy() {
    let mut notes = ManagedNotes::new();
    notes.record_started(note("always", NoteState::Pending, RestartPolicy::Always), Some(1));
    notes.record_started(note("onfail", NoteState::Pending, RestartPolicy::OnFailure), Some(2));
    notes.record_started(note("never", NoteState::Pending, RestartPolicy::Never), Some(3));
    let again = notes.handle_exit("always", 0).expect("always restarts");
    assert_eq!(again.state, NoteState::Completed);
    assert!(notes.start_decision(&again));
    assert!(notes.handle_exit("onfail", 0).is_none());
    notes.record_started(note("onfail", NoteState::Pending, RestartPolicy::OnFailure), Some(4));
    let again = notes.handle_exit("onfail", 2).expect("restarts on failure");
    assert_eq!(again.state, NoteState::Crashed);
    assert!(notes.handle_exit("never", 1).is_none());
    assert!(notes.handle_exit("unknown", 1).is_none());
    let hb = notes.heartbeat();
    let never = hb.notes.iter().find(|n| n.name == "never").unwrap();
    assert_eq!(never.state, NoteState::Crashed);
}

#[test]
fn synchronize_drops_unlisted_and_stops_terminating() {
    let mut notes = ManagedNotes::new();
    notes.record_started(note("gone", NoteState::Pending, RestartPolicy::Never), Some(10));
    notes.record_started(note("stays", NoteState::Pending, RestartPolicy::Never), Some(11));
    notes.record_started(note("stopping", NoteState::Pending, RestartPolicy::Never), Some(12));
    let kills = notes.synchronize_state(vec![
        note("stays", NoteState::Running, RestartPolicy::Never),
        note("stopping", NoteState::Terminating, RestartPolicy::Never),
        note("new", NoteState::Pending, RestartPolicy::Never),
    ]);
    assert_eq!(kills, vec![10, 12]);
    let hb = notes.heartbeat();
    let mut names: Vec<String> = hb.notes.iter().map(|n| n.name.clone()).collect();
    names.sort();
    assert_eq!(names, vec!["new".to_string(), "stays".to_string(), "stopping".to_string()]);
    // "stays" keeps its process, so it is not started again.
    assert!(!notes.start_decision(&note("stays", NoteState::Completed, RestartPolicy::Never)));
    // "new" has no process yet.
    assert!(notes.start_decision(&note("new", NoteState::Pending, RestartPolicy::Never)));
}

#[test]
fn modified_and_deleted_events() {
    let mut notes = ManagedNotes::new();
    notes.record_started(note("a", NoteState::Pending, RestartPolicy::Never), Some(5));
    assert_eq!(notes.on_modified(&note("a", NoteState::Running, RestartPolicy::Never)), None);
    assert_eq!(notes.on_modified(&note("x", NoteState::Terminating, RestartPolicy::Never)), None);
    assert_eq!(notes.on_modified(&note("a", NoteState::Terminating, RestartPolicy::Never)), Some(5));
    assert_eq!(notes.on_deleted("a"), Some(5));
    assert!(notes.heartbeat().notes.is_empty());
    assert_eq!(notes.on_deleted("a"), None);
}

#[test]
fn stream_message_names() {
    assert_eq!(StreamMessage::from_event_name("list"), StreamMessage::List);
    assert_eq!(StreamMessage::from_event_name("added"), StreamMessage::Added);
    assert_eq!(StreamMessage::from_event_name("modified"), StreamMessage::Modified);
    assert_eq!(StreamMessage::from_event_name("deleted"), StreamMessage::Deleted);
    assert_eq!(StreamMessage::from_event_name("keep-alive"), StreamMessage::Unknown);
}

#[test]
fn config_defaults_and_urls() {
    assert_eq!(default_heartbeat_interval(), 500);
    let c = PrincipalConfig { maestro_server_address: "http://m:3000".into(), heartbeat_interval_ms: 500 };
    assert_eq!(c.heartbeat_url(), "http://m:3000/api/v1/principals");
    assert_eq!(c.notes_watch_url(), "http://m:3000/api/v1/notes?watch=true&field_selector=host=me");
}
