use orchestra::watcher::field_selector::{FieldSelector, FieldSelectorBuilder, Operator};
use orchestra::watcher::{Event, EventType, Watchable, Watcher};
use orchestra::maestro::models::{Note, NoteState, RestartPolicy, Symphony, SymphonyState};
use tokio::sync::mpsc::error::TryRecvError;

fn note(name: &str, symphony: &str, host: &str) -> Note {
    Note {
        name: name.to_string(),
        description: "desc".to_string(),
        host: host.to_string(),
        command: "echo".to_string(),
        args: vec![],
        env: vec![],
        restart_policy: RestartPolicy::Never,
        symphony: symphony.to_string(),
        state: NoteState::Pending,
    }
}

#[test]
fn test_watcher() {
    let mut watcher = Watcher::<Symphony>::new();
    let field_selector = FieldSelectorBuilder::new().eq("name", "bar").build();
    let mut receiver = watcher.subscribe(field_selector);
    let resource1 = Symphony { name: "bar".to_string(), notes: vec![], state: SymphonyState::Running };
    watcher.notify(Event { event_type: EventType::Added, resource: resource1 });
    let event = receiver.try_recv().expect("Should be able to receive");
    assert_eq!(event.resource.name, "bar");
}

#[test]
fn test_nested_watcher() {
    let mut watcher = Watcher::<Note>::new();
    let field_selector = FieldSelectorBuilder::new().eq("symphony", "bar").build();
    let mut receiver = watcher.subscribe(field_selector);
    let resource1 = note("n", "bar", "h");
    watcher.notify(Event { event_type: EventType::Added, resource: resource1 });
    let event = receiver.try_recv().expect("Should be able to receive");
    assert_eq!(event.resource.symphony, "bar");
}

#[test]
fn test_negative_nested_watcher() {
    let mut watcher = Watcher::<Note>::new();
    let field_selector = FieldSelectorBuilder::new().eq("foo", "non match").build();
    let mut receiver = watcher.subscribe(field_selector);
    let resource1 = note("n", "bar", "h");
    watcher.notify(Event { event_type: EventType::Added, resource: resource1 });
    let event = receiver.try_recv();
    assert!(matches!(event, Err(TryRecvError::Empty)));
}

#[test]
fn test_no_selector() {
    let mut watcher = Watcher::<Note>::new();
    let field_selector = FieldSelector::default();
    let mut receiver = watcher.subscribe(field_selector);
    let resource1 = note("n", "bar", "h");
    watcher.notify(Event { event_type: EventType::Added, resource: resource1 });
    let event = receiver.try_recv().expect("Should be able to receive");
    assert_eq!(event.resource.symphony, "bar");
}

#[test]
fn not_equals_selector_filters_events() {
    let mut watcher = Watcher::<Note>::new();
    let mut receiver = watcher.subscribe(FieldSelector::builder().ne("host", "bar").build());
    watcher.notify(Event { event_type: EventType::Added, resource: note("a", "s", "bar") });
    watcher.notify(Event { event_type: EventType::Modified, resource: note("b", "s", "baz") });
    let event = receiver.try_recv().expect("the second event matches");
    assert_eq!(event.resource.host, "baz");
    assert!(matches!(event.event_type, EventType::Modified));
    assert!(matches!(receiver.try_recv(), Err(TryRecvError::Empty)));
}

#[test]
fn missing_field_never_matches() {
    let mut watcher = Watcher::<Note>::new();
    let mut receiver = watcher.subscribe(FieldSelector::builder().ne("state", "x").build());
    watcher.notify(Event { event_type: EventType::Added, resource: note("a", "s", "h") });
    assert!(matches!(receiver.try_recv(), Err(TryRecvError::Empty)));
}

#[test]
fn closed_receiver_is_dropped_and_others_still_served() {
    let mut watcher = Watcher::<Note>::new();
    let gone = watcher.subscribe(FieldSelector::default());
    let mut kept = watcher.subscribe(FieldSelector::default());
    drop(gone);
    watcher.notify(Event { event_type: EventType::Deleted, resource: note("a", "s", "h") });
    watcher.notify(Event { event_type: EventType::Deleted, resource: note("b", "s", "h") });
    assert_eq!(kept.try_recv().unwrap().resource.name, "a");
    assert_eq!(kept.try_recv().unwrap().resource.name, "b");
}

#[test]
fn apply_field_conditions_checks_every_condition() {
    let selector = FieldSelector::builder().eq("command", "echo").ne("host", "baz").build();
    let r = note("a", "s", "bar");
    assert!(Watcher::<Note>::apply_field_conditions(&r, &selector.conditions));
    let selector = FieldSelector::builder().eq("host", "bar").eq("host", "baz").build();
    assert!(!Watcher::<Note>::apply_field_conditions(&r, &selector.conditions));
    let n = note("a", "s", "h");
    assert_eq!(n.get_field_value("description"), Some("desc".to_string()));
    assert_eq!(n.get_field_value("args"), None);
}

#[test]
fn event_type_names() {
    assert_eq!(EventType::Added.to_string(), "added");
    assert_eq!(EventType::Modified.to_string(), "modified");
    assert_eq!(EventType::Deleted.to_string(), "deleted");
}

fn conds(s: &FieldSelector) -> Vec<(String, bool, String)> {
    s.conditions
        .iter()
        .map(|c| (c.field_name.clone(), matches!(c.operator, Operator::Equals), c.value.clone()))
        .collect()
}

#[test]
fn from_query_parses_equals_and_not_equals() {
    let s = FieldSelector::from_query("host=me,name!=idle");
    assert_eq!(
        conds(&s),
        vec![
            ("host".to_string(), true, "me".to_string()),
            ("name".to_string(), false, "idle".to_string())
        ]
    );
}

#[test]
fn from_query_empty_and_invalid_pieces() {
    assert!(FieldSelector::from_query("").conditions.is_empty());
    assert!(FieldSelector::from_query("novalue").conditions.is_empty());
    let s = FieldSelector::from_query(",a=b,,c");
    assert_eq!(conds(&s), vec![("a".to_string(), true, "b".to_string())]);
}

#[test]
fn from_query_first_not_equals_wins_over_earlier_equals() {
    let s = FieldSelector::from_query("a=b!=c");
    assert_eq!(conds(&s), vec![("a=b".to_string(), false, "c".to_string())]);
    let s = FieldSelector::from_query("a==b");
    assert_eq!(conds(&s), vec![("a".to_string(), true, "=b".to_string())]);
    let s = FieldSelector::from_query("k=");
    assert_eq!(conds(&s), vec![("k".to_string(), true, "".to_string())]);
}

#[test]
fn from_query_handles_non_ascii() {
    let s = FieldSelector::from_query("nämé=wért");
    assert_eq!(conds(&s), vec![("nämé".to_string(), true, "wért".to_string())]);
}

#[test]
fn builder_keeps_order() {
    let s = FieldSelectorBuilder::default().eq("a", "1").ne("b", "2").build();
    assert_eq!(
        conds(&s),
        vec![("a".to_string(), true, "1".to_string()), ("b".to_string(), false, "2".to_string())]
    );
    assert!(FieldSelector::new().conditions.is_empty());
}

#[test]
fn selected_subscribers_follow_each_selector() {
    let mut watcher = Watcher::<Note>::new();
    let _a = watcher.subscribe(FieldSelector::builder().eq("host", "h1").build());
    let _b = watcher.subscribe(FieldSelector::default());
    let _c = watcher.subscribe(FieldSelector::builder().ne("host", "h1").build());
    assert_eq!(watcher.selected_subscribers(&note("n", "s", "h1")), vec![true, true, false]);
    assert_eq!(watcher.selected_subscribers(&note("n", "s", "h2")), vec![false, true, true]);
}

#[test]
fn retain_subscribers_keeps_live_ones_that_were_reached_or_not_selected() {
    let mut watcher = Watcher::<Note>::new();
    let mut r0 = watcher.subscribe(FieldSelector::default());
    let mut r1 = watcher.subscribe(FieldSelector::default());
    let mut r2 = watcher.subscribe(FieldSelector::default());
    let mut r3 = watcher.subscribe(FieldSelector::default());
    watcher.retain_subscribers(
        &vec![true, false, false, false],
        &vec![false, true, true, false],
        &vec![false, true, false, false],
    );
    watcher.notify(Event { event_type: EventType::Added, resource: note("a", "s", "h") });
    assert!(matches!(r0.try_recv(), Err(TryRecvError::Disconnected)));
    assert_eq!(r1.try_recv().unwrap().resource.name, "a");
    assert!(matches!(r2.try_recv(), Err(TryRecvError::Disconnected)));
    assert_eq!(r3.try_recv().unwrap().resource.name, "a");
}

#[test]
fn notify_hands_the_event_once_to_matching_subscribers_only() {
    let mut watcher = Watcher::<Note>::new();
    let mut matching = watcher.subscribe(FieldSelector::builder().eq("host", "h").build());
    let mut other = watcher.subscribe(FieldSelector::builder().eq("host", "x").build());
    watcher.notify(Event { event_type: EventType::Modified, resource: note("a", "s", "h") });
    let e = matching.try_recv().unwrap();
    assert_eq!(e.resource.name, "a");
    assert!(matches!(e.event_type, EventType::Modified));
    assert!(matches!(matching.try_recv(), Err(TryRecvError::Empty)));
    assert!(matches!(other.try_recv(), Err(TryRecvError::Empty)));
    // The non-matching subscriber stays and gets later events that match it.
    watcher.notify(Event { event_type: EventType::Added, resource: note("b", "s", "x") });
    assert_eq!(other.try_recv().unwrap().resource.name, "b");
    assert!(matches!(matching.try_recv(), Err(TryRecvError::Empty)));
}
