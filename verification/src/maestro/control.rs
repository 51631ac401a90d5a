//! What the maestro does on a request or a heartbeat: the changes to its
//! store and the events that its watchers must be told of, in order.
use vstd::prelude::*;
use crate::keyed::{lemma_map_of_keys, Keyed};
use crate::maestro::dto::{
    carries_request, create_notes_names, heartbeat_notes_view, requested_symphony, CreateNote, CreateSymphony, HeartbeatDto,
    HeartbeatNoteDto, HeartbeatNoteView, SymphonyWithNotes, SymphonyWithNotesView,
};
use crate::maestro::models::{
    lemma_without_contains, links_consistent, records_keyed, notes_present, with_notes, without, without_name, InMemoryStore, MaestroModel, Note,
    NoteState, NoteView, Principal, PrincipalState, PrincipalView, Symphony, SymphonyState, SymphonyView,
};
use crate::watcher::{Event, EventType};

verus! {

/// An event for the note watchers or for the symphony watchers.
pub enum WatchEvent {
    Note(Event<Note>),
    Symphony(Event<SymphonyWithNotes>),
}

pub enum WatchEventView {
    Note(EventType, NoteView),
    Symphony(EventType, SymphonyWithNotesView),
}

impl View for WatchEvent {
    type V = WatchEventView;

    open spec fn view(&self) -> WatchEventView {
        match self {
            WatchEvent::Note(e) => WatchEventView::Note(e.event_type, e.resource@),
            WatchEvent::Symphony(e) => WatchEventView::Symphony(e.event_type, e.resource@),
        }
    }
}

pub open spec fn events_view(v: Seq<WatchEvent>) -> Seq<WatchEventView> {
    v.map_values(|e: WatchEvent| e@)
}

fn note_event(event_type: EventType, resource: Note) -> (r: WatchEvent)
    ensures
        r@ == WatchEventView::Note(event_type, resource@),
{
    WatchEvent::Note(Event { event_type, resource })
}

fn symphony_event(event_type: EventType, resource: SymphonyWithNotes) -> (r: WatchEvent)
    ensures
        r@ == WatchEventView::Symphony(event_type, resource@),
{
    WatchEvent::Symphony(Event { event_type, resource })
}

fn push_event(events: &mut Vec<WatchEvent>, e: WatchEvent)
    ensures
        events_view(final(events)@) == events_view(old(events)@).push(e@),
{
    events.push(e);
    assert(events_view(events@) =~= events_view(old(events)@).push(e@));
}

/// What one note of a heartbeat does, or `None` where the maestro cannot
/// take it (its records name a symphony that is not stored).
///
/// A reported note that is not stored is ignored. A note reported as
/// terminated is removed, with its name from its symphony; a terminating
/// symphony that so loses its last note is removed too. Any other report
/// changes a stored note's state, unless the note is terminating (it can
/// then only become terminated) or already has that state.
pub open spec fn heartbeat_note_step(m: MaestroModel, hn: HeartbeatNoteView) -> Option<(MaestroModel, Seq<WatchEventView>)> {
    let k = (hn.symphony, hn.name);
    if !m.notes.contains_key(k) {
        Some((m, Seq::empty()))
    } else if hn.state == NoteState::Terminated {
        let note = m.notes[k];
        if !m.symphonies.contains_key(hn.symphony) {
            None
        } else {
            let sym = m.symphonies[hn.symphony];
            let left = SymphonyView { notes: without(sym.notes, hn.name), ..sym };
            let m1 = MaestroModel { notes: m.notes.remove(k), symphonies: m.symphonies.insert(hn.symphony, left), ..m };
            let deleted = WatchEventView::Note(EventType::Deleted, note);
            if sym.state == SymphonyState::Terminating && left.notes.len() == 0 {
                Some(
                    (
                        MaestroModel { symphonies: m1.symphonies.remove(hn.symphony), ..m1 },
                        seq![deleted, WatchEventView::Symphony(EventType::Deleted, with_notes(m1.notes, left))],
                    ),
                )
            } else {
                Some((m1, seq![deleted]))
            }
        }
    } else {
        let note = m.notes[k];
        if note.state == NoteState::Terminating || note.state == hn.state {
            Some((m, Seq::empty()))
        } else {
            let updated = NoteView { state: hn.state, ..note };
            let notes = m.notes.insert(k, updated);
            if !m.symphonies.contains_key(hn.symphony) || !notes_present(notes, m.symphonies[hn.symphony]) {
                None
            } else {
                Some(
                    (
                        MaestroModel { notes, ..m },
                        seq![
                            WatchEventView::Note(EventType::Modified, updated),
                            WatchEventView::Symphony(EventType::Modified, with_notes(notes, m.symphonies[hn.symphony])),
                        ],
                    ),
                )
            }
        }
    }
}

/// The notes of a heartbeat, taken in order.
pub open spec fn heartbeat_notes_outcome(m: MaestroModel, ns: Seq<HeartbeatNoteView>) -> Option<(MaestroModel, Seq<WatchEventView>)>
    decreases ns.len(),
{
    if ns.len() == 0 {
        Some((m, Seq::empty()))
    } else {
        match heartbeat_notes_outcome(m, ns.drop_last()) {
            None => None,
            Some((m1, e1)) => match heartbeat_note_step(m1, ns.last()) {
                None => None,
                Some((m2, e2)) => Some((m2, e1 + e2)),
            },
        }
    }
}

/// The principal that a heartbeat from `host` at time `now` records.
pub open spec fn heartbeat_principal(host: Seq<char>, now: u64) -> PrincipalView {
    PrincipalView { host, capabilities: Seq::empty(), state: PrincipalState::Ready, last_updated: now }
}

fn apply_heartbeat_note(store: &mut InMemoryStore, hn: &HeartbeatNoteDto, events: &mut Vec<WatchEvent>)
    requires
        old(store).wf(),
        heartbeat_note_step(old(store).model(), hn@) is Some,
    ensures
        final(store).wf(),
        final(store).model() == heartbeat_note_step(old(store).model(), hn@).unwrap().0,
        events_view(final(events)@) == events_view(old(events)@) + heartbeat_note_step(old(store).model(), hn@).unwrap().1,
{
    let ghost m = store.model();
    let ghost k = (hn.symphony@, hn.name@);
    let note = match store.get_note(hn.symphony.as_str(), hn.name.as_str()) {
        Some(n) => n,
        None => {
            assert(events_view(events@) =~= events_view(events@) + Seq::<WatchEventView>::empty());
            return;
        },
    };
    proof {
        lemma_map_of_keys(store.note_entries());
    }
    if hn.state == NoteState::Terminated {
        let symphony = match store.get_symphony(hn.symphony.as_str()) {
            Some(s) => s,
            None => return,
        };
        let left = Symphony { name: symphony.name, notes: without_name(&symphony.notes, &hn.name), state: symphony.state };
        let should_remove = left.state == SymphonyState::Terminating && left.notes.len() == 0;
        proof {
            lemma_map_of_keys(store.symphony_entries());
        }
        let _ = store.update_symphony(left);
        store.remove_note(hn.symphony.as_str(), hn.name.as_str());
        push_event(events, note_event(EventType::Deleted, note));
        if should_remove {
            assert(notes_present(store.notes_map(), store.symphonies_map()[hn.symphony@]));
            let removed = match store.get_symphony_with_notes(hn.symphony.as_str()) {
                Some(w) => w,
                None => return,
            };
            store.remove_symphony(hn.symphony.as_str());
            push_event(events, symphony_event(EventType::Deleted, removed));
            assert(events_view(events@) =~= events_view(old(events)@) + heartbeat_note_step(m, hn@).unwrap().1);
        } else {
            assert(events_view(events@) =~= events_view(old(events)@) + heartbeat_note_step(m, hn@).unwrap().1);
        }
    } else {
        if note.state == NoteState::Terminating || note.state == hn.state {
            assert(events_view(events@) =~= events_view(events@) + Seq::<WatchEventView>::empty());
            return;
        }
        let mut updated = note;
        updated.state = hn.state;
        let _ = store.update_note(updated.clone());
        push_event(events, note_event(EventType::Modified, updated));
        let symphony = match store.get_symphony_with_notes(hn.symphony.as_str()) {
            Some(w) => w,
            None => return,
        };
        push_event(events, symphony_event(EventType::Modified, symphony));
        assert(events_view(events@) =~= events_view(old(events)@) + heartbeat_note_step(m, hn@).unwrap().1);
    }
}

/// Takes a principal's heartbeat: applies each reported note in order, then
/// records the principal as ready and seen at `now` (seconds since the epoch).
pub fn principal_heartbeat(store: &mut InMemoryStore, heartbeat: HeartbeatDto, now: u64) -> (events: Vec<WatchEvent>)
    requires
        old(store).wf(),
        heartbeat_notes_outcome(old(store).model(), heartbeat_notes_view(heartbeat.notes@)) is Some,
    ensures
        final(store).wf(),
        ({
            let (m, e) = heartbeat_notes_outcome(old(store).model(), heartbeat_notes_view(heartbeat.notes@)).unwrap();
            &&& final(store).model() == MaestroModel {
                principals: m.principals.insert(heartbeat.name@, heartbeat_principal(heartbeat.name@, now)),
                ..m
            }
            &&& events_view(events@) == e
        }),
        links_consistent(old(store).model()) ==> links_consistent(final(store).model()),
{
    let ghost m0 = store.model();
    let ghost ns = heartbeat_notes_view(heartbeat.notes@);
    proof {
        if links_consistent(m0) {
            law_heartbeat_keeps_links(m0, ns, heartbeat.name@, now);
        }
    }
    let mut events: Vec<WatchEvent> = Vec::new();
    let mut i: usize = 0;
    assert(ns.take(0) =~= Seq::<HeartbeatNoteView>::empty());
    assert(events_view(events@) =~= Seq::<WatchEventView>::empty());
    while i < heartbeat.notes.len()
        invariant
            store.wf(),
            i <= heartbeat.notes@.len(),
            ns == heartbeat_notes_view(heartbeat.notes@),
            heartbeat_notes_outcome(m0, ns) is Some,
            heartbeat_notes_outcome(m0, ns.take(i as int)) == Some((store.model(), events_view(events@))),
        decreases heartbeat.notes@.len() - i,
    {
        proof {
            assert(ns.take(i + 1).drop_last() =~= ns.take(i as int));
            lemma_outcome_prefix_some(m0, ns, i + 1);
        }
        apply_heartbeat_note(store, &heartbeat.notes[i], &mut events);
        i = i + 1;
    }
    assert(ns.take(heartbeat.notes@.len() as int) =~= ns);
    let principal = Principal {
        host: heartbeat.name,
        capabilities: Vec::new(),
        state: PrincipalState::Ready,
        last_updated: now,
    };
    assert(principal@.capabilities =~= Seq::<Seq<char>>::empty());
    store.upsert_principal(principal);
    events
}

/// If a sequence of heartbeat notes can be taken, so can each prefix of it.
proof fn lemma_outcome_prefix_some(m: MaestroModel, ns: Seq<HeartbeatNoteView>, j: int)
    requires
        0 <= j <= ns.len(),
        heartbeat_notes_outcome(m, ns) is Some,
    ensures
        heartbeat_notes_outcome(m, ns.take(j)) is Some,
    decreases ns.len() - j,
{
    if j < ns.len() {
        lemma_outcome_prefix_some(m, ns, j + 1);
        assert(ns.take(j + 1).drop_last() =~= ns.take(j));
    } else {
        assert(ns.take(j) =~= ns);
    }
}

/// One heartbeat note keeps the agreement of notes and symphonies, and can
/// always be taken where they agree.
pub proof fn lemma_heartbeat_note_keeps_links(m: MaestroModel, hn: HeartbeatNoteView)
    requires
        links_consistent(m),
    ensures
        heartbeat_note_step(m, hn) is Some,
        links_consistent(heartbeat_note_step(m, hn).unwrap().0),
{
    let k = (hn.symphony, hn.name);
    if !m.notes.contains_key(k) {
    } else if hn.state == NoteState::Terminated {
        assert(m.symphonies.contains_key(k.0));
        let sym = m.symphonies[hn.symphony];
        let left = SymphonyView { notes: without(sym.notes, hn.name), ..sym };
        let m1 = MaestroModel { notes: m.notes.remove(k), symphonies: m.symphonies.insert(hn.symphony, left), ..m };
        lemma_without_contains(sym.notes, hn.name);
        let removes = sym.state == SymphonyState::Terminating && left.notes.len() == 0;
        let m2 = if removes { MaestroModel { symphonies: m1.symphonies.remove(hn.symphony), ..m1 } } else { m1 };
        assert(heartbeat_note_step(m, hn).unwrap().0 == m2);
        assert forall|k2: (Seq<char>, Seq<char>)| #[trigger] m2.notes.contains_key(k2) implies m2.symphonies.contains_key(k2.0)
            && m2.symphonies[k2.0].notes.contains(k2.1) by {
            assert(m.notes.contains_key(k2));
            assert(m.symphonies.contains_key(k2.0));
            if k2.0 == hn.symphony {
                assert(k2.1 != hn.name);
                assert(left.notes.contains(k2.1));
                if removes {
                    let i = choose|i: int| 0 <= i < left.notes.len() && left.notes[i] == k2.1;
                    assert(false);
                }
            }
        }
        assert forall|s: Seq<char>| #[trigger] m2.symphonies.contains_key(s) implies notes_present(m2.notes, m2.symphonies[s]) by {
            if s == hn.symphony {
                assert forall|i: int| 0 <= i < left.notes.len() implies m2.notes.contains_key((s, #[trigger] left.notes[i])) by {
                    let y = left.notes[i];
                    assert(left.notes.contains(y));
                    assert(sym.notes.contains(y));
                    let j = choose|j: int| 0 <= j < sym.notes.len() && sym.notes[j] == y;
                    assert(notes_present(m.notes, sym));
                    assert(m.notes.contains_key((s, sym.notes[j])));
                }
            } else {
                let t = m.symphonies[s];
                assert(notes_present(m.notes, t));
                assert forall|i: int| 0 <= i < t.notes.len() implies m2.notes.contains_key((s, #[trigger] t.notes[i])) by {
                    assert(m.notes.contains_key((s, t.notes[i])));
                }
            }
        }
    } else {
        let note = m.notes[k];
        if note.state == NoteState::Terminating || note.state == hn.state {
        } else {
            let updated = NoteView { state: hn.state, ..note };
            let notes = m.notes.insert(k, updated);
            assert(m.symphonies.contains_key(hn.symphony));
            let t = m.symphonies[hn.symphony];
            assert(notes_present(m.notes, t));
            assert forall|i: int| 0 <= i < t.notes.len() implies notes.contains_key((hn.symphony, #[trigger] t.notes[i])) by {
                assert(m.notes.contains_key((hn.symphony, t.notes[i])));
            }
            let m2 = MaestroModel { notes, ..m };
            assert forall|s: Seq<char>| #[trigger] m2.symphonies.contains_key(s) implies notes_present(m2.notes, m2.symphonies[s]) by {
                let u = m.symphonies[s];
                assert(notes_present(m.notes, u));
                assert forall|i: int| 0 <= i < u.notes.len() implies notes.contains_key((s, #[trigger] u.notes[i])) by {
                    assert(m.notes.contains_key((s, u.notes[i])));
                }
            }
            assert forall|k2: (Seq<char>, Seq<char>)| #[trigger] m2.notes.contains_key(k2) implies m2.symphonies.contains_key(k2.0)
                && m2.symphonies[k2.0].notes.contains(k2.1) by {
                assert(m.notes.contains_key(k2));
            }
        }
    }
}

/// Law: where notes and symphonies agree, every heartbeat can be taken, and
/// they still agree afterwards.
pub proof fn law_heartbeat_keeps_links(m: MaestroModel, ns: Seq<HeartbeatNoteView>, host: Seq<char>, now: u64)
    requires
        links_consistent(m),
    ensures
        heartbeat_notes_outcome(m, ns) is Some,
        links_consistent(heartbeat_notes_outcome(m, ns).unwrap().0),
        links_consistent(
            MaestroModel {
                principals: heartbeat_notes_outcome(m, ns).unwrap().0.principals.insert(host, heartbeat_principal(host, now)),
                ..heartbeat_notes_outcome(m, ns).unwrap().0
            },
        ),
    decreases ns.len(),
{
    if ns.len() > 0 {
        law_heartbeat_keeps_links(m, ns.drop_last(), host, now);
        let m1 = heartbeat_notes_outcome(m, ns.drop_last()).unwrap().0;
        lemma_heartbeat_note_keeps_links(m1, ns.last());
    }
}

/// The notes that a request to create a symphony describes.
pub open spec fn requested_notes(notes: Seq<CreateNote>, symphony: Seq<char>) -> Seq<NoteView> {
    notes.map_values(|n: CreateNote| n.note_spec(symphony))
}

/// `m` with each note of `ns` stored under its key, in order.
pub open spec fn insert_notes(m: Map<(Seq<char>, Seq<char>), NoteView>, ns: Seq<NoteView>) -> Map<(Seq<char>, Seq<char>), NoteView>
    decreases ns.len(),
{
    if ns.len() == 0 {
        m
    } else {
        insert_notes(m, ns.drop_last()).insert(ns.last().key(), ns.last())
    }
}

/// Creating a symphony: nothing happens if one of that name is stored;
/// otherwise the symphony is stored, running and naming the requested notes,
/// the notes are stored as pending, and the watchers hear of each note and
/// then of the symphony.
pub open spec fn start_symphony_outcome(m: MaestroModel, name: Seq<char>, notes: Seq<NoteView>) -> (MaestroModel, Seq<WatchEventView>) {
    if m.symphonies.contains_key(name) {
        (m, Seq::empty())
    } else {
        let sym = requested_symphony(name, notes.map_values(|n: NoteView| n.name));
        let all = insert_notes(m.notes, notes);
        (
            MaestroModel { notes: all, symphonies: m.symphonies.insert(name, sym), ..m },
            notes.map_values(|n: NoteView| WatchEventView::Note(EventType::Added, n)).push(
                WatchEventView::Symphony(EventType::Added, with_notes(all, sym)),
            ),
        )
    }
}

/// Creates and starts a symphony with its notes, unless one of that name exists.
pub fn start_symphony(store: &mut InMemoryStore, symphony_dto: &CreateSymphony) -> (events: Vec<WatchEvent>)
    requires
        old(store).wf(),
    ensures
        final(store).wf(),
        (final(store).model(), events_view(events@)) == start_symphony_outcome(
            old(store).model(),
            symphony_dto.name@,
            requested_notes(symphony_dto.notes@, symphony_dto.name@),
        ),
        links_consistent(old(store).model()) ==> links_consistent(final(store).model()),
{
    let ghost m = store.model();
    let ghost name = symphony_dto.name@;
    let ghost ns = requested_notes(symphony_dto.notes@, name);
    proof {
        if links_consistent(m) {
            law_start_symphony_keeps_links(m, name, symphony_dto.notes@);
        }
    }
    let mut events: Vec<WatchEvent> = Vec::new();
    let symphony = symphony_dto.to_data_obj();
    let symphony_name = symphony.name();
    if store.get_symphony(symphony_name.as_str()).is_some() {
        assert(events_view(events@) =~= Seq::<WatchEventView>::empty());
        return events;
    }
    let ghost sym = symphony@;
    assert(create_notes_names(symphony_dto.notes@) =~= ns.map_values(|n: NoteView| n.name));
    store.add_symphony(symphony);
    let _ = store.set_symphony_state(symphony_name.as_str(), SymphonyState::Running);
    assert(store.symphonies_map() == m.symphonies.insert(name, sym));
    let mut i: usize = 0;
    while i < symphony_dto.notes.len()
        invariant
            store.wf(),
            i <= symphony_dto.notes@.len(),
            symphony_name@ == name,
            name == symphony_dto.name@,
            ns == requested_notes(symphony_dto.notes@, name),
            store.symphonies_map() == m.symphonies.insert(name, sym),
            sym.state == SymphonyState::Running,
            store.principals_map() == m.principals,
            store.notes_map() == insert_notes(m.notes, ns.take(i as int)),
            events_view(events@) == ns.take(i as int).map_values(|n: NoteView| WatchEventView::Note(EventType::Added, n)),
        decreases symphony_dto.notes@.len() - i,
    {
        let note = symphony_dto.notes[i].to_data_obj(symphony_name.as_str());
        let ghost before = events_view(events@);
        assert(note@.symphony == name);
        store.add_note(note.clone());
        push_event(&mut events, note_event(EventType::Added, note));
        proof {
            assert(ns.take(i + 1).drop_last() =~= ns.take(i as int));
            assert(ns.take(i + 1).map_values(|n: NoteView| WatchEventView::Note(EventType::Added, n))
                =~= ns.take(i as int).map_values(|n: NoteView| WatchEventView::Note(EventType::Added, n)).push(
                WatchEventView::Note(EventType::Added, ns[i as int])));
        }
        i = i + 1;
    }
    proof {
        assert(ns.take(symphony_dto.notes@.len() as int) =~= ns);
        lemma_insert_notes_present(m.notes, ns, name);
    }
    let with_notes_now = match store.get_symphony_with_notes(symphony_name.as_str()) {
        Some(w) => w,
        None => return events,
    };
    push_event(&mut events, symphony_event(EventType::Added, with_notes_now));
    events
}

/// Every note of `ns`, all of symphony `s`, is stored after they are inserted.
proof fn lemma_insert_notes_present(m: Map<(Seq<char>, Seq<char>), NoteView>, ns: Seq<NoteView>, s: Seq<char>)
    requires
        forall|i: int| 0 <= i < ns.len() ==> (#[trigger] ns[i]).symphony == s,
    ensures
        notes_present(insert_notes(m, ns), requested_symphony(s, ns.map_values(|n: NoteView| n.name))),
        forall|k: (Seq<char>, Seq<char>)| #[trigger] insert_notes(m, ns).contains_key(k) <==> (m.contains_key(k) || (k.0 == s
            && ns.map_values(|n: NoteView| n.name).contains(k.1))),
        forall|k: (Seq<char>, Seq<char>)| #[trigger] insert_notes(m, ns).contains_key(k) && !m.contains_key(k)
            ==> insert_notes(m, ns)[k].key() == k,
        forall|k: (Seq<char>, Seq<char>)| #[trigger] m.contains_key(k) && k.0 != s ==> insert_notes(m, ns)[k] == m[k],
    decreases ns.len(),
{
    let names = ns.map_values(|n: NoteView| n.name);
    if ns.len() > 0 {
        let p = ns.drop_last();
        lemma_insert_notes_present(m, p, s);
        let pnames = p.map_values(|n: NoteView| n.name);
        assert(pnames =~= names.drop_last());
        let l = ns.last();
        assert(l.symphony == s);
        assert forall|k: (Seq<char>, Seq<char>)| #[trigger] insert_notes(m, ns).contains_key(k) <==> (m.contains_key(k) || (k.0
            == s && names.contains(k.1))) by {
            if k.0 == s && names.contains(k.1) && k.1 != l.name {
                let j = choose|j: int| 0 <= j < names.len() && names[j] == k.1;
                assert(j < names.len() - 1);
                assert(pnames[j] == k.1);
            }
            if insert_notes(m, p).contains_key(k) && !m.contains_key(k) {
                let j = choose|j: int| 0 <= j < pnames.len() && pnames[j] == k.1;
                assert(names[j] == k.1);
            }
            if k == l.key() {
                assert(names[names.len() - 1] == k.1);
            }
        }
    }
}

/// Marking the notes `names` of symphony `s` as terminating, in order,
/// stops at the first name that is not stored (the result then says `false`);
/// the watchers hear of each note that was marked.
pub open spec fn stop_notes(
    notes: Map<(Seq<char>, Seq<char>), NoteView>,
    s: Seq<char>,
    names: Seq<Seq<char>>,
) -> (Map<(Seq<char>, Seq<char>), NoteView>, Seq<WatchEventView>, bool)
    decreases names.len(),
{
    if names.len() == 0 {
        (notes, Seq::empty(), true)
    } else {
        let (n1, e1, ok1) = stop_notes(notes, s, names.drop_last());
        let k = (s, names.last());
        if !ok1 {
            (n1, e1, false)
        } else if n1.contains_key(k) {
            let v = NoteView { state: NoteState::Terminating, ..n1[k] };
            (n1.insert(k, v), e1.push(WatchEventView::Note(EventType::Modified, v)), true)
        } else {
            (n1, e1, false)
        }
    }
}

/// Stopping a symphony: fails if it is not stored; does nothing if it is
/// already terminating; else marks its notes as terminating, in order, and
/// fails at the first one that is not stored; else marks the symphony as
/// terminating and tells the watchers of it last.
pub open spec fn stop_symphony_outcome(m: MaestroModel, name: Seq<char>) -> (MaestroModel, Seq<WatchEventView>, bool) {
    if !m.symphonies.contains_key(name) {
        (m, Seq::empty(), false)
    } else {
        let sym = m.symphonies[name];
        if sym.state == SymphonyState::Terminating {
            (m, Seq::empty(), true)
        } else {
            let (notes, events, ok) = stop_notes(m.notes, name, sym.notes);
            if !ok {
                (MaestroModel { notes, ..m }, events, false)
            } else {
                let stopped = SymphonyView { state: SymphonyState::Terminating, ..sym };
                (
                    MaestroModel { notes, symphonies: m.symphonies.insert(name, stopped), ..m },
                    events.push(WatchEventView::Symphony(EventType::Modified, with_notes(notes, stopped))),
                    true,
                )
            }
        }
    }
}

proof fn lemma_stop_notes(notes: Map<(Seq<char>, Seq<char>), NoteView>, s: Seq<char>, names: Seq<Seq<char>>)
    ensures
        stop_notes(notes, s, names).0.dom() == notes.dom(),
        stop_notes(notes, s, names).2 ==> forall|i: int| 0 <= i < names.len() ==> notes.contains_key((s, #[trigger] names[i])),
        forall|k: (Seq<char>, Seq<char>)| #[trigger] stop_notes(notes, s, names).0.contains_key(k) ==> stop_notes(notes, s, names).0[k].key()
            == notes[k].key(),
    decreases names.len(),
{
    if names.len() > 0 {
        let p = names.drop_last();
        lemma_stop_notes(notes, s, p);
        let (n1, e1, ok1) = stop_notes(notes, s, p);
        if ok1 && n1.contains_key((s, names.last())) {
            assert(n1.insert((s, names.last()), NoteView { state: NoteState::Terminating, ..n1[(s, names.last())] }).dom() =~= n1.dom());
        }
        if stop_notes(notes, s, names).2 {
            assert forall|i: int| 0 <= i < names.len() implies notes.contains_key((s, #[trigger] names[i])) by {
                if i < names.len() - 1 {
                    assert(p[i] == names[i]);
                }
            }
        }
    }
}

/// Once marking stopped at a missing note, the later names change nothing.
proof fn lemma_stop_notes_failed(notes: Map<(Seq<char>, Seq<char>), NoteView>, s: Seq<char>, names: Seq<Seq<char>>, j: int)
    requires
        0 <= j <= names.len(),
        !stop_notes(notes, s, names.take(j)).2,
    ensures
        stop_notes(notes, s, names) == stop_notes(notes, s, names.take(j)),
    decreases names.len() - j,
{
    if j < names.len() {
        assert(names.take(j + 1).drop_last() =~= names.take(j));
        lemma_stop_notes_failed(notes, s, names, j + 1);
    } else {
        assert(names.take(j) =~= names);
    }
}

/// Stops a symphony; the flag says whether that succeeded (the request is
/// then answered with success, else with a server error).
pub fn stop_symphony(store: &mut InMemoryStore, name: &str) -> (r: (bool, Vec<WatchEvent>))
    requires
        old(store).wf(),
    ensures
        final(store).wf(),
        ({
            let (m, e, ok) = stop_symphony_outcome(old(store).model(), name@);
            final(store).model() == m && events_view(r.1@) == e && r.0 == ok
        }),
        links_consistent(old(store).model()) ==> links_consistent(final(store).model()),
{
    let ghost m = store.model();
    proof {
        if links_consistent(m) {
            law_stop_symphony_keeps_links(m, name@);
        }
    }
    let mut events: Vec<WatchEvent> = Vec::new();
    assert(events_view(events@) =~= Seq::<WatchEventView>::empty());
    let symphony = match store.get_symphony(name) {
        Some(s) => s,
        None => return (false, events),
    };
    proof {
        lemma_map_of_keys(store.symphony_entries());
    }
    if symphony.state == SymphonyState::Terminating {
        return (true, events);
    }
    let ghost sym = symphony@;
    let mut i: usize = 0;
    while i < symphony.notes.len()
        invariant
            store.wf(),
            sym == symphony@,
            sym.name == name@,
            m == old(store).model(),
            m.symphonies.contains_key(name@),
            m.symphonies[name@] == sym,
            sym.state != SymphonyState::Terminating,
            i <= symphony.notes@.len(),
            store.symphonies_map() == m.symphonies,
            store.principals_map() == m.principals,
            (store.notes_map(), events_view(events@), true) == stop_notes(m.notes, name@, sym.notes.take(i as int)),
            links_consistent(m) ==> links_consistent(stop_symphony_outcome(m, name@).0),
        decreases symphony.notes@.len() - i,
    {
        proof {
            assert(sym.notes.take(i + 1).drop_last() =~= sym.notes.take(i as int));
            assert(sym.notes[i as int] == symphony.notes@[i as int]@);
        }
        if store.stop_note(symphony.name.as_str(), symphony.notes[i].as_str()) {
            let note = match store.get_note(symphony.name.as_str(), symphony.notes[i].as_str()) {
                Some(n) => n,
                None => return (false, events),
            };
            push_event(&mut events, note_event(EventType::Modified, note));
        } else {
            proof {
                let k = (name@, sym.notes[i as int]);
                assert(!store.notes_map().contains_key(k));
                assert(sym.notes.take(i + 1).last() == sym.notes[i as int]);
                assert(!stop_notes(m.notes, name@, sym.notes.take(i + 1)).2);
                lemma_stop_notes_failed(m.notes, name@, sym.notes, i + 1);
                assert(store.model() == MaestroModel { notes: store.notes_map(), ..m });
                assert(store.model() == stop_symphony_outcome(m, name@).0);
            }
            return (false, events);
        }
        i = i + 1;
    }
    proof {
        assert(sym.notes.take(symphony.notes@.len() as int) =~= sym.notes);
        lemma_stop_notes(m.notes, name@, sym.notes);
    }
    let _ = store.set_symphony_state(name, SymphonyState::Terminating);
    let stopped = match store.get_symphony_with_notes(name) {
        Some(w) => w,
        None => return (true, events),
    };
    push_event(&mut events, symphony_event(EventType::Modified, stopped));
    (true, events)
}

/// Law: creating a symphony keeps notes and symphonies in agreement.
pub proof fn law_start_symphony_keeps_links(m: MaestroModel, name: Seq<char>, notes: Seq<CreateNote>)
    requires
        links_consistent(m),
    ensures
        links_consistent(start_symphony_outcome(m, name, requested_notes(notes, name)).0),
{
    let ns = requested_notes(notes, name);
    if !m.symphonies.contains_key(name) {
        let names = ns.map_values(|n: NoteView| n.name);
        let sym = requested_symphony(name, names);
        let all = insert_notes(m.notes, ns);
        lemma_insert_notes_present(m.notes, ns, name);
        let m2 = MaestroModel { notes: all, symphonies: m.symphonies.insert(name, sym), ..m };
        assert forall|k: (Seq<char>, Seq<char>)| #[trigger] m2.notes.contains_key(k) implies m2.notes[k].key() == k
            && m2.symphonies.contains_key(k.0) && m2.symphonies[k.0].notes.contains(k.1) by {
            if m.notes.contains_key(k) {
                assert(m.symphonies.contains_key(k.0));
                assert(k.0 != name);
            }
        }
        assert forall|t: Seq<char>| #[trigger] m2.symphonies.contains_key(t) implies m2.symphonies[t].name == t && notes_present(
            m2.notes,
            m2.symphonies[t],
        ) by {
            if t != name {
                let u = m.symphonies[t];
                assert(notes_present(m.notes, u));
                assert forall|i: int| 0 <= i < u.notes.len() implies m2.notes.contains_key((u.name, #[trigger] u.notes[i])) by {
                    assert(m.notes.contains_key((u.name, u.notes[i])));
                }
            }
        }
    }
}

/// Law: stopping a symphony keeps notes and symphonies in agreement.
pub proof fn law_stop_symphony_keeps_links(m: MaestroModel, name: Seq<char>)
    requires
        links_consistent(m),
    ensures
        links_consistent(stop_symphony_outcome(m, name).0),
{
    if m.symphonies.contains_key(name) && m.symphonies[name].state != SymphonyState::Terminating {
        let sym = m.symphonies[name];
        lemma_stop_notes(m.notes, name, sym.notes);
        let m2 = stop_symphony_outcome(m, name).0;
        assert(m2.notes.dom() == m.notes.dom());
        assert forall|k: (Seq<char>, Seq<char>)| #[trigger] m2.notes.contains_key(k) implies m2.notes[k].key() == k
            && m2.symphonies.contains_key(k.0) && m2.symphonies[k.0].notes.contains(k.1) by {
            assert(m.notes.contains_key(k));
        }
        assert forall|t: Seq<char>| #[trigger] m2.symphonies.contains_key(t) implies m2.symphonies[t].name == t && notes_present(
            m2.notes,
            m2.symphonies[t],
        ) by {
            let u = m.symphonies[t];
            assert(notes_present(m.notes, u));
            assert forall|i: int| 0 <= i < u.notes.len() implies m2.notes.contains_key((u.name, #[trigger] u.notes[i])) by {
                assert(m.notes.contains_key((u.name, u.notes[i])));
            }
        }
    }
}

/// The last note of `ns` with key `k` is the one stored at `k` after they
/// are inserted in order.
proof fn lemma_insert_notes_holds(m: Map<(Seq<char>, Seq<char>), NoteView>, ns: Seq<NoteView>, k: (Seq<char>, Seq<char>))
    requires
        exists|i: int| 0 <= i < ns.len() && (#[trigger] ns[i]).key() == k,
    ensures
        insert_notes(m, ns).contains_key(k),
        exists|j: int| 0 <= j < ns.len() && (#[trigger] ns[j]).key() == k && insert_notes(m, ns)[k] == ns[j],
    decreases ns.len(),
{
    let p = ns.drop_last();
    let l = ns.len() - 1;
    if ns[l].key() == k {
        assert(ns.last() == ns[l]);
    } else {
        let i = choose|i: int| 0 <= i < ns.len() && (#[trigger] ns[i]).key() == k;
        assert(p[i] == ns[i]);
        lemma_insert_notes_holds(m, p, k);
        let j = choose|j: int| 0 <= j < p.len() && (#[trigger] p[j]).key() == k && insert_notes(m, p)[k] == p[j];
        assert(ns[j] == p[j]);
    }
}

/// Law: creating a symphony that is not stored stores it running, naming the
/// requested notes in order; stores each requested note under the symphony
/// with every field of its request (of the last request of that name); and
/// tells the watchers of each requested note as added, in order, then of the
/// symphony.
pub proof fn law_start_symphony_stores_requests(m: MaestroModel, name: Seq<char>, notes: Seq<CreateNote>)
    requires
        !m.symphonies.contains_key(name),
    ensures
        ({
            let (m2, e) = start_symphony_outcome(m, name, requested_notes(notes, name));
            &&& m2.symphonies.contains_key(name)
            &&& m2.symphonies[name].name == name
            &&& m2.symphonies[name].state == SymphonyState::Running
            &&& m2.symphonies[name].notes.len() == notes.len()
            &&& forall|i: int| 0 <= i < notes.len() ==> m2.symphonies[name].notes[i] == (#[trigger] notes[i]).name@
            &&& forall|i: int| 0 <= i < notes.len() ==> m2.notes.contains_key((name, (#[trigger] notes[i]).name@))
            &&& forall|i: int| 0 <= i < notes.len() ==> exists|j: int| 0 <= j < notes.len()
                && (#[trigger] notes[j]).name@ == (#[trigger] notes[i]).name@
                && carries_request(m2.notes[(name, notes[i].name@)], notes[j], name)
            &&& e.len() == notes.len() + 1
            &&& forall|i: int| 0 <= i < notes.len() ==> ((#[trigger] e[i]) matches WatchEventView::Note(EventType::Added, v)
                && carries_request(v, notes[i], name))
        }),
{
    let ns = requested_notes(notes, name);
    let (m2, e) = start_symphony_outcome(m, name, ns);
    assert forall|i: int| 0 <= i < notes.len() implies m2.notes.contains_key((name, (#[trigger] notes[i]).name@))
        && exists|j: int| 0 <= j < notes.len() && (#[trigger] notes[j]).name@ == notes[i].name@
            && carries_request(m2.notes[(name, notes[i].name@)], notes[j], name) by {
        let k = (name, notes[i].name@);
        assert(ns[i].key() == k);
        lemma_insert_notes_holds(m.notes, ns, k);
        let j = choose|j: int| 0 <= j < ns.len() && (#[trigger] ns[j]).key() == k && insert_notes(m.notes, ns)[k] == ns[j];
        assert(notes[j].name@ == notes[i].name@);
        assert(carries_request(ns[j], notes[j], name));
    }
    assert forall|i: int| 0 <= i < notes.len() implies ((#[trigger] e[i]) matches WatchEventView::Note(EventType::Added, v)
        && carries_request(v, notes[i], name)) by {
        assert(carries_request(ns[i], notes[i], name));
    }
}

/// What marking notes as terminating does, read note by note: every note is
/// left as it was or marked terminating, and the `i`-th event marks the
/// `i`-th name's note, which stays marked.
proof fn lemma_stop_notes_marks(notes: Map<(Seq<char>, Seq<char>), NoteView>, s: Seq<char>, names: Seq<Seq<char>>)
    ensures
        ({
            let (n2, e, ok) = stop_notes(notes, s, names);
            &&& n2.dom() == notes.dom()
            &&& forall|k: (Seq<char>, Seq<char>)| #[trigger] n2.contains_key(k) ==> n2[k] == notes[k]
                || n2[k] == NoteView { state: NoteState::Terminating, ..notes[k] }
            &&& e.len() <= names.len()
            &&& ok ==> e.len() == names.len()
            &&& forall|i: int| 0 <= i < e.len() ==> {
                let k = (s, names[i]);
                &&& notes.contains_key(k)
                &&& #[trigger] e[i] == WatchEventView::Note(EventType::Modified, NoteView { state: NoteState::Terminating, ..notes[k] })
                &&& n2[k] == NoteView { state: NoteState::Terminating, ..notes[k] }
            }
        }),
    decreases names.len(),
{
    lemma_stop_notes(notes, s, names);
    if names.len() > 0 {
        let p = names.drop_last();
        lemma_stop_notes_marks(notes, s, p);
        lemma_stop_notes(notes, s, p);
        let (n1, e1, ok1) = stop_notes(notes, s, p);
        let k = (s, names.last());
        let (n2, e, ok) = stop_notes(notes, s, names);
        assert forall|i: int| 0 <= i < p.len() implies p[i] == names[i] by {}
        if ok1 && n1.contains_key(k) {
            let v = NoteView { state: NoteState::Terminating, ..n1[k] };
            assert(v == NoteView { state: NoteState::Terminating, ..notes[k] });
            assert(e == e1.push(WatchEventView::Note(EventType::Modified, v)));
            assert forall|i: int| 0 <= i < e.len() implies {
                let kk = (s, names[i]);
                &&& notes.contains_key(kk)
                &&& #[trigger] e[i] == WatchEventView::Note(EventType::Modified, NoteView { state: NoteState::Terminating, ..notes[kk] })
                &&& n2[kk] == NoteView { state: NoteState::Terminating, ..notes[kk] }
            } by {
                if i < e1.len() {
                    assert(e[i] == e1[i]);
                    assert(names[i] == p[i]);
                } else {
                    assert(i == names.len() - 1);
                }
            }
        }
    }
}

/// Law: stopping a symphony only marks notes as terminating. Every note
/// afterwards is as it was, or as it was but terminating; each note event it
/// emits is a modification that carries a note of the symphony as it is
/// stored afterwards: the note as it was, now terminating. When it stops a
/// running symphony successfully, it tells of each of the symphony's notes in
/// order, and then of the symphony.
pub proof fn law_stop_symphony_marks_notes(m: MaestroModel, name: Seq<char>)
    requires
        records_keyed(m),
    ensures
        ({
            let (m2, e, ok) = stop_symphony_outcome(m, name);
            &&& m2.notes.dom() == m.notes.dom()
            &&& forall|k: (Seq<char>, Seq<char>)| #[trigger] m2.notes.contains_key(k) ==> m2.notes[k] == m.notes[k]
                || m2.notes[k] == NoteView { state: NoteState::Terminating, ..m.notes[k] }
            &&& forall|i: int| 0 <= i < e.len() ==> ((#[trigger] e[i]) matches WatchEventView::Note(t, v) ==> {
                &&& t == EventType::Modified
                &&& v.state == NoteState::Terminating
                &&& v.symphony == name
                &&& m.notes.contains_key(v.key())
                &&& v == NoteView { state: NoteState::Terminating, ..m.notes[v.key()] }
                &&& m2.notes[v.key()] == v
            })
            &&& (ok && m.symphonies.contains_key(name) && m.symphonies[name].state == SymphonyState::Running) ==> {
                &&& e.len() == m.symphonies[name].notes.len() + 1
                &&& forall|i: int| 0 <= i < m.symphonies[name].notes.len() ==> ((#[trigger] e[i]) matches WatchEventView::Note(_, v)
                    && v.key() == (name, m.symphonies[name].notes[i]))
            }
        }),
{
    if m.symphonies.contains_key(name) && m.symphonies[name].state != SymphonyState::Terminating {
        let sym = m.symphonies[name];
        lemma_stop_notes_marks(m.notes, name, sym.notes);
        let (notes, events, ok) = stop_notes(m.notes, name, sym.notes);
        let (m2, e, ok2) = stop_symphony_outcome(m, name);
        assert forall|i: int| 0 <= i < events.len() implies e[i] == events[i] by {}
        assert forall|i: int| 0 <= i < e.len() implies ((#[trigger] e[i]) matches WatchEventView::Note(t, v) ==> {
            &&& t == EventType::Modified
            &&& v.state == NoteState::Terminating
            &&& v.symphony == name
            &&& m.notes.contains_key(v.key())
            &&& v == NoteView { state: NoteState::Terminating, ..m.notes[v.key()] }
            &&& m2.notes[v.key()] == v
        }) by {
            if i < events.len() {
                assert(e[i] == events[i]);
                assert(m.notes.contains_key((name, sym.notes[i])));
                assert(m.notes[(name, sym.notes[i])].key() == (name, sym.notes[i]));
            }
        }
    }
}

/// Law: a report for a stored note that is not terminating, of a state
/// other than terminated and other than the stored one, sets the note's
/// state to the reported one and changes nothing else of the store (where
/// the note's symphony is stored with all its notes); the watchers hear that
/// the note was modified, with its new state, and then that its symphony was.
pub proof fn law_heartbeat_report_updates_state(m: MaestroModel, hn: HeartbeatNoteView)
    requires
        records_keyed(m),
        m.notes.contains_key((hn.symphony, hn.name)),
        m.notes[(hn.symphony, hn.name)].state != NoteState::Terminating,
        hn.state != NoteState::Terminated,
        hn.state != m.notes[(hn.symphony, hn.name)].state,
        m.symphonies.contains_key(hn.symphony),
        forall|i: int| 0 <= i < m.symphonies[hn.symphony].notes.len() ==> m.notes.contains_key(
            (hn.symphony, #[trigger] m.symphonies[hn.symphony].notes[i]),
        ),
    ensures
        heartbeat_note_step(m, hn) is Some,
        ({
            let (m2, e) = heartbeat_note_step(m, hn).unwrap();
            let k = (hn.symphony, hn.name);
            let old_note = m.notes[k];
            &&& m2.notes.dom() == m.notes.dom()
            &&& m2.notes[k].state == hn.state
            &&& m2.notes[k].name == old_note.name && m2.notes[k].description == old_note.description
                && m2.notes[k].host == old_note.host && m2.notes[k].command == old_note.command
                && m2.notes[k].args == old_note.args && m2.notes[k].env == old_note.env
                && m2.notes[k].restart_policy == old_note.restart_policy && m2.notes[k].symphony == old_note.symphony
            &&& forall|k2: (Seq<char>, Seq<char>)| #[trigger] m2.notes.contains_key(k2) && k2 != k ==> m2.notes[k2] == m.notes[k2]
            &&& m2.symphonies == m.symphonies
            &&& m2.principals == m.principals
            &&& e.len() == 2
            &&& e[0] == WatchEventView::Note(EventType::Modified, m2.notes[k])
            &&& e[1] matches WatchEventView::Symphony(EventType::Modified, w) && w.name == hn.symphony
                && w.state == m.symphonies[hn.symphony].state
        }),
{
    let k = (hn.symphony, hn.name);
    assert(m.notes[k].key() == k);
    assert(m.symphonies[hn.symphony].name == hn.symphony);
    let updated = NoteView { state: hn.state, ..m.notes[k] };
    let notes = m.notes.insert(k, updated);
    assert(notes.dom() =~= m.notes.dom());
    assert(notes_present(notes, m.symphonies[hn.symphony])) by {
        let t = m.symphonies[hn.symphony];
        assert forall|i: int| 0 <= i < t.notes.len() implies notes.contains_key((t.name, #[trigger] t.notes[i])) by {
            assert(m.notes.contains_key((hn.symphony, t.notes[i])));
        }
    }
}

/// Law: a report of a note that is not stored, or of the state a stored note
/// already has (other than terminated), changes nothing and tells no one.
pub proof fn law_heartbeat_report_without_change(m: MaestroModel, hn: HeartbeatNoteView)
    requires
        !m.notes.contains_key((hn.symphony, hn.name)) || (hn.state != NoteState::Terminated
            && m.notes[(hn.symphony, hn.name)].state == hn.state),
    ensures
        heartbeat_note_step(m, hn) == Some((m, Seq::<WatchEventView>::empty())),
{
}

/// Law: a report that a stored note terminated removes the note, and only
/// it; its symphony (where stored) no longer names it and names every other
/// note it named; the watchers hear first that the note, as it was stored,
/// was deleted. The symphony itself is removed exactly when it was
/// terminating and named no other note, and the watchers then hear of that.
pub proof fn law_heartbeat_terminated_report(m: MaestroModel, hn: HeartbeatNoteView)
    requires
        records_keyed(m),
        m.notes.contains_key((hn.symphony, hn.name)),
        m.symphonies.contains_key(hn.symphony),
        hn.state == NoteState::Terminated,
    ensures
        heartbeat_note_step(m, hn) is Some,
        ({
            let (m2, e) = heartbeat_note_step(m, hn).unwrap();
            let k = (hn.symphony, hn.name);
            let sym = m.symphonies[hn.symphony];
            let closes = sym.state == SymphonyState::Terminating && forall|x: Seq<char>| #[trigger] sym.notes.contains(x) ==> x == hn.name;
            &&& m2.notes == m.notes.remove(k)
            &&& m2.principals == m.principals
            &&& forall|t: Seq<char>| t != hn.symphony ==> (#[trigger] m2.symphonies.contains_key(t) == m.symphonies.contains_key(t)
                && m2.symphonies[t] == m.symphonies[t])
            &&& e.len() >= 1
            &&& e[0] == WatchEventView::Note(EventType::Deleted, m.notes[k])
            &&& closes ==> !m2.symphonies.contains_key(hn.symphony) && e.len() == 2
                && (e[1] matches WatchEventView::Symphony(EventType::Deleted, w) && w.name == hn.symphony)
            &&& !closes ==> m2.symphonies.contains_key(hn.symphony) && e.len() == 1
                && m2.symphonies[hn.symphony].name == sym.name && m2.symphonies[hn.symphony].state == sym.state
                && forall|x: Seq<char>| #[trigger] m2.symphonies[hn.symphony].notes.contains(x) <==> (sym.notes.contains(x) && x != hn.name)
        }),
{
    let sym = m.symphonies[hn.symphony];
    lemma_without_contains(sym.notes, hn.name);
    let left = without(sym.notes, hn.name);
    assert(sym.name == hn.symphony);
    if left.len() == 0 {
        assert forall|x: Seq<char>| #[trigger] sym.notes.contains(x) implies x == hn.name by {
            if x != hn.name {
                assert(left.contains(x));
            }
        }
    } else {
        assert(left.contains(left[0]));
    }
    let (m2, e) = heartbeat_note_step(m, hn).unwrap();
    assert forall|t: Seq<char>| t != hn.symphony implies (#[trigger] m2.symphonies.contains_key(t) == m.symphonies.contains_key(t)
        && m2.symphonies[t] == m.symphonies[t]) by {}
}

/// Law: a symphony that is stored, running or terminating, takes no new
/// notes: a request to create it again changes nothing and tells no one.
pub proof fn law_existing_symphony_takes_no_notes(m: MaestroModel, name: Seq<char>, notes: Seq<CreateNote>)
    requires
        m.symphonies.contains_key(name),
    ensures
        start_symphony_outcome(m, name, requested_notes(notes, name)) == (m, Seq::<WatchEventView>::empty()),
{
}

/// Law: a terminating note can only become terminated; any other report of
/// it changes nothing and tells no one.
pub proof fn law_terminating_note_only_terminates(m: MaestroModel, hn: HeartbeatNoteView)
    requires
        m.notes.contains_key((hn.symphony, hn.name)),
        m.notes[(hn.symphony, hn.name)].state == NoteState::Terminating,
        hn.state != NoteState::Terminated,
    ensures
        heartbeat_note_step(m, hn) == Some((m, Seq::<WatchEventView>::empty())),
{
}

/// Whether an event tells of the note at key `k`.
pub open spec fn about_note(e: WatchEventView, k: (Seq<char>, Seq<char>)) -> bool {
    match e {
        WatchEventView::Note(_, n) => n.key() == k,
        WatchEventView::Symphony(_, _) => false,
    }
}

/// A report keeps each record at its own key.
proof fn lemma_step_keeps_keyed(m: MaestroModel, hn: HeartbeatNoteView)
    requires
        records_keyed(m),
        heartbeat_note_step(m, hn) is Some,
    ensures
        records_keyed(heartbeat_note_step(m, hn).unwrap().0),
{
    let m2 = heartbeat_note_step(m, hn).unwrap().0;
    assert forall|k: (Seq<char>, Seq<char>)| #[trigger] m2.notes.contains_key(k) implies m2.notes[k].key() == k by {
        assert(m.notes.contains_key(k));
    }
    assert forall|t: Seq<char>| #[trigger] m2.symphonies.contains_key(t) implies m2.symphonies[t].name == t by {
        assert(m.symphonies.contains_key(t));
    }
}

/// A heartbeat that can be taken keeps each record at its own key, and so
/// can each of its prefixes.
proof fn lemma_outcome_keeps_keyed(m: MaestroModel, ns: Seq<HeartbeatNoteView>)
    requires
        records_keyed(m),
        heartbeat_notes_outcome(m, ns) is Some,
    ensures
        records_keyed(heartbeat_notes_outcome(m, ns).unwrap().0),
    decreases ns.len(),
{
    if ns.len() > 0 {
        lemma_outcome_keeps_keyed(m, ns.drop_last());
        lemma_step_keeps_keyed(heartbeat_notes_outcome(m, ns.drop_last()).unwrap().0, ns.last());
    }
}

/// One report that does not give note `k` as terminated leaves `k`, when it
/// is terminating, as it is, and tells no one of it.
proof fn lemma_step_keeps_terminating(m: MaestroModel, hn: HeartbeatNoteView, k: (Seq<char>, Seq<char>))
    requires
        records_keyed(m),
        heartbeat_note_step(m, hn) is Some,
        m.notes.contains_key(k),
        m.notes[k].state == NoteState::Terminating,
        !((hn.symphony, hn.name) == k && hn.state == NoteState::Terminated),
    ensures
        heartbeat_note_step(m, hn).unwrap().0.notes.contains_key(k),
        heartbeat_note_step(m, hn).unwrap().0.notes[k] == m.notes[k],
        forall|i: int| 0 <= i < heartbeat_note_step(m, hn).unwrap().1.len()
            ==> !about_note(#[trigger] heartbeat_note_step(m, hn).unwrap().1[i], k),
{
    let k2 = (hn.symphony, hn.name);
    if m.notes.contains_key(k2) {
        assert(m.notes[k2].key() == k2);
    }
}

/// Law: over a whole heartbeat that can be taken, a terminating note that no
/// report gives as terminated stays exactly as it was, and the watchers hear
/// nothing of it: a terminating note can only become terminated.
pub proof fn law_terminating_note_kept_by_heartbeat(m: MaestroModel, ns: Seq<HeartbeatNoteView>, k: (Seq<char>, Seq<char>))
    requires
        records_keyed(m),
        heartbeat_notes_outcome(m, ns) is Some,
        m.notes.contains_key(k),
        m.notes[k].state == NoteState::Terminating,
        forall|i: int| 0 <= i < ns.len() && (#[trigger] ns[i]).symphony == k.0 && ns[i].name == k.1
            ==> ns[i].state != NoteState::Terminated,
    ensures
        heartbeat_notes_outcome(m, ns).unwrap().0.notes.contains_key(k),
        heartbeat_notes_outcome(m, ns).unwrap().0.notes[k] == m.notes[k],
        forall|i: int| 0 <= i < heartbeat_notes_outcome(m, ns).unwrap().1.len()
            ==> !about_note(#[trigger] heartbeat_notes_outcome(m, ns).unwrap().1[i], k),
    decreases ns.len(),
{
    if ns.len() > 0 {
        let p = ns.drop_last();
        assert forall|i: int| 0 <= i < p.len() && (#[trigger] p[i]).symphony == k.0 && p[i].name == k.1
            implies p[i].state != NoteState::Terminated by {
            assert(p[i] == ns[i]);
        }
        law_terminating_note_kept_by_heartbeat(m, p, k);
        lemma_outcome_keeps_keyed(m, p);
        let (m1, e1) = heartbeat_notes_outcome(m, p).unwrap();
        let hn = ns.last();
        assert(hn == ns[ns.len() - 1]);
        lemma_step_keeps_terminating(m1, hn, k);
        let (m2, e2) = heartbeat_note_step(m1, hn).unwrap();
        let e = heartbeat_notes_outcome(m, ns).unwrap().1;
        assert(e == e1 + e2);
        assert forall|i: int| 0 <= i < e.len() implies !about_note(#[trigger] e[i], k) by {
            if i < e1.len() {
                assert(e[i] == e1[i]);
            } else {
                assert(e[i] == e2[i - e1.len()]);
            }
        }
    }
}

/// Symphony `s` is terminating and waits only for its note `n`, which is stored.
pub open spec fn closing_on(m: MaestroModel, s: Seq<char>, n: Seq<char>) -> bool {
    &&& m.symphonies.contains_key(s)
    &&& m.symphonies[s].state == SymphonyState::Terminating
    &&& m.symphonies[s].notes == seq![n]
    &&& m.notes.contains_key((s, n))
}

/// Events `i` and `i + 1` tell that note `n` of symphony `s` was deleted,
/// and then `s` itself.
pub open spec fn deleted_note_then_symphony(e: Seq<WatchEventView>, i: int, s: Seq<char>, n: Seq<char>) -> bool {
    &&& 0 <= i && i + 1 < e.len()
    &&& e[i] matches WatchEventView::Note(EventType::Deleted, note) && note.key() == (s, n)
    &&& e[i + 1] matches WatchEventView::Symphony(EventType::Deleted, w) && w.name == s
}

/// A heartbeat report never adds a note or a symphony.
proof fn lemma_step_adds_nothing(m: MaestroModel, hn: HeartbeatNoteView, k: (Seq<char>, Seq<char>), s: Seq<char>)
    requires
        heartbeat_note_step(m, hn) is Some,
    ensures
        !m.notes.contains_key(k) ==> !heartbeat_note_step(m, hn).unwrap().0.notes.contains_key(k),
        !m.symphonies.contains_key(s) ==> !heartbeat_note_step(m, hn).unwrap().0.symphonies.contains_key(s),
{
}

/// Reports other than the termination of `n` keep symphony `s` waiting for it.
proof fn lemma_step_keeps_closing(m: MaestroModel, hn: HeartbeatNoteView, s: Seq<char>, n: Seq<char>)
    requires
        records_keyed(m),
        heartbeat_note_step(m, hn) is Some,
        closing_on(m, s, n),
        hn != (HeartbeatNoteView { symphony: s, name: n, state: NoteState::Terminated }),
    ensures
        closing_on(heartbeat_note_step(m, hn).unwrap().0, s, n),
{
    let k = (hn.symphony, hn.name);
    if m.notes.contains_key(k) && hn.state == NoteState::Terminated && hn.symphony == s {
        let sym = m.symphonies[s];
        assert(hn.name != n);
        assert(sym.notes.drop_last() =~= Seq::<Seq<char>>::empty());
        assert(without(sym.notes.drop_last(), hn.name) =~= Seq::<Seq<char>>::empty());
        assert(without(sym.notes, hn.name) =~= sym.notes);
        assert(SymphonyView { notes: without(sym.notes, hn.name), ..sym } == sym);
    }
}

/// Over reports none of which terminates `n`, symphony `s` keeps waiting for it.
proof fn lemma_heartbeat_keeps_closing(m: MaestroModel, ns: Seq<HeartbeatNoteView>, s: Seq<char>, n: Seq<char>)
    requires
        records_keyed(m),
        heartbeat_notes_outcome(m, ns) is Some,
        closing_on(m, s, n),
        forall|j: int| 0 <= j < ns.len() ==> #[trigger] ns[j] != (HeartbeatNoteView {
            symphony: s,
            name: n,
            state: NoteState::Terminated,
        }),
    ensures
        closing_on(heartbeat_notes_outcome(m, ns).unwrap().0, s, n),
    decreases ns.len(),
{
    if ns.len() > 0 {
        let p = ns.drop_last();
        assert forall|j: int| 0 <= j < p.len() implies #[trigger] p[j] != (HeartbeatNoteView {
            symphony: s,
            name: n,
            state: NoteState::Terminated,
        }) by {
            assert(p[j] == ns[j]);
        }
        lemma_heartbeat_keeps_closing(m, p, s, n);
        lemma_outcome_keeps_keyed(m, p);
        assert(ns.last() == ns[ns.len() - 1]);
        lemma_step_keeps_closing(heartbeat_notes_outcome(m, p).unwrap().0, ns.last(), s, n);
    }
}

/// Law: when a terminating symphony waits only for note `n`, a heartbeat
/// that can be taken and that reports `n` as terminated removes both the
/// note and the symphony, and the watchers hear that the note was deleted
/// and then the symphony.
pub proof fn law_last_note_closes_terminating_symphony(
    m: MaestroModel,
    ns: Seq<HeartbeatNoteView>,
    s: Seq<char>,
    n: Seq<char>,
)
    requires
        records_keyed(m),
        heartbeat_notes_outcome(m, ns) is Some,
        m.symphonies.contains_key(s),
        m.symphonies[s].state == SymphonyState::Terminating,
        m.symphonies[s].notes == seq![n],
        m.notes.contains_key((s, n)),
        exists|j: int| 0 <= j < ns.len() && #[trigger] ns[j] == (HeartbeatNoteView {
            symphony: s,
            name: n,
            state: NoteState::Terminated,
        }),
    ensures
        !heartbeat_notes_outcome(m, ns).unwrap().0.notes.contains_key((s, n)),
        !heartbeat_notes_outcome(m, ns).unwrap().0.symphonies.contains_key(s),
        exists|i: int| #[trigger] deleted_note_then_symphony(heartbeat_notes_outcome(m, ns).unwrap().1, i, s, n),
    decreases ns.len(),
{
    let t = HeartbeatNoteView { symphony: s, name: n, state: NoteState::Terminated };
    let p = ns.drop_last();
    lemma_outcome_keeps_keyed(m, p);
    let (m1, e1) = heartbeat_notes_outcome(m, p).unwrap();
    let hn = ns.last();
    assert(hn == ns[ns.len() - 1]);
    let (m2, e2) = heartbeat_note_step(m1, hn).unwrap();
    let e = heartbeat_notes_outcome(m, ns).unwrap().1;
    assert(e == e1 + e2);
    if exists|j: int| 0 <= j < p.len() && #[trigger] p[j] == t {
        let j = choose|j: int| 0 <= j < p.len() && #[trigger] p[j] == t;
        assert(ns[j] == t);
        law_last_note_closes_terminating_symphony(m, p, s, n);
        lemma_step_adds_nothing(m1, hn, (s, n), s);
        let i = choose|i: int| #[trigger] deleted_note_then_symphony(e1, i, s, n);
        assert(e[i] == e1[i]);
        assert(e[i + 1] == e1[i + 1]);
        assert(deleted_note_then_symphony(e, i, s, n));
    } else {
        assert forall|j: int| 0 <= j < p.len() implies #[trigger] p[j] != t by {}
        let j = choose|j: int| 0 <= j < ns.len() && #[trigger] ns[j] == t;
        if j < ns.len() - 1 {
            assert(p[j] == ns[j]);
        }
        assert(hn == t);
        lemma_heartbeat_keeps_closing(m, p, s, n);
        let sym = m1.symphonies[s];
        assert(without(sym.notes, n) =~= Seq::<Seq<char>>::empty()) by {
            assert(sym.notes == seq![n]);
            assert(sym.notes.drop_last() =~= Seq::<Seq<char>>::empty());
            assert(without(sym.notes.drop_last(), n) =~= Seq::<Seq<char>>::empty());
            assert(sym.notes.last() == n);
        }
        assert(m1.notes[(s, n)].key() == (s, n));
        let i = e1.len() as int;
        assert(e[i] == e2[0]);
        assert(e[i + 1] == e2[1]);
        assert(deleted_note_then_symphony(e, i, s, n));
    }
}

/// Law: stopping a symphony that is already terminating succeeds and
/// changes nothing.
pub proof fn law_stop_is_idempotent(m: MaestroModel, name: Seq<char>)
    requires
        m.symphonies.contains_key(name),
        m.symphonies[name].state == SymphonyState::Terminating,
    ensures
        stop_symphony_outcome(m, name) == (m, Seq::<WatchEventView>::empty(), true),
{
}

/// Law: where notes and symphonies agree, stopping a running symphony
/// succeeds, and afterwards the symphony is terminating.
pub proof fn law_stop_succeeds_where_links_agree(m: MaestroModel, name: Seq<char>)
    requires
        links_consistent(m),
        m.symphonies.contains_key(name),
    ensures
        stop_symphony_outcome(m, name).2,
        stop_symphony_outcome(m, name).0.symphonies[name].state == SymphonyState::Terminating,
{
    let sym = m.symphonies[name];
    if sym.state != SymphonyState::Terminating {
        lemma_stop_notes_succeeds(m.notes, name, sym.notes);
    }
}

proof fn lemma_stop_notes_succeeds(notes: Map<(Seq<char>, Seq<char>), NoteView>, s: Seq<char>, names: Seq<Seq<char>>)
    requires
        forall|i: int| 0 <= i < names.len() ==> notes.contains_key((s, #[trigger] names[i])),
    ensures
        stop_notes(notes, s, names).2,
    decreases names.len(),
{
    if names.len() > 0 {
        let p = names.drop_last();
        assert forall|i: int| 0 <= i < p.len() implies notes.contains_key((s, #[trigger] p[i])) by {
            assert(p[i] == names[i]);
        }
        lemma_stop_notes_succeeds(notes, s, p);
        lemma_stop_notes(notes, s, p);
        assert(notes.contains_key((s, names[names.len() - 1])));
    }
}

} // verus!
