//! The principal's own record of the notes it runs, and the decisions it
//! takes on them: which process to start, to kill, or to restart.
use vstd::prelude::*;
use vstd::string::*;
use crate::keyed::{
    has_key, keys_unique, lemma_map_of_absent, lemma_map_of_dom, lemma_map_of_index, lemma_map_of_push,
    lemma_map_of_map_values, lemma_map_of_remove, lemma_map_of_update, map_of, Keyed,
};
use crate::maestro::dto::{heartbeat_notes_view, HeartbeatDto, HeartbeatNoteDto, HeartbeatNoteView};
use crate::maestro::models::{Note, NoteState, NoteView, RestartPolicy};

verus! {

/// A note and the process that runs it, if one was started and not yet
/// found to have exited; the process is known by its id.
pub struct ManagedNote {
    pub note: Note,
    pub child: Option<u32>,
}

pub struct ManagedNoteView {
    pub note: NoteView,
    pub child: Option<u32>,
}

impl View for ManagedNote {
    type V = ManagedNoteView;

    open spec fn view(&self) -> ManagedNoteView {
        ManagedNoteView { note: self.note@, child: self.child }
    }
}

/// On a principal, notes are known by their name.
impl Keyed for ManagedNoteView {
    type Key = Seq<char>;

    open spec fn key(&self) -> Seq<char> {
        self.note.name
    }
}

/// A note may be started unless the maestro is stopping it (it has marked
/// the note terminating, which is how a stop request reaches a principal),
/// or the principal already runs it (it is running, or still has a process).
pub open spec fn start_allowed(m: Map<Seq<char>, ManagedNoteView>, note: NoteView) -> bool {
    &&& note.state != NoteState::Terminating
    &&& !(m.contains_key(note.name) && (m[note.name].note.state == NoteState::Running || m[note.name].child is Some))
}

/// The record after an attempt to start `note`: running with its process if
/// one was spawned, else terminated.
pub open spec fn started(note: NoteView, child: Option<u32>) -> ManagedNoteView {
    match child {
        Some(pid) => ManagedNoteView { note: NoteView { state: NoteState::Running, ..note }, child: Some(pid) },
        None => ManagedNoteView { note: NoteView { state: NoteState::Terminated, ..note }, child: None },
    }
}

/// Whether a process that exited with `exit_code` is started again.
pub open spec fn restarts(policy: RestartPolicy, exit_code: i32) -> bool {
    match policy {
        RestartPolicy::Always => true,
        RestartPolicy::OnFailure => exit_code != 0,
        RestartPolicy::Never => false,
    }
}

/// Law: a note whose policy is `Always` is started again after every exit
/// of its process, whatever the exit code; `OnFailure` restarts exactly after
/// a non-zero exit code; `Never` never restarts. A process that exited with
/// code zero completed, any other code means it crashed.
pub proof fn law_restart_policies(exit_code: i32)
    ensures
        restarts(RestartPolicy::Always, exit_code),
        restarts(RestartPolicy::OnFailure, exit_code) <==> exit_code != 0,
        !restarts(RestartPolicy::Never, exit_code),
        exit_code == 0 ==> exit_state(exit_code) == NoteState::Completed,
        exit_code != 0 ==> exit_state(exit_code) == NoteState::Crashed,
{
}

/// The state of a note whose process exited by itself with `exit_code`.
pub open spec fn exit_state(exit_code: i32) -> NoteState {
    if exit_code == 0 {
        NoteState::Completed
    } else {
        NoteState::Crashed
    }
}

pub open spec fn managed_view(v: Seq<ManagedNote>) -> Seq<ManagedNoteView> {
    v.map_values(|e: ManagedNote| e@)
}

/// The notes a principal manages, by name.
pub struct ManagedNotes {
    entries: Vec<ManagedNote>,
}

impl ManagedNotes {
    pub closed spec fn entries(&self) -> Seq<ManagedNoteView> {
        managed_view(self.entries@)
    }

    pub open spec fn notes_map(&self) -> Map<Seq<char>, ManagedNoteView> {
        map_of(self.entries())
    }

    pub closed spec fn wf(&self) -> bool {
        keys_unique(self.entries())
    }

    pub fn new() -> (r: Self)
        ensures
            r.wf(),
            r.notes_map() == Map::<Seq<char>, ManagedNoteView>::empty(),
    {
        let r = ManagedNotes { entries: Vec::new() };
        assert(r.entries() =~= Seq::<ManagedNoteView>::empty());
        r
    }

    fn find(&self, name: &String) -> (r: Option<usize>)
        ensures
            match r {
                Some(i) => i < self.entries@.len() && self.entries()[i as int].key() == name@,
                None => forall|i: int| 0 <= i < self.entries@.len() ==> (#[trigger] self.entries()[i]).key() != name@,
            },
    {
        let mut i: usize = 0;
        while i < self.entries.len()
            invariant
                i <= self.entries@.len(),
                forall|j: int| 0 <= j < i ==> (#[trigger] self.entries()[j]).key() != name@,
            decreases self.entries@.len() - i,
        {
            if self.entries[i].note.name == *name {
                return Some(i);
            }
            i = i + 1;
        }
        None
    }

    /// Stores a record under its note's name, replacing the one there.
    fn put(&mut self, entry: ManagedNote)
        requires
            old(self).wf(),
        ensures
            final(self).wf(),
            final(self).notes_map() == old(self).notes_map().insert(entry@.key(), entry@),
    {
        let ghost s = self.entries();
        let ghost v = entry@;
        match self.find(&entry.note.name) {
            Some(i) => {
                self.entries.set(i, entry);
                proof {
                    assert(self.entries() =~= s.update(i as int, v));
                    lemma_map_of_update(s, i as int, v);
                }
            },
            None => {
                self.entries.push(entry);
                proof {
                    assert(self.entries() =~= s.push(v));
                    lemma_map_of_push(s, v);
                }
            },
        }
    }

    /// Whether `note` may be started now.
    pub fn start_decision(&self, note: &Note) -> (r: bool)
        requires
            self.wf(),
        ensures
            r == start_allowed(self.notes_map(), note@),
    {
        if note.state == NoteState::Terminating {
            return false;
        }
        match self.find(&note.name) {
            Some(i) => {
                proof { lemma_map_of_index(self.entries(), i as int); }
                !(self.entries[i].note.state == NoteState::Running || self.entries[i].child.is_some())
            },
            None => {
                proof { lemma_map_of_absent(self.entries(), note@.name); }
                true
            },
        }
    }

    /// Records the outcome of an attempt to start `note`: the id of the
    /// process that was spawned, or `None` if spawning failed.
    pub fn record_started(&mut self, note: Note, child: Option<u32>)
        requires
            old(self).wf(),
        ensures
            final(self).wf(),
            final(self).notes_map() == old(self).notes_map().insert(note@.name, started(note@, child)),
    {
        let mut note = note;
        match child {
            Some(_) => { note.state = NoteState::Running; },
            None => { note.state = NoteState::Terminated; },
        }
        self.put(ManagedNote { note, child });
    }

    /// Marks a note whose process is to be killed as terminated, and gives
    /// the id of that process; does nothing for a note without a process.
    pub fn stop_note(&mut self, name: &str) -> (r: Option<u32>)
        requires
            old(self).wf(),
        ensures
            final(self).wf(),
            match r {
                Some(pid) => {
                    &&& old(self).notes_map().contains_key(name@)
                    &&& old(self).notes_map()[name@].child == Some(pid)
                    &&& final(self).notes_map() == old(self).notes_map().insert(
                        name@,
                        ManagedNoteView {
                            note: NoteView { state: NoteState::Terminated, ..old(self).notes_map()[name@].note },
                            child: Some(pid),
                        },
                    )
                },
                None => {
                    &&& !(old(self).notes_map().contains_key(name@) && old(self).notes_map()[name@].child is Some)
                    &&& final(self).notes_map() == old(self).notes_map()
                },
            },
    {
        let name: String = name.to_owned();
        match self.find(&name) {
            Some(i) => {
                proof {
                    lemma_map_of_index(self.entries(), i as int);
                }
                match self.entries[i].child {
                    Some(pid) => {
                        let mut note = self.entries[i].note.clone();
                        note.state = NoteState::Terminated;
                        self.put(ManagedNote { note, child: Some(pid) });
                        Some(pid)
                    },
                    None => None,
                }
            },
            None => {
                proof { lemma_map_of_absent(self.entries(), name@); }
                None
            },
        }
    }

    /// Takes the exit of the process of note `name` with `exit_code`: a note
    /// that was terminated on purpose stays as it is; any other note records
    /// how its process ended and loses it, and is given back if its restart
    /// policy asks for a new start.
    pub fn handle_exit(&mut self, name: &str, exit_code: i32) -> (r: Option<Note>)
        requires
            old(self).wf(),
        ensures
            final(self).wf(),
            ({
                let m = old(self).notes_map();
                if !m.contains_key(name@) || m[name@].note.state == NoteState::Terminated {
                    &&& final(self).notes_map() == m
                    &&& r is None
                } else {
                    let exited = NoteView { state: exit_state(exit_code), ..m[name@].note };
                    &&& final(self).notes_map() == m.insert(name@, ManagedNoteView { note: exited, child: None })
                    &&& match r {
                        Some(n) => restarts(exited.restart_policy, exit_code) && n@ == exited,
                        None => !restarts(exited.restart_policy, exit_code),
                    }
                }
            }),
    {
        let name: String = name.to_owned();
        let i = match self.find(&name) {
            Some(i) => i,
            None => {
                proof { lemma_map_of_absent(self.entries(), name@); }
                return None;
            },
        };
        proof {
            lemma_map_of_index(self.entries(), i as int);
        }
        if self.entries[i].note.state == NoteState::Terminated {
            return None;
        }
        let mut note = self.entries[i].note.clone();
        note.state = if exit_code == 0 {
            NoteState::Completed
        } else {
            NoteState::Crashed
        };
        let restart = match note.restart_policy {
            RestartPolicy::Always => true,
            RestartPolicy::OnFailure => exit_code != 0,
            RestartPolicy::Never => false,
        };
        let again = note.clone();
        self.put(ManagedNote { note, child: None });
        if restart {
            Some(again)
        } else {
            None
        }
    }

    /// Forgets a note; gives nothing back.
    fn forget(&mut self, name: &String)
        requires
            old(self).wf(),
        ensures
            final(self).wf(),
            final(self).notes_map() == old(self).notes_map().remove(name@),
    {
        let ghost s = self.entries();
        match self.find(name) {
            Some(i) => {
                self.entries.remove(i);
                proof {
                    assert(self.entries() =~= s.remove(i as int));
                    lemma_map_of_remove(s, i as int);
                }
            },
            None => {
                proof {
                    lemma_map_of_absent(s, name@);
                    assert(map_of(s).remove(name@) =~= map_of(s));
                }
            },
        }
    }

    /// A `modified` event for `note`: a tracked note that the maestro is
    /// stopping has its process killed (see `stop_note`).
    pub fn on_modified(&mut self, note: &Note) -> (r: Option<u32>)
        requires
            old(self).wf(),
        ensures
            final(self).wf(),
            old(self).notes_map().contains_key(note@.name) && note@.state == NoteState::Terminating ==> {
                ||| (r == Some(old(self).notes_map()[note@.name].child->0) && old(self).notes_map()[note@.name].child is Some
                    && final(self).notes_map() == old(self).notes_map().insert(
                    note@.name,
                    ManagedNoteView {
                        note: NoteView { state: NoteState::Terminated, ..old(self).notes_map()[note@.name].note },
                        child: r,
                    },
                ))
                ||| (r is None && old(self).notes_map()[note@.name].child is None && final(self).notes_map()
                    == old(self).notes_map())
            },
            !(old(self).notes_map().contains_key(note@.name) && note@.state == NoteState::Terminating) ==> {
                &&& r is None
                &&& final(self).notes_map() == old(self).notes_map()
            },
    {
        match self.find(&note.name) {
            Some(i) => {
                proof { lemma_map_of_index(self.entries(), i as int); }
                if note.state == NoteState::Terminating {
                    self.stop_note(note.name.as_str())
                } else {
                    None
                }
            },
            None => {
                proof { lemma_map_of_absent(self.entries(), note@.name); }
                None
            },
        }
    }

    /// A `deleted` event for the note `name`: its process, if any, is killed,
    /// and the note is forgotten.
    pub fn on_deleted(&mut self, name: &str) -> (r: Option<u32>)
        requires
            old(self).wf(),
        ensures
            final(self).wf(),
            final(self).notes_map() == old(self).notes_map().remove(name@),
            r == (if old(self).notes_map().contains_key(name@) {
                old(self).notes_map()[name@].child
            } else {
                None
            }),
    {
        let r = self.stop_note(name);
        let name: String = name.to_owned();
        self.forget(&name);
        proof {
            assert(final(self).notes_map() =~= old(self).notes_map().remove(name@));
        }
        r
    }
}

/// The names of a list of notes.
pub open spec fn note_names(ns: Seq<NoteView>) -> Set<Seq<char>> {
    Set::new(|k: Seq<char>| exists|i: int| 0 <= i < ns.len() && (#[trigger] ns[i]).name == k)
}

/// The records whose note is named in `names`, in order.
pub open spec fn kept_entries(es: Seq<ManagedNoteView>, names: Set<Seq<char>>) -> Seq<ManagedNoteView>
    decreases es.len(),
{
    if es.len() == 0 {
        es
    } else {
        let rest = kept_entries(es.drop_last(), names);
        if names.contains(es.last().note.name) {
            rest.push(es.last())
        } else {
            rest
        }
    }
}

/// The processes of the records whose note is not named in `names`, in order.
pub open spec fn removed_children(es: Seq<ManagedNoteView>, names: Set<Seq<char>>) -> Seq<u32>
    decreases es.len(),
{
    if es.len() == 0 {
        Seq::empty()
    } else {
        let rest = removed_children(es.drop_last(), names);
        if !names.contains(es.last().note.name) && es.last().child is Some {
            rest.push(es.last().child->0)
        } else {
            rest
        }
    }
}

/// Taking the listed notes in order: a known note is replaced by the listed
/// one and keeps its process, unless the maestro is stopping it (the listed
/// note is marked terminating), in which case its process is killed; an
/// unknown note is added without a process.
pub open spec fn apply_overrides(m: Map<Seq<char>, ManagedNoteView>, ns: Seq<NoteView>) -> (Map<Seq<char>, ManagedNoteView>, Seq<u32>)
    decreases ns.len(),
{
    if ns.len() == 0 {
        (m, Seq::empty())
    } else {
        let (m1, k1) = apply_overrides(m, ns.drop_last());
        let n = ns.last();
        if m1.contains_key(n.name) {
            let e = m1[n.name];
            if n.state == NoteState::Terminating && e.child is Some {
                (m1.insert(n.name, ManagedNoteView { note: n, child: None }), k1.push(e.child->0))
            } else {
                (m1.insert(n.name, ManagedNoteView { note: n, child: e.child }), k1)
            }
        } else {
            (m1.insert(n.name, ManagedNoteView { note: n, child: None }), k1)
        }
    }
}

proof fn lemma_kept_entries(es: Seq<ManagedNoteView>, names: Set<Seq<char>>)
    requires
        keys_unique(es),
    ensures
        keys_unique(kept_entries(es, names)),
        map_of(kept_entries(es, names)) == map_of(es).restrict(names),
    decreases es.len(),
{
    if es.len() > 0 {
        let p = es.drop_last();
        let l = es.last();
        assert(keys_unique(p)) by {
            assert forall|a: int, b: int| 0 <= a < p.len() && 0 <= b < p.len() && a != b implies (#[trigger] p[a]).key() != (
            #[trigger] p[b]).key() by {
                assert(p[a] == es[a] && p[b] == es[b]);
            }
        }
        lemma_kept_entries(p, names);
        let kp = kept_entries(p, names);
        lemma_map_of_dom(p);
        lemma_map_of_dom(kp);
        assert(!has_key(p, l.key())) by {
            if has_key(p, l.key()) {
                let j = choose|j: int| 0 <= j < p.len() && (#[trigger] p[j]).key() == l.key();
                assert(es[j] == p[j]);
                assert(es[es.len() - 1] == l);
            }
        }
        if names.contains(l.note.name) {
            assert(!has_key(kp, l.key())) by {
                if has_key(kp, l.key()) {
                    assert(map_of(kp).contains_key(l.key()));
                }
            }
            lemma_map_of_push(kp, l);
            assert(map_of(es).restrict(names) =~= map_of(kp).insert(l.key(), l));
        } else {
            assert(map_of(es).restrict(names) =~= map_of(kp));
        }
    }
}

impl ManagedNotes {
    /// Whether a note of that name is in the list.
    fn listed(override_notes: &Vec<Note>, name: &String) -> (r: bool)
        ensures
            r == note_names(override_notes@.map_values(|n: Note| n@)).contains(name@),
    {
        let ghost ns = override_notes@.map_values(|n: Note| n@);
        let mut i: usize = 0;
        while i < override_notes.len()
            invariant
                i <= override_notes@.len(),
                ns == override_notes@.map_values(|n: Note| n@),
                forall|j: int| 0 <= j < i ==> (#[trigger] ns[j]).name != name@,
            decreases override_notes@.len() - i,
        {
            if override_notes[i].name == *name {
                assert(ns[i as int].name == name@);
                return true;
            }
            i = i + 1;
        }
        false
    }

    /// Makes the principal's notes those of the list the maestro sent: notes
    /// it does not list are forgotten (their processes killed), then the
    /// listed notes are taken in order (see `apply_overrides`). Gives the ids
    /// of the processes to kill.
    pub fn synchronize_state(&mut self, override_notes: Vec<Note>) -> (kills: Vec<u32>)
        requires
            old(self).wf(),
        ensures
            final(self).wf(),
            ({
                let ns = override_notes@.map_values(|n: Note| n@);
                let names = note_names(ns);
                let (m, k) = apply_overrides(old(self).notes_map().restrict(names), ns);
                &&& final(self).notes_map() == m
                &&& kills@ == removed_children(old(self).entries(), names) + k
            }),
    {
        let ghost ns = override_notes@.map_values(|n: Note| n@);
        let ghost names = note_names(ns);
        let ghost es = self.entries();
        let mut kills: Vec<u32> = Vec::new();
        let mut kept: Vec<ManagedNote> = Vec::new();
        let mut old_entries: Vec<ManagedNote> = Vec::new();
        std::mem::swap(&mut old_entries, &mut self.entries);
        assert(managed_view(old_entries@) == es);
        let mut i: usize = 0;
        while i < old_entries.len()
            invariant
                i <= old_entries@.len(),
                es == managed_view(old_entries@),
                ns == override_notes@.map_values(|n: Note| n@),
                names == note_names(ns),
                managed_view(kept@) == kept_entries(es.take(i as int), names),
                kills@ == removed_children(es.take(i as int), names),
            decreases old_entries@.len() - i,
        {
            assert(es.take(i + 1).drop_last() =~= es.take(i as int));
            assert(es[i as int] == old_entries@[i as int]@);
            if Self::listed(&override_notes, &old_entries[i].note.name) {
                let ghost before = kept@;
                let e = ManagedNote { note: old_entries[i].note.clone(), child: old_entries[i].child };
                kept.push(e);
                assert(managed_view(kept@) =~= managed_view(before).push(es[i as int]));
            } else {
                if let Some(pid) = old_entries[i].child {
                    kills.push(pid);
                }
            }
            i = i + 1;
        }
        proof {
            assert(es.take(old_entries@.len() as int) =~= es);
            lemma_kept_entries(es, names);
        }
        self.entries = kept;
        let ghost removed = kills@;
        let mut j: usize = 0;
        while j < override_notes.len()
            invariant
                self.wf(),
                j <= override_notes@.len(),
                ns == override_notes@.map_values(|n: Note| n@),
                (self.notes_map(), kills@) == (apply_overrides(map_of(es).restrict(names), ns.take(j as int)).0, removed
                    + apply_overrides(map_of(es).restrict(names), ns.take(j as int)).1),
            decreases override_notes@.len() - j,
        {
            let ghost m0 = map_of(es).restrict(names);
            assert(ns.take(j + 1).drop_last() =~= ns.take(j as int));
            let note = override_notes[j].clone();
            assert(note@ == ns[j as int]);
            let ghost before = kills@;
            match self.find(&note.name) {
                Some(i) => {
                    proof { lemma_map_of_index(self.entries(), i as int); }
                    let child = self.entries[i].child;
                    if note.state == NoteState::Terminating && child.is_some() {
                        kills.push(child.unwrap());
                        self.put(ManagedNote { note, child: None });
                    } else {
                        self.put(ManagedNote { note, child });
                    }
                },
                None => {
                    proof { lemma_map_of_absent(self.entries(), note@.name); }
                    self.put(ManagedNote { note, child: None });
                },
            }
            proof {
                let k1 = apply_overrides(m0, ns.take(j as int)).1;
                assert(before == removed + k1);
                if kills@.len() > before.len() {
                    assert(kills@ =~= removed + k1.push(kills@.last()));
                } else {
                    assert(kills@ =~= before);
                }
            }
            j = j + 1;
        }
        assert(ns.take(override_notes@.len() as int) =~= ns);
        kills
    }
}
/// What a heartbeat reports of a managed note.
pub open spec fn report_of(e: ManagedNoteView) -> HeartbeatNoteView {
    HeartbeatNoteView { symphony: e.note.symphony, name: e.note.name, state: e.note.state }
}

impl ManagedNotes {
    /// The heartbeat this principal (named `me`) sends: the symphony, name
    /// and state of each of its notes, each once.
    pub fn heartbeat(&self) -> (r: HeartbeatDto)
        requires
            self.wf(),
        ensures
            r.name@ == "me"@,
            keys_unique(heartbeat_notes_view(r.notes@)),
            map_of(heartbeat_notes_view(r.notes@)) == self.notes_map().map_values(|e: ManagedNoteView| report_of(e)),
    {
        let ghost f = |e: ManagedNoteView| report_of(e);
        let mut notes: Vec<HeartbeatNoteDto> = Vec::new();
        let mut i: usize = 0;
        while i < self.entries.len()
            invariant
                i <= self.entries@.len(),
                f == (|e: ManagedNoteView| report_of(e)),
                heartbeat_notes_view(notes@) =~= self.entries().map_values(f).take(i as int),
            decreases self.entries@.len() - i,
        {
            let e = &self.entries[i];
            let ghost before = notes@;
            notes.push(HeartbeatNoteDto { symphony: e.note.symphony.clone(), name: e.note.name.clone(), state: e.note.state });
            assert(heartbeat_notes_view(notes@) =~= heartbeat_notes_view(before).push(f(self.entries()[i as int])));
            i = i + 1;
        }
        proof {
            assert(self.entries().map_values(f).take(self.entries@.len() as int) =~= self.entries().map_values(f));
            lemma_map_of_map_values(self.entries(), f);
        }
        HeartbeatDto { name: "me".to_owned(), notes }
    }
}

proof fn lemma_apply_overrides_dom(m: Map<Seq<char>, ManagedNoteView>, ns: Seq<NoteView>)
    ensures
        apply_overrides(m, ns).0.dom() == m.dom() + note_names(ns),
    decreases ns.len(),
{
    if ns.len() == 0 {
        assert(note_names(ns) =~= Set::<Seq<char>>::empty());
        assert(m.dom() + note_names(ns) =~= m.dom());
    } else {
        let p = ns.drop_last();
        lemma_apply_overrides_dom(m, p);
        assert forall|k: Seq<char>| note_names(ns).contains(k) <==> (note_names(p).contains(k) || k == ns.last().name) by {
            if note_names(ns).contains(k) {
                let i = choose|i: int| 0 <= i < ns.len() && (#[trigger] ns[i]).name == k;
                if i < ns.len() - 1 {
                    assert(p[i] == ns[i]);
                }
            }
            if note_names(p).contains(k) {
                let i = choose|i: int| 0 <= i < p.len() && (#[trigger] p[i]).name == k;
                assert(ns[i] == p[i]);
            }
            if k == ns.last().name {
                assert(ns[ns.len() - 1].name == k);
            }
        }
        assert(apply_overrides(m, ns).0.dom() =~= m.dom() + note_names(ns));
    }
}

/// Law: after a synchronization the principal manages exactly the notes of
/// the list it was given.
pub proof fn law_synchronize_keeps_listed(m: Map<Seq<char>, ManagedNoteView>, ns: Seq<NoteView>)
    ensures
        apply_overrides(m.restrict(note_names(ns)), ns).0.dom() == note_names(ns),
{
    lemma_apply_overrides_dom(m.restrict(note_names(ns)), ns);
    assert(m.restrict(note_names(ns)).dom() + note_names(ns) =~= note_names(ns));
}

} // verus!
