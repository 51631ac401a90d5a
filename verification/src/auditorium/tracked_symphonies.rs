//! The symphonies a user tracks in the auditorium, and how they are matched
//! against what the maestro reports.
use vstd::prelude::*;
use vstd::string::*;
use crate::auditorium::dto::{CreateSymphony, CreateSymphonyNote};
use crate::keyed::{
    keys_unique, lemma_map_of_absent, lemma_map_of_index, lemma_map_of_map_values, lemma_map_of_push,
    lemma_map_of_remove, lemma_map_of_update, map_of, Keyed,
};
use crate::maestro::dto::{SymphonyWithNotes, SymphonyWithNotesView};
use crate::maestro::models::{env_names_unique, notes_view, Note, NoteState, NoteView, RestartPolicy};
use crate::text::{clone_pairs, clone_strings, pairs_view, strings_view};

verus! {

/// How the auditorium sees a symphony or note: present in the maestro
/// (running) or not (stopped).
#[derive(Clone, Copy, Debug, PartialEq, Eq, Structural)]
pub enum AuditoriumResourceState {
    Stopped,
    Running,
}

/// A note as the auditorium tracks it.
pub struct TrackedNote {
    pub name: String,
    pub description: String,
    pub host: String,
    pub command: String,
    pub args: Vec<String>,
    /// Environment variables, as (name, value) pairs; a variable is named
    /// once (`env_names_unique`).
    pub env: Vec<(String, String)>,
    pub restart_policy: RestartPolicy,
    /// The state the maestro last reported.
    pub state: NoteState,
    pub auditorium_state: AuditoriumResourceState,
}

pub struct TrackedNoteView {
    pub name: Seq<char>,
    pub description: Seq<char>,
    pub host: Seq<char>,
    pub command: Seq<char>,
    pub args: Seq<Seq<char>>,
    pub env: Seq<(Seq<char>, Seq<char>)>,
    pub restart_policy: RestartPolicy,
    pub state: NoteState,
    pub auditorium_state: AuditoriumResourceState,
}

impl View for TrackedNote {
    type V = TrackedNoteView;

    open spec fn view(&self) -> TrackedNoteView {
        TrackedNoteView {
            name: self.name@,
            description: self.description@,
            host: self.host@,
            command: self.command@,
            args: strings_view(self.args@),
            env: pairs_view(self.env@),
            restart_policy: self.restart_policy,
            state: self.state,
            auditorium_state: self.auditorium_state,
        }
    }
}

impl Clone for TrackedNote {
    fn clone(&self) -> (r: Self)
        ensures
            r@ == self@,
    {
        TrackedNote {
            name: self.name.clone(),
            description: self.description.clone(),
            host: self.host.clone(),
            command: self.command.clone(),
            args: clone_strings(&self.args),
            env: clone_pairs(&self.env),
            restart_policy: self.restart_policy,
            state: self.state,
            auditorium_state: self.auditorium_state,
        }
    }
}

pub open spec fn tracked_notes_view(v: Seq<TrackedNote>) -> Seq<TrackedNoteView> {
    v.map_values(|n: TrackedNote| n@)
}

/// A symphony as the auditorium tracks it.
pub struct TrackedSymphony {
    pub name: String,
    pub notes: Vec<TrackedNote>,
    pub auditorium_state: AuditoriumResourceState,
}

pub struct TrackedSymphonyView {
    pub name: Seq<char>,
    pub notes: Seq<TrackedNoteView>,
    pub auditorium_state: AuditoriumResourceState,
}

impl View for TrackedSymphony {
    type V = TrackedSymphonyView;

    open spec fn view(&self) -> TrackedSymphonyView {
        TrackedSymphonyView { name: self.name@, notes: tracked_notes_view(self.notes@), auditorium_state: self.auditorium_state }
    }
}

impl Keyed for TrackedSymphonyView {
    type Key = Seq<char>;

    open spec fn key(&self) -> Seq<char> {
        self.name
    }
}

fn clone_tracked_notes(v: &Vec<TrackedNote>) -> (r: Vec<TrackedNote>)
    ensures
        tracked_notes_view(r@) == tracked_notes_view(v@),
{
    let mut r: Vec<TrackedNote> = Vec::new();
    let mut i: usize = 0;
    while i < v.len()
        invariant
            i <= v@.len(),
            tracked_notes_view(r@) =~= tracked_notes_view(v@).take(i as int),
        decreases v@.len() - i,
    {
        let ghost before = r@;
        r.push(v[i].clone());
        assert(tracked_notes_view(r@) =~= tracked_notes_view(before).push(v@[i as int]@));
        i = i + 1;
    }
    assert(tracked_notes_view(v@).take(v@.len() as int) =~= tracked_notes_view(v@));
    r
}

impl Clone for TrackedSymphony {
    fn clone(&self) -> (r: Self)
        ensures
            r@ == self@,
    {
        TrackedSymphony {
            name: self.name.clone(),
            notes: clone_tracked_notes(&self.notes),
            auditorium_state: self.auditorium_state,
        }
    }
}

pub open spec fn tracked_symphonies_view(v: Seq<TrackedSymphony>) -> Seq<TrackedSymphonyView> {
    v.map_values(|s: TrackedSymphony| s@)
}

/// The last symphony of that name in the maestro's list.
pub open spec fn find_symphony(list: Seq<SymphonyWithNotesView>, name: Seq<char>) -> Option<SymphonyWithNotesView>
    decreases list.len(),
{
    if list.len() == 0 {
        None
    } else if list.last().name == name {
        Some(list.last())
    } else {
        find_symphony(list.drop_last(), name)
    }
}

/// The last note of that name in a list.
pub open spec fn find_note(notes: Seq<NoteView>, name: Seq<char>) -> Option<NoteView>
    decreases notes.len(),
{
    if notes.len() == 0 {
        None
    } else if notes.last().name == name {
        Some(notes.last())
    } else {
        find_note(notes.drop_last(), name)
    }
}

/// A tracked note present in the maestro runs with the maestro's state;
/// one that is absent is stopped and terminated.
pub open spec fn merge_note(tn: TrackedNoteView, found: Option<NoteView>) -> TrackedNoteView {
    match found {
        Some(mn) => TrackedNoteView { auditorium_state: AuditoriumResourceState::Running, state: mn.state, ..tn },
        None => TrackedNoteView {
            auditorium_state: AuditoriumResourceState::Stopped,
            state: NoteState::Terminated,
            ..tn
        },
    }
}

/// A tracked symphony, matched against the maestro's list (`None` when that
/// list could not be had): present, it runs and its notes are matched
/// against the maestro's notes of it; absent, it and all its notes stop.
pub open spec fn merge_symphony(ts: TrackedSymphonyView, maestro: Option<Seq<SymphonyWithNotesView>>) -> TrackedSymphonyView {
    let found = match maestro {
        Some(list) => find_symphony(list, ts.name),
        None => None,
    };
    match found {
        Some(ms) => TrackedSymphonyView {
            auditorium_state: AuditoriumResourceState::Running,
            notes: ts.notes.map_values(|tn: TrackedNoteView| merge_note(tn, find_note(ms.notes, tn.name))),
            ..ts
        },
        None => TrackedSymphonyView {
            auditorium_state: AuditoriumResourceState::Stopped,
            notes: ts.notes.map_values(|tn: TrackedNoteView| merge_note(tn, None)),
            ..ts
        },
    }
}

pub open spec fn opt_list_view(o: Option<&Vec<SymphonyWithNotes>>) -> Option<Seq<SymphonyWithNotesView>> {
    match o {
        Some(v) => Some(v@.map_values(|w: SymphonyWithNotes| w@)),
        None => None,
    }
}

fn locate_symphony(list: &Vec<SymphonyWithNotes>, name: &String) -> (r: Option<usize>)
    ensures
        match r {
            Some(i) => i < list@.len() && find_symphony(list@.map_values(|w: SymphonyWithNotes| w@), name@) == Some(
                list@[i as int]@,
            ),
            None => find_symphony(list@.map_values(|w: SymphonyWithNotes| w@), name@) is None,
        },
{
    let ghost lv = list@.map_values(|w: SymphonyWithNotes| w@);
    let mut found: Option<usize> = None;
    let mut i: usize = 0;
    while i < list.len()
        invariant
            i <= list@.len(),
            lv == list@.map_values(|w: SymphonyWithNotes| w@),
            match found {
                Some(j) => j < i && find_symphony(lv.take(i as int), name@) == Some(list@[j as int]@),
                None => find_symphony(lv.take(i as int), name@) is None,
            },
        decreases list@.len() - i,
    {
        assert(lv.take(i + 1).drop_last() =~= lv.take(i as int));
        if list[i].name == *name {
            found = Some(i);
        }
        i = i + 1;
    }
    assert(lv.take(list@.len() as int) =~= lv);
    found
}

fn locate_note(notes: &Vec<Note>, name: &String) -> (r: Option<usize>)
    ensures
        match r {
            Some(i) => i < notes@.len() && find_note(notes_view(notes@), name@) == Some(notes@[i as int]@),
            None => find_note(notes_view(notes@), name@) is None,
        },
{
    let ghost nv = notes_view(notes@);
    let mut found: Option<usize> = None;
    let mut i: usize = 0;
    while i < notes.len()
        invariant
            i <= notes@.len(),
            nv == notes_view(notes@),
            match found {
                Some(j) => j < i && find_note(nv.take(i as int), name@) == Some(notes@[j as int]@),
                None => find_note(nv.take(i as int), name@) is None,
            },
        decreases notes@.len() - i,
    {
        assert(nv.take(i + 1).drop_last() =~= nv.take(i as int));
        if notes[i].name == *name {
            found = Some(i);
        }
        i = i + 1;
    }
    assert(nv.take(notes@.len() as int) =~= nv);
    found
}

impl TrackedSymphony {
    /// This symphony matched against the maestro's list (see `merge_symphony`).
    pub fn merged(&self, maestro: Option<&Vec<SymphonyWithNotes>>) -> (r: TrackedSymphony)
        ensures
            r@ == merge_symphony(self@, opt_list_view(maestro)),
    {
        let found: Option<&SymphonyWithNotes> = match maestro {
            Some(list) => match locate_symphony(list, &self.name) {
                Some(i) => Some(&list[i]),
                None => None,
            },
            None => None,
        };
        let ghost f = match found {
            Some(ms) => (|tn: TrackedNoteView| merge_note(tn, find_note(ms@.notes, tn.name))),
            None => (|tn: TrackedNoteView| merge_note(tn, None)),
        };
        let mut notes: Vec<TrackedNote> = Vec::new();
        let mut i: usize = 0;
        while i < self.notes.len()
            invariant
                i <= self.notes@.len(),
                f == (match found {
                    Some(ms) => (|tn: TrackedNoteView| merge_note(tn, find_note(ms@.notes, tn.name))),
                    None => (|tn: TrackedNoteView| merge_note(tn, None)),
                }),
                tracked_notes_view(notes@) =~= tracked_notes_view(self.notes@).map_values(f).take(i as int),
            decreases self.notes@.len() - i,
        {
            let mut tn = self.notes[i].clone();
            let hit: Option<NoteState> = match found {
                Some(ms) => match locate_note(&ms.notes, &tn.name) {
                    Some(j) => Some(ms.notes[j].state),
                    None => None,
                },
                None => None,
            };
            match hit {
                Some(state) => {
                    tn.auditorium_state = AuditoriumResourceState::Running;
                    tn.state = state;
                },
                None => {
                    tn.auditorium_state = AuditoriumResourceState::Stopped;
                    tn.state = NoteState::Terminated;
                },
            }
            let ghost before = notes@;
            notes.push(tn);
            assert(tracked_notes_view(notes@) =~= tracked_notes_view(before).push(f(self.notes@[i as int]@)));
            i = i + 1;
        }
        assert(tracked_notes_view(self.notes@).map_values(f).take(self.notes@.len() as int) =~= tracked_notes_view(
            self.notes@,
        ).map_values(f));
        let auditorium_state = match found {
            Some(_) => AuditoriumResourceState::Running,
            None => AuditoriumResourceState::Stopped,
        };
        TrackedSymphony { name: self.name.clone(), notes, auditorium_state }
    }
}

/// A tracked note made from a request: stopped and terminated until the
/// maestro reports it.
pub open spec fn requested_tracked_note(n: CreateSymphonyNote) -> TrackedNoteView {
    TrackedNoteView {
        name: n.name@,
        description: n.description@,
        host: n.host@,
        command: n.command@,
        args: strings_view(n.args@),
        env: pairs_view(n.env@),
        restart_policy: n.restart_policy,
        state: NoteState::Terminated,
        auditorium_state: AuditoriumResourceState::Stopped,
    }
}

/// A tracked symphony made from a request: stopped, with its notes.
pub open spec fn requested_tracked(p: CreateSymphony) -> TrackedSymphonyView {
    TrackedSymphonyView {
        name: p.name@,
        notes: p.notes@.map_values(|n: CreateSymphonyNote| requested_tracked_note(n)),
        auditorium_state: AuditoriumResourceState::Stopped,
    }
}

/// Law: a tracked symphony made from a request has the request's name and,
/// in order, one note for each requested note with the same name,
/// description, host, command, args, environment and restart policy; all of
/// it is stopped, and its notes terminated, until the maestro reports them.
pub proof fn law_requested_tracked_copies_request(p: CreateSymphony)
    ensures
        requested_tracked(p).name == p.name@,
        requested_tracked(p).auditorium_state == AuditoriumResourceState::Stopped,
        requested_tracked(p).notes.len() == p.notes@.len(),
        forall|i: int| 0 <= i < p.notes@.len() ==> {
            let t = #[trigger] requested_tracked(p).notes[i];
            let n = p.notes@[i];
            &&& t.name == n.name@
            &&& t.description == n.description@
            &&& t.host == n.host@
            &&& t.command == n.command@
            &&& t.args.len() == n.args@.len()
            &&& forall|j: int| 0 <= j < n.args@.len() ==> t.args[j] == (#[trigger] n.args@[j])@
            &&& t.env.len() == n.env@.len()
            &&& forall|j: int| 0 <= j < n.env@.len() ==> t.env[j] == ((#[trigger] n.env@[j]).0@, n.env@[j].1@)
            &&& t.restart_policy == n.restart_policy
            &&& t.state == NoteState::Terminated
            &&& t.auditorium_state == AuditoriumResourceState::Stopped
        },
{
}

fn tracked_from_request(payload: CreateSymphony) -> (r: TrackedSymphony)
    ensures
        r@ == requested_tracked(payload),
        forall|i: int| 0 <= i < payload.notes@.len() && env_names_unique(pairs_view(payload.notes@[i].env@))
            ==> env_names_unique(#[trigger] r@.notes[i].env),
{
    let mut notes: Vec<TrackedNote> = Vec::new();
    let mut i: usize = 0;
    while i < payload.notes.len()
        invariant
            i <= payload.notes@.len(),
            tracked_notes_view(notes@) =~= payload.notes@.map_values(|n: CreateSymphonyNote| requested_tracked_note(n)).take(
                i as int,
            ),
        decreases payload.notes@.len() - i,
    {
        let note = &payload.notes[i];
        let tn = TrackedNote {
            name: note.name.clone(),
            description: note.description.clone(),
            host: note.host.clone(),
            command: note.command.clone(),
            args: clone_strings(&note.args),
            env: clone_pairs(&note.env),
            restart_policy: note.restart_policy,
            state: NoteState::Terminated,
            auditorium_state: AuditoriumResourceState::Stopped,
        };
        let ghost before = notes@;
        notes.push(tn);
        assert(tracked_notes_view(notes@) =~= tracked_notes_view(before).push(requested_tracked_note(payload.notes@[i as int])));
        i = i + 1;
    }
    assert(payload.notes@.map_values(|n: CreateSymphonyNote| requested_tracked_note(n)).take(payload.notes@.len() as int)
        =~= payload.notes@.map_values(|n: CreateSymphonyNote| requested_tracked_note(n)));
    TrackedSymphony { name: payload.name, notes, auditorium_state: AuditoriumResourceState::Stopped }
}

/// How a request on the tracked symphonies is answered.
#[derive(Clone, Copy, Debug, PartialEq, Eq, Structural)]
pub enum TrackedStatus {
    Succeeded,
    Created,
    Conflict,
    NotFound,
}

/// The symphonies a user tracks, by name.
pub struct InMemoryAuditoriumStore {
    symphonies: Vec<TrackedSymphony>,
}

impl InMemoryAuditoriumStore {
    pub closed spec fn entries(&self) -> Seq<TrackedSymphonyView> {
        tracked_symphonies_view(self.symphonies@)
    }

    pub open spec fn symphonies_map(&self) -> Map<Seq<char>, TrackedSymphonyView> {
        map_of(self.entries())
    }

    pub closed spec fn wf(&self) -> bool {
        keys_unique(self.entries())
    }

    pub fn new() -> (r: Self)
        ensures
            r.wf(),
            r.symphonies_map() == Map::<Seq<char>, TrackedSymphonyView>::empty(),
    {
        let r = InMemoryAuditoriumStore { symphonies: Vec::new() };
        assert(r.entries() =~= Seq::<TrackedSymphonyView>::empty());
        r
    }

    fn find(&self, name: &String) -> (r: Option<usize>)
        ensures
            match r {
                Some(i) => i < self.symphonies@.len() && self.entries()[i as int].key() == name@,
                None => forall|i: int| 0 <= i < self.symphonies@.len() ==> (#[trigger] self.entries()[i]).key() != name@,
            },
    {
        let mut i: usize = 0;
        while i < self.symphonies.len()
            invariant
                i <= self.symphonies@.len(),
                forall|j: int| 0 <= j < i ==> (#[trigger] self.entries()[j]).key() != name@,
            decreases self.symphonies@.len() - i,
        {
            if self.symphonies[i].name == *name {
                return Some(i);
            }
            i = i + 1;
        }
        None
    }

    pub fn contains(&self, name: &String) -> (r: bool)
        requires
            self.wf(),
        ensures
            r == self.symphonies_map().contains_key(name@),
    {
        match self.find(name) {
            Some(i) => {
                proof { lemma_map_of_index(self.entries(), i as int); }
                true
            },
            None => {
                proof { lemma_map_of_absent(self.entries(), name@); }
                false
            },
        }
    }

    /// Stores a tracked symphony under its name, replacing the one there.
    pub fn insert(&mut self, symphony: TrackedSymphony)
        requires
            old(self).wf(),
        ensures
            final(self).wf(),
            final(self).symphonies_map() == old(self).symphonies_map().insert(symphony@.name, symphony@),
    {
        let ghost s = self.entries();
        let ghost v = symphony@;
        match self.find(&symphony.name) {
            Some(i) => {
                self.symphonies.set(i, symphony);
                proof {
                    assert(self.entries() =~= s.update(i as int, v));
                    lemma_map_of_update(s, i as int, v);
                }
            },
            None => {
                self.symphonies.push(symphony);
                proof {
                    assert(self.entries() =~= s.push(v));
                    lemma_map_of_push(s, v);
                }
            },
        }
    }

    /// Forgets a tracked symphony, and tells whether there was one.
    pub fn remove(&mut self, name: &String) -> (r: bool)
        requires
            old(self).wf(),
        ensures
            final(self).wf(),
            r == old(self).symphonies_map().contains_key(name@),
            final(self).symphonies_map() == old(self).symphonies_map().remove(name@),
    {
        let ghost s = self.entries();
        match self.find(name) {
            Some(i) => {
                proof { lemma_map_of_index(s, i as int); }
                self.symphonies.remove(i);
                proof {
                    assert(self.entries() =~= s.remove(i as int));
                    lemma_map_of_remove(s, i as int);
                }
                true
            },
            None => {
                proof {
                    lemma_map_of_absent(s, name@);
                    assert(map_of(s).remove(name@) =~= map_of(s));
                }
                false
            },
        }
    }

    /// Every tracked symphony matched against the maestro's list (`None`
    /// when that list could not be had), each once; the store is unchanged.
    pub fn merged_symphonies(&self, maestro: Option<&Vec<SymphonyWithNotes>>) -> (r: Vec<TrackedSymphony>)
        requires
            self.wf(),
        ensures
            keys_unique(tracked_symphonies_view(r@)),
            map_of(tracked_symphonies_view(r@)) == self.symphonies_map().map_values(
                |ts: TrackedSymphonyView| merge_symphony(ts, opt_list_view(maestro)),
            ),
    {
        let ghost f = |ts: TrackedSymphonyView| merge_symphony(ts, opt_list_view(maestro));
        let mut r: Vec<TrackedSymphony> = Vec::new();
        let mut i: usize = 0;
        while i < self.symphonies.len()
            invariant
                i <= self.symphonies@.len(),
                f == (|ts: TrackedSymphonyView| merge_symphony(ts, opt_list_view(maestro))),
                tracked_symphonies_view(r@) =~= self.entries().map_values(f).take(i as int),
            decreases self.symphonies@.len() - i,
        {
            let m = self.symphonies[i].merged(maestro);
            let ghost before = r@;
            r.push(m);
            assert(tracked_symphonies_view(r@) =~= tracked_symphonies_view(before).push(f(self.entries()[i as int])));
            i = i + 1;
        }
        proof {
            assert(self.entries().map_values(f).take(self.symphonies@.len() as int) =~= self.entries().map_values(f));
            lemma_map_of_map_values(self.entries(), f);
        }
        r
    }

    /// Matches every tracked symphony against the symphonies the maestro
    /// reported, in place.
    pub fn merge_symphonies(&mut self, maestro_symphonies: &Vec<SymphonyWithNotes>)
        requires
            old(self).wf(),
        ensures
            final(self).wf(),
            final(self).symphonies_map() == old(self).symphonies_map().map_values(
                |ts: TrackedSymphonyView| merge_symphony(ts, Some(maestro_symphonies@.map_values(|w: SymphonyWithNotes| w@))),
            ),
    {
        let ghost f = |ts: TrackedSymphonyView| merge_symphony(ts, Some(maestro_symphonies@.map_values(|w: SymphonyWithNotes| w@)));
        let ghost es = self.entries();
        let mut i: usize = 0;
        while i < self.symphonies.len()
            invariant
                i <= self.symphonies@.len(),
                es.len() == self.symphonies@.len(),
                f == (|ts: TrackedSymphonyView| merge_symphony(ts, Some(maestro_symphonies@.map_values(|w: SymphonyWithNotes| w@)))),
                forall|j: int| 0 <= j < i ==> #[trigger] self.entries()[j] == f(es[j]),
                forall|j: int| i <= j < es.len() ==> #[trigger] self.entries()[j] == es[j],
            decreases self.symphonies@.len() - i,
        {
            let m = self.symphonies[i].merged(Some(maestro_symphonies));
            assert(self.entries()[i as int] == es[i as int]);
            assert(m@ == f(es[i as int]));
            let ghost before = self.entries();
            self.symphonies.set(i, m);
            assert(self.entries() =~= before.update(i as int, f(es[i as int])));
            i = i + 1;
        }
        proof {
            assert(self.entries() =~= es.map_values(f));
            lemma_map_of_map_values(es, f);
        }
    }

    /// The maestro deleted symphony `name`: the tracked symphony of that
    /// name, if any, and its notes are marked stopped (their states stay).
    pub fn mark_stopped(&mut self, name: &String)
        requires
            old(self).wf(),
        ensures
            final(self).wf(),
            final(self).symphonies_map() == (if old(self).symphonies_map().contains_key(name@) {
                let ts = old(self).symphonies_map()[name@];
                old(self).symphonies_map().insert(
                    name@,
                    TrackedSymphonyView {
                        auditorium_state: AuditoriumResourceState::Stopped,
                        notes: ts.notes.map_values(
                            |tn: TrackedNoteView| TrackedNoteView { auditorium_state: AuditoriumResourceState::Stopped, ..tn },
                        ),
                        ..ts
                    },
                )
            } else {
                old(self).symphonies_map()
            }),
    {
        let i = match self.find(name) {
            Some(i) => i,
            None => {
                proof { lemma_map_of_absent(self.entries(), name@); }
                return;
            },
        };
        proof { lemma_map_of_index(self.entries(), i as int); }
        let ts = &self.symphonies[i];
        let ghost g = |tn: TrackedNoteView| TrackedNoteView { auditorium_state: AuditoriumResourceState::Stopped, ..tn };
        let mut notes: Vec<TrackedNote> = Vec::new();
        let mut j: usize = 0;
        while j < ts.notes.len()
            invariant
                j <= ts.notes@.len(),
                g == (|tn: TrackedNoteView| TrackedNoteView { auditorium_state: AuditoriumResourceState::Stopped, ..tn }),
                tracked_notes_view(notes@) =~= tracked_notes_view(ts.notes@).map_values(g).take(j as int),
            decreases ts.notes@.len() - j,
        {
            let mut tn = ts.notes[j].clone();
            tn.auditorium_state = AuditoriumResourceState::Stopped;
            let ghost before = notes@;
            notes.push(tn);
            assert(tracked_notes_view(notes@) =~= tracked_notes_view(before).push(g(ts.notes@[j as int]@)));
            j = j + 1;
        }
        assert(tracked_notes_view(ts.notes@).map_values(g).take(ts.notes@.len() as int) =~= tracked_notes_view(ts.notes@).map_values(g));
        let stopped = TrackedSymphony { name: ts.name.clone(), notes, auditorium_state: AuditoriumResourceState::Stopped };
        self.insert(stopped);
    }

    /// Adds a tracked symphony; refuses one whose name is tracked already.
    pub fn create_tracked_symphony(&mut self, payload: CreateSymphony) -> (r: TrackedStatus)
        requires
            old(self).wf(),
        ensures
            final(self).wf(),
            old(self).symphonies_map().contains_key(payload.name@) ==> r == TrackedStatus::Conflict
                && final(self).symphonies_map() == old(self).symphonies_map(),
            !old(self).symphonies_map().contains_key(payload.name@) ==> r == TrackedStatus::Created
                && final(self).symphonies_map() == old(self).symphonies_map().insert(payload.name@, requested_tracked(payload)),
    {
        if self.contains(&payload.name) {
            return TrackedStatus::Conflict;
        }
        let entry = tracked_from_request(payload);
        self.insert(entry);
        TrackedStatus::Created
    }

    /// Replaces the tracked symphony `name` by the one requested (which may
    /// carry another name); answers not found if `name` is not tracked.
    pub fn update_tracked_symphony(&mut self, name: &String, payload: CreateSymphony) -> (r: TrackedStatus)
        requires
            old(self).wf(),
        ensures
            final(self).wf(),
            !old(self).symphonies_map().contains_key(name@) ==> r == TrackedStatus::NotFound
                && final(self).symphonies_map() == old(self).symphonies_map(),
            old(self).symphonies_map().contains_key(name@) ==> r == TrackedStatus::Succeeded && final(self).symphonies_map() == (if payload.name@
                == name@ {
                old(self).symphonies_map().insert(payload.name@, requested_tracked(payload))
            } else {
                old(self).symphonies_map().insert(payload.name@, requested_tracked(payload)).remove(name@)
            }),
    {
        if !self.contains(name) {
            return TrackedStatus::NotFound;
        }
        let entry = tracked_from_request(payload);
        let renamed = entry.name != *name;
        self.insert(entry);
        if renamed {
            let _ = self.remove(name);
        }
        TrackedStatus::Succeeded
    }

    /// Forgets the tracked symphony `name`; answers not found if there is none.
    pub fn delete_tracked_symphony(&mut self, name: &String) -> (r: TrackedStatus)
        requires
            old(self).wf(),
        ensures
            final(self).wf(),
            final(self).symphonies_map() == old(self).symphonies_map().remove(name@),
            r == (if old(self).symphonies_map().contains_key(name@) {
                TrackedStatus::Succeeded
            } else {
                TrackedStatus::NotFound
            }),
    {
        if self.remove(name) {
            TrackedStatus::Succeeded
        } else {
            TrackedStatus::NotFound
        }
    }
}

/// A note of the demonstration data.
pub open spec fn sample_note(name: Seq<char>, command: Seq<char>, args: Seq<Seq<char>>) -> TrackedNoteView {
    TrackedNoteView {
        name,
        description: "First note"@,
        host: "me"@,
        command,
        args,
        env: seq![("VAR1"@, "value1"@)],
        restart_policy: RestartPolicy::Never,
        state: NoteState::Terminated,
        auditorium_state: AuditoriumResourceState::Stopped,
    }
}

/// The demonstration data: `Symphony1` with two notes, and the empty
/// `MyHardcodedSymphony`, both stopped.
pub open spec fn sample_symphonies() -> Map<Seq<char>, TrackedSymphonyView> {
    Map::<Seq<char>, TrackedSymphonyView>::empty().insert(
        "Symphony1"@,
        TrackedSymphonyView {
            name: "Symphony1"@,
            notes: seq![
                sample_note("Note1"@, "echo"@, seq!["Hello"@, "World"@]),
                sample_note("Note2"@, "ping"@, seq!["127.0.0.1"@]),
            ],
            auditorium_state: AuditoriumResourceState::Stopped,
        },
    ).insert(
        "MyHardcodedSymphony"@,
        TrackedSymphonyView {
            name: "MyHardcodedSymphony"@,
            notes: Seq::empty(),
            auditorium_state: AuditoriumResourceState::Stopped,
        },
    )
}

fn sample_tracked_note(name: &str, command: &str, args: Vec<String>) -> (r: TrackedNote)
    ensures
        r@ == sample_note(name@, command@, strings_view(args@)),
{
    let mut env: Vec<(String, String)> = Vec::new();
    env.push(("VAR1".to_owned(), "value1".to_owned()));
    let r = TrackedNote {
        name: name.to_owned(),
        description: "First note".to_owned(),
        host: "me".to_owned(),
        command: command.to_owned(),
        args,
        env,
        restart_policy: RestartPolicy::Never,
        state: NoteState::Terminated,
        auditorium_state: AuditoriumResourceState::Stopped,
    };
    assert(r@.env =~= seq![("VAR1"@, "value1"@)]);
    r
}

impl InMemoryAuditoriumStore {
    /// A store holding some demonstration data.
    pub fn with_defaults() -> (r: Self)
        ensures
            r.wf(),
            r.symphonies_map() == sample_symphonies(),
    {
        let mut store = InMemoryAuditoriumStore::new();
        let mut args1: Vec<String> = Vec::new();
        args1.push("Hello".to_owned());
        args1.push("World".to_owned());
        assert(strings_view(args1@) =~= seq!["Hello"@, "World"@]);
        let note1 = sample_tracked_note("Note1", "echo", args1);
        let mut args2: Vec<String> = Vec::new();
        args2.push("127.0.0.1".to_owned());
        assert(strings_view(args2@) =~= seq!["127.0.0.1"@]);
        let note2 = sample_tracked_note("Note2", "ping", args2);
        let mut notes: Vec<TrackedNote> = Vec::new();
        notes.push(note1);
        notes.push(note2);
        let sym1 = TrackedSymphony { name: "Symphony1".to_owned(), notes, auditorium_state: AuditoriumResourceState::Stopped };
        let sym2 = TrackedSymphony {
            name: "MyHardcodedSymphony".to_owned(),
            notes: Vec::new(),
            auditorium_state: AuditoriumResourceState::Stopped,
        };
        assert(sym1@.notes =~= seq![
            sample_note("Note1"@, "echo"@, seq!["Hello"@, "World"@]),
            sample_note("Note2"@, "ping"@, seq!["127.0.0.1"@]),
        ]);
        assert(sym2@.notes =~= Seq::<TrackedNoteView>::empty());
        store.insert(sym1);
        store.insert(sym2);
        store
    }
}

/// Law: matching against the maestro changes only states: a tracked
/// symphony keeps its name and its notes, each in place with all its fields
/// but its two states.
pub proof fn law_merge_changes_only_states(ts: TrackedSymphonyView, maestro: Option<Seq<SymphonyWithNotesView>>)
    ensures
        merge_symphony(ts, maestro).name == ts.name,
        merge_symphony(ts, maestro).notes.len() == ts.notes.len(),
        forall|i: int| 0 <= i < ts.notes.len() ==> ({
            let a = #[trigger] merge_symphony(ts, maestro).notes[i];
            let b = ts.notes[i];
            TrackedNoteView { state: b.state, auditorium_state: b.auditorium_state, ..a } == b
        }),
{
}

/// Law: a tracked symphony that the maestro does not list (or whose list
/// could not be had) is stopped, and so are all its notes, terminated.
pub proof fn law_missing_symphony_stops(ts: TrackedSymphonyView, maestro: Option<Seq<SymphonyWithNotesView>>)
    requires
        match maestro {
            Some(list) => find_symphony(list, ts.name) is None,
            None => true,
        },
    ensures
        merge_symphony(ts, maestro).auditorium_state == AuditoriumResourceState::Stopped,
        forall|i: int| 0 <= i < ts.notes.len() ==> (#[trigger] merge_symphony(ts, maestro).notes[i]).state == NoteState::Terminated
            && merge_symphony(ts, maestro).notes[i].auditorium_state == AuditoriumResourceState::Stopped,
{
}

/// Law: creating a symphony that is not tracked and then deleting it
/// leaves the tracked symphonies as they were.
pub proof fn law_create_then_delete(m: Map<Seq<char>, TrackedSymphonyView>, payload: CreateSymphony)
    requires
        !m.contains_key(payload.name@),
    ensures
        m.insert(payload.name@, requested_tracked(payload)).remove(payload.name@) == m,
{
    assert(m.insert(payload.name@, requested_tracked(payload)).remove(payload.name@) =~= m);
}

} // verus!
