//! The maestro's records, and the in-memory store that holds them.
use vstd::prelude::*;
use vstd::string::*;
use crate::keyed::{
    keys_unique, lemma_map_of_absent, lemma_map_of_dom, lemma_map_of_index, lemma_map_of_keys, lemma_map_of_map_values, lemma_map_of_push,
    lemma_map_of_remove, lemma_map_of_update, map_of, Keyed,
};
use crate::maestro::dto::{SymphonyWithNotes, SymphonyWithNotesView};
use crate::text::{clone_pairs, clone_strings, pairs_view, str_eq, strings_view};
use crate::watcher::Watchable;

verus! {

#[derive(Clone, Copy, Debug, PartialEq, Eq, Structural)]
pub enum PrincipalState {
    Ready,
    NotReady,
}

#[derive(Clone, Copy, Debug, PartialEq, Eq, Structural)]
pub enum NoteState {
    Pending,
    Running,
    /// The process exited by itself with exit code zero.
    Completed,
    /// The process exited by itself with a non-zero exit code.
    Crashed,
    /// A user terminated the process.
    Terminated,
    /// The process is being shut down. A note carries no separate desired
    /// state: the maestro asks for a note to be stopped by marking it
    /// terminating, and the principal runs only notes not so marked.
    Terminating,
}

#[derive(Clone, Copy, Debug, PartialEq, Eq, Structural)]
pub enum RestartPolicy {
    Never,
    OnFailure,
    Always,
}

/// A symphony is running as soon as it is stored, and notes can be added to
/// it; it is terminating once a user stopped it and the principals are
/// closing its notes. A terminating symphony takes no new notes.
#[derive(Clone, Copy, Debug, PartialEq, Eq, Structural)]
pub enum SymphonyState {
    Running,
    Terminating,
}

/// A process that a principal runs on behalf of a symphony.
pub struct Note {
    pub name: String,
    pub description: String,
    pub host: String,
    pub command: String,
    pub args: Vec<String>,
    /// Environment variables, as (name, value) pairs; a variable is named
    /// once (`env_names_unique`).
    pub env: Vec<(String, String)>,
    pub restart_policy: RestartPolicy,
    pub symphony: String,
    pub state: NoteState,
}

pub struct NoteView {
    pub name: Seq<char>,
    pub description: Seq<char>,
    pub host: Seq<char>,
    pub command: Seq<char>,
    pub args: Seq<Seq<char>>,
    pub env: Seq<(Seq<char>, Seq<char>)>,
    pub restart_policy: RestartPolicy,
    pub symphony: Seq<char>,
    pub state: NoteState,
}

impl View for Note {
    type V = NoteView;

    open spec fn view(&self) -> NoteView {
        NoteView {
            name: self.name@,
            description: self.description@,
            host: self.host@,
            command: self.command@,
            args: strings_view(self.args@),
            env: pairs_view(self.env@),
            restart_policy: self.restart_policy,
            symphony: self.symphony@,
            state: self.state,
        }
    }
}

impl Clone for Note {
    fn clone(&self) -> (r: Self)
        ensures
            r@ == self@,
    {
        Note {
            name: self.name.clone(),
            description: self.description.clone(),
            host: self.host.clone(),
            command: self.command.clone(),
            args: clone_strings(&self.args),
            env: clone_pairs(&self.env),
            restart_policy: self.restart_policy,
            symphony: self.symphony.clone(),
            state: self.state,
        }
    }
}

/// A note is found by its symphony and its name.
impl Keyed for NoteView {
    type Key = (Seq<char>, Seq<char>);

    open spec fn key(&self) -> (Seq<char>, Seq<char>) {
        (self.symphony, self.name)
    }
}

impl NoteView {
    pub open spec fn field_value(self, field_name: Seq<char>) -> Option<Seq<char>> {
        if field_name == "name"@ {
            Some(self.name)
        } else if field_name == "description"@ {
            Some(self.description)
        } else if field_name == "host"@ {
            Some(self.host)
        } else if field_name == "command"@ {
            Some(self.command)
        } else if field_name == "symphony"@ {
            Some(self.symphony)
        } else {
            None
        }
    }
}

impl Watchable for Note {
    open spec fn field_value(&self, field_name: Seq<char>) -> Option<Seq<char>> {
        self@.field_value(field_name)
    }

    fn get_field_value(&self, field_name: &str) -> (r: Option<String>) {
        if str_eq(field_name, "name") {
            Some(self.name.clone())
        } else if str_eq(field_name, "description") {
            Some(self.description.clone())
        } else if str_eq(field_name, "host") {
            Some(self.host.clone())
        } else if str_eq(field_name, "command") {
            Some(self.command.clone())
        } else if str_eq(field_name, "symphony") {
            Some(self.symphony.clone())
        } else {
            None
        }
    }
}

pub struct Symphony {
    pub name: String,
    /// The names of the symphony's notes; the notes themselves are stored
    /// apart, under the symphony's name and their own.
    pub notes: Vec<String>,
    pub state: SymphonyState,
}

pub struct SymphonyView {
    pub name: Seq<char>,
    pub notes: Seq<Seq<char>>,
    pub state: SymphonyState,
}

impl View for Symphony {
    type V = SymphonyView;

    open spec fn view(&self) -> SymphonyView {
        SymphonyView { name: self.name@, notes: strings_view(self.notes@), state: self.state }
    }
}

impl Clone for Symphony {
    fn clone(&self) -> (r: Self)
        ensures
            r@ == self@,
    {
        Symphony { name: self.name.clone(), notes: clone_strings(&self.notes), state: self.state }
    }
}

impl Keyed for SymphonyView {
    type Key = Seq<char>;

    open spec fn key(&self) -> Seq<char> {
        self.name
    }
}

impl Symphony {
    pub fn name(&self) -> (r: String)
        ensures
            r@ == self.name@,
    {
        self.name.clone()
    }

    /// The names of the notes of this symphony; the store holds the notes.
    pub fn notes(&self) -> (r: Vec<String>)
        ensures
            strings_view(r@) == strings_view(self.notes@),
    {
        clone_strings(&self.notes)
    }

    pub fn state(&self) -> (r: &SymphonyState)
        ensures
            *r == self.state,
    {
        &self.state
    }
}

/// The fields a selector can name on a symphony: only `name`.
pub open spec fn named_field_value(name: Seq<char>, field_name: Seq<char>) -> Option<Seq<char>> {
    if field_name == "name"@ {
        Some(name)
    } else {
        None
    }
}

impl Watchable for Symphony {
    open spec fn field_value(&self, field_name: Seq<char>) -> Option<Seq<char>> {
        named_field_value(self.name@, field_name)
    }

    fn get_field_value(&self, field_name: &str) -> (r: Option<String>) {
        if str_eq(field_name, "name") {
            Some(self.name.clone())
        } else {
            None
        }
    }
}

/// A host that runs notes, as last reported by its heartbeat.
pub struct Principal {
    pub host: String,
    pub capabilities: Vec<String>,
    pub state: PrincipalState,
    pub last_updated: u64,
}

pub struct PrincipalView {
    pub host: Seq<char>,
    pub capabilities: Seq<Seq<char>>,
    pub state: PrincipalState,
    pub last_updated: u64,
}

impl View for Principal {
    type V = PrincipalView;

    open spec fn view(&self) -> PrincipalView {
        PrincipalView {
            host: self.host@,
            capabilities: strings_view(self.capabilities@),
            state: self.state,
            last_updated: self.last_updated,
        }
    }
}

impl Clone for Principal {
    fn clone(&self) -> (r: Self)
        ensures
            r@ == self@,
    {
        Principal {
            host: self.host.clone(),
            capabilities: clone_strings(&self.capabilities),
            state: self.state,
            last_updated: self.last_updated,
        }
    }
}

impl Keyed for PrincipalView {
    type Key = Seq<char>;

    open spec fn key(&self) -> Seq<char> {
        self.host
    }
}

impl Principal {
    pub fn host(&self) -> (r: String)
        ensures
            r@ == self.host@,
    {
        self.host.clone()
    }

    pub fn capabilities(&self) -> (r: Vec<String>)
        ensures
            strings_view(r@) == strings_view(self.capabilities@),
    {
        clone_strings(&self.capabilities)
    }

    pub fn state(&self) -> (r: PrincipalState)
        ensures
            r == self.state,
    {
        self.state
    }

    pub fn last_updated(&self) -> (r: u64)
        ensures
            r == self.last_updated,
    {
        self.last_updated
    }
}

impl Watchable for Principal {
    open spec fn field_value(&self, field_name: Seq<char>) -> Option<Seq<char>> {
        if field_name == "host"@ {
            Some(self.host@)
        } else {
            None
        }
    }

    fn get_field_value(&self, field_name: &str) -> (r: Option<String>) {
        if str_eq(field_name, "host") {
            Some(self.host.clone())
        } else {
            None
        }
    }
}

/// An environment names each variable once, as a map from names to values does.
pub open spec fn env_names_unique(env: Seq<(Seq<char>, Seq<char>)>) -> bool {
    forall|i: int, j: int| 0 <= i < j < env.len() ==> env[i].0 != env[j].0
}

pub open spec fn notes_view(v: Seq<Note>) -> Seq<NoteView> {
    v.map_values(|n: Note| n@)
}

pub open spec fn symphonies_view(v: Seq<Symphony>) -> Seq<SymphonyView> {
    v.map_values(|s: Symphony| s@)
}

pub open spec fn principals_view(v: Seq<Principal>) -> Seq<PrincipalView> {
    v.map_values(|p: Principal| p@)
}

/// A symphony together with its stored notes, in the order the symphony
/// names them.
pub open spec fn with_notes(notes: Map<(Seq<char>, Seq<char>), NoteView>, s: SymphonyView) -> SymphonyWithNotesView {
    SymphonyWithNotesView {
        name: s.name,
        notes: Seq::new(s.notes.len(), |i: int| notes[(s.name, s.notes[i])]),
        state: s.state,
    }
}

/// Every note that `s` names is stored.
pub open spec fn notes_present(notes: Map<(Seq<char>, Seq<char>), NoteView>, s: SymphonyView) -> bool {
    forall|i: int| 0 <= i < s.notes.len() ==> notes.contains_key((s.name, #[trigger] s.notes[i]))
}

/// Whether `name` is one of `names`.
fn names_contain(names: &Vec<String>, name: &String) -> (r: bool)
    ensures
        r == strings_view(names@).contains(name@),
{
    let mut i: usize = 0;
    while i < names.len()
        invariant
            i <= names@.len(),
            forall|j: int| 0 <= j < i ==> strings_view(names@)[j] != name@,
        decreases names@.len() - i,
    {
        if names[i] == *name {
            assert(strings_view(names@)[i as int] == name@);
            return true;
        }
        i = i + 1;
    }
    false
}

/// Whether a note may be stored: it replaces a stored note, or its symphony
/// is not a terminating one.
pub open spec fn note_admitted(
    notes: Map<(Seq<char>, Seq<char>), NoteView>,
    symphonies: Map<Seq<char>, SymphonyView>,
    note: NoteView,
) -> bool {
    notes.contains_key(note.key()) || !(symphonies.contains_key(note.symphony)
        && symphonies[note.symphony].state == SymphonyState::Terminating)
}

/// The store of notes (by symphony and name), symphonies (by name) and
/// principals (by host). Each kind of record is kept in a list in which no
/// two records share a key.
pub struct InMemoryStore {
    notes: Vec<Note>,
    symphonies: Vec<Symphony>,
    principals: Vec<Principal>,
}

impl InMemoryStore {
    pub closed spec fn note_entries(&self) -> Seq<NoteView> {
        notes_view(self.notes@)
    }

    pub closed spec fn symphony_entries(&self) -> Seq<SymphonyView> {
        symphonies_view(self.symphonies@)
    }

    pub closed spec fn principal_entries(&self) -> Seq<PrincipalView> {
        principals_view(self.principals@)
    }

    /// The stored notes, by (symphony, name).
    pub open spec fn notes_map(&self) -> Map<(Seq<char>, Seq<char>), NoteView> {
        map_of(self.note_entries())
    }

    /// The stored symphonies, by name.
    pub open spec fn symphonies_map(&self) -> Map<Seq<char>, SymphonyView> {
        map_of(self.symphony_entries())
    }

    /// The stored principals, by host.
    pub open spec fn principals_map(&self) -> Map<Seq<char>, PrincipalView> {
        map_of(self.principal_entries())
    }

    pub closed spec fn wf(&self) -> bool {
        &&& keys_unique(self.note_entries())
        &&& keys_unique(self.symphony_entries())
        &&& keys_unique(self.principal_entries())
    }

    pub fn new() -> (r: Self)
        ensures
            r.wf(),
            r.notes_map() == Map::<(Seq<char>, Seq<char>), NoteView>::empty(),
            r.symphonies_map() == Map::<Seq<char>, SymphonyView>::empty(),
            r.principals_map() == Map::<Seq<char>, PrincipalView>::empty(),
            links_consistent(r.model()),
    {
        let r = InMemoryStore { notes: Vec::new(), symphonies: Vec::new(), principals: Vec::new() };
        assert(r.note_entries() =~= Seq::<NoteView>::empty());
        assert(r.symphony_entries() =~= Seq::<SymphonyView>::empty());
        assert(r.principal_entries() =~= Seq::<PrincipalView>::empty());
        r
    }

    fn find_note(&self, symphony: &String, name: &String) -> (r: Option<usize>)
        ensures
            match r {
                Some(i) => i < self.notes@.len() && self.note_entries()[i as int].key() == (symphony@, name@),
                None => forall|i: int| 0 <= i < self.notes@.len() ==> (#[trigger] self.note_entries()[i]).key() != (symphony@, name@),
            },
    {
        let mut i: usize = 0;
        while i < self.notes.len()
            invariant
                i <= self.notes@.len(),
                forall|j: int| 0 <= j < i ==> (#[trigger] self.note_entries()[j]).key() != (symphony@, name@),
            decreases self.notes@.len() - i,
        {
            if self.notes[i].symphony == *symphony && self.notes[i].name == *name {
                return Some(i);
            }
            i = i + 1;
        }
        None
    }

    fn find_symphony(&self, name: &String) -> (r: Option<usize>)
        ensures
            match r {
                Some(i) => i < self.symphonies@.len() && self.symphony_entries()[i as int].key() == name@,
                None => forall|i: int| 0 <= i < self.symphonies@.len() ==> (#[trigger] self.symphony_entries()[i]).key() != name@,
            },
    {
        let mut i: usize = 0;
        while i < self.symphonies.len()
            invariant
                i <= self.symphonies@.len(),
                forall|j: int| 0 <= j < i ==> (#[trigger] self.symphony_entries()[j]).key() != name@,
            decreases self.symphonies@.len() - i,
        {
            if self.symphonies[i].name == *name {
                return Some(i);
            }
            i = i + 1;
        }
        None
    }

    fn find_principal(&self, host: &String) -> (r: Option<usize>)
        ensures
            match r {
                Some(i) => i < self.principals@.len() && self.principal_entries()[i as int].key() == host@,
                None => forall|i: int| 0 <= i < self.principals@.len() ==> (#[trigger] self.principal_entries()[i]).key() != host@,
            },
    {
        let mut i: usize = 0;
        while i < self.principals.len()
            invariant
                i <= self.principals@.len(),
                forall|j: int| 0 <= j < i ==> (#[trigger] self.principal_entries()[j]).key() != host@,
            decreases self.principals@.len() - i,
        {
            if self.principals[i].host == *host {
                return Some(i);
            }
            i = i + 1;
        }
        None
    }

    /// Stores a note under its symphony and name, replacing any note there;
    /// a new note is not added to a terminating symphony (the store is then
    /// left as it is).
    pub fn add_note(&mut self, note: Note)
        requires
            old(self).wf(),
        ensures
            final(self).wf(),
            final(self).notes_map() == (if note_admitted(old(self).notes_map(), old(self).symphonies_map(), note@) {
                old(self).notes_map().insert(note@.key(), note@)
            } else {
                old(self).notes_map()
            }),
            final(self).symphonies_map() == old(self).symphonies_map(),
            final(self).principals_map() == old(self).principals_map(),
    {
        let ghost s = self.note_entries();
        let ghost v = note@;
        match self.find_note(&note.symphony, &note.name) {
            Some(i) => {
                proof { lemma_map_of_index(s, i as int); }
                self.notes.set(i, note);
                proof {
                    assert(self.note_entries() =~= s.update(i as int, v));
                    lemma_map_of_update(s, i as int, v);
                }
            },
            None => {
                proof { lemma_map_of_absent(s, v.key()); }
                match self.find_symphony(&note.symphony) {
                    Some(j) => {
                        proof { lemma_map_of_index(self.symphony_entries(), j as int); }
                        if self.symphonies[j].state == SymphonyState::Terminating {
                            return;
                        }
                    },
                    None => {
                        proof { lemma_map_of_absent(self.symphony_entries(), v.symphony); }
                    },
                }
                self.notes.push(note);
                proof {
                    assert(self.note_entries() =~= s.push(v));
                    lemma_map_of_push(s, v);
                }
            },
        }
    }

    /// Stores a symphony under its name, replacing any symphony there.
    pub fn add_symphony(&mut self, symphony: Symphony)
        requires
            old(self).wf(),
        ensures
            final(self).wf(),
            final(self).symphonies_map() == old(self).symphonies_map().insert(symphony@.key(), symphony@),
            final(self).notes_map() == old(self).notes_map(),
            final(self).principals_map() == old(self).principals_map(),
    {
        let ghost s = self.symphony_entries();
        let ghost v = symphony@;
        match self.find_symphony(&symphony.name) {
            Some(i) => {
                self.symphonies.set(i, symphony);
                proof {
                    assert(self.symphony_entries() =~= s.update(i as int, v));
                    lemma_map_of_update(s, i as int, v);
                }
            },
            None => {
                self.symphonies.push(symphony);
                proof {
                    assert(self.symphony_entries() =~= s.push(v));
                    lemma_map_of_push(s, v);
                }
            },
        }
    }

    /// Stores a principal under its host, replacing any principal there.
    pub fn add_principal(&mut self, principal: Principal)
        requires
            old(self).wf(),
        ensures
            final(self).wf(),
            final(self).principals_map() == old(self).principals_map().insert(principal@.key(), principal@),
            final(self).notes_map() == old(self).notes_map(),
            final(self).symphonies_map() == old(self).symphonies_map(),
    {
        let ghost s = self.principal_entries();
        let ghost v = principal@;
        match self.find_principal(&principal.host) {
            Some(i) => {
                self.principals.set(i, principal);
                proof {
                    assert(self.principal_entries() =~= s.update(i as int, v));
                    lemma_map_of_update(s, i as int, v);
                }
            },
            None => {
                self.principals.push(principal);
                proof {
                    assert(self.principal_entries() =~= s.push(v));
                    lemma_map_of_push(s, v);
                }
            },
        }
    }

    pub fn get_note(&self, symphony: &str, name: &str) -> (r: Option<Note>)
        requires
            self.wf(),
        ensures
            match r {
                Some(n) => self.notes_map().contains_key((symphony@, name@)) && n@ == self.notes_map()[(symphony@, name@)],
                None => !self.notes_map().contains_key((symphony@, name@)),
            },
    {
        let symphony: String = symphony.to_owned();
        let name: String = name.to_owned();
        match self.find_note(&symphony, &name) {
            Some(i) => {
                proof { lemma_map_of_index(self.note_entries(), i as int); }
                Some(self.notes[i].clone())
            },
            None => {
                proof { lemma_map_of_absent(self.note_entries(), (symphony@, name@)); }
                None
            },
        }
    }

    pub fn get_symphony(&self, name: &str) -> (r: Option<Symphony>)
        requires
            self.wf(),
        ensures
            match r {
                Some(s) => self.symphonies_map().contains_key(name@) && s@ == self.symphonies_map()[name@],
                None => !self.symphonies_map().contains_key(name@),
            },
    {
        let name: String = name.to_owned();
        match self.find_symphony(&name) {
            Some(i) => {
                proof { lemma_map_of_index(self.symphony_entries(), i as int); }
                Some(self.symphonies[i].clone())
            },
            None => {
                proof { lemma_map_of_absent(self.symphony_entries(), name@); }
                None
            },
        }
    }

    pub fn get_principal(&self, host: &str) -> (r: Option<Principal>)
        requires
            self.wf(),
        ensures
            match r {
                Some(p) => self.principals_map().contains_key(host@) && p@ == self.principals_map()[host@],
                None => !self.principals_map().contains_key(host@),
            },
    {
        let host: String = host.to_owned();
        match self.find_principal(&host) {
            Some(i) => {
                proof { lemma_map_of_index(self.principal_entries(), i as int); }
                Some(self.principals[i].clone())
            },
            None => {
                proof { lemma_map_of_absent(self.principal_entries(), host@); }
                None
            },
        }
    }

    /// A symphony with the notes it names, in that order.
    pub fn get_symphony_with_notes(&self, name: &str) -> (r: Option<SymphonyWithNotes>)
        requires
            self.wf(),
            self.symphonies_map().contains_key(name@) ==> notes_present(self.notes_map(), self.symphonies_map()[name@]),
        ensures
            match r {
                Some(w) => self.symphonies_map().contains_key(name@) && w@ == with_notes(
                    self.notes_map(),
                    self.symphonies_map()[name@],
                ),
                None => !self.symphonies_map().contains_key(name@),
            },
    {
        let symphony = match self.get_symphony(name) {
            Some(s) => s,
            None => return None,
        };
        let ghost sv = symphony@;
        let mut notes: Vec<Note> = Vec::new();
        let mut i: usize = 0;
        while i < symphony.notes.len()
            invariant
                self.wf(),
                sv == symphony@,
                notes_present(self.notes_map(), sv),
                i <= symphony.notes@.len(),
                notes_view(notes@) =~= with_notes(self.notes_map(), sv).notes.take(i as int),
            decreases symphony.notes@.len() - i,
        {
            assert(sv.notes[i as int] == symphony.notes@[i as int]@);
            let note = self.get_note(symphony.name.as_str(), symphony.notes[i].as_str());
            assert(self.notes_map().contains_key((sv.name, sv.notes[i as int])));
            let ghost before = notes@;
            if let Some(note) = note {
                notes.push(note);
                assert(notes_view(notes@) =~= notes_view(before).push(self.notes_map()[(sv.name, sv.notes[i as int])]));
            }
            i = i + 1;
            assert(notes_view(notes@) =~= with_notes(self.notes_map(), sv).notes.take(i as int));
        }
        let r = SymphonyWithNotes { name: symphony.name, notes, state: symphony.state };
        assert(with_notes(self.notes_map(), sv).notes.take(sv.notes.len() as int) =~= with_notes(self.notes_map(), sv).notes);
        Some(r)
    }

    /// Every stored note, each once.
    pub fn get_all_notes(&self) -> (r: Vec<Note>)
        requires
            self.wf(),
        ensures
            keys_unique(notes_view(r@)),
            map_of(notes_view(r@)) == self.notes_map(),
    {
        let mut r: Vec<Note> = Vec::new();
        let mut i: usize = 0;
        while i < self.notes.len()
            invariant
                i <= self.notes@.len(),
                notes_view(r@) =~= self.note_entries().take(i as int),
            decreases self.notes@.len() - i,
        {
            let c = self.notes[i].clone();
            assert(c@ == self.notes@[i as int]@);
            let ghost old_r = r@;
            r.push(c);
            assert(notes_view(r@) =~= notes_view(old_r).push(c@));
            i = i + 1;
            assert(notes_view(r@) =~= self.note_entries().take(i as int));
        }
        assert(self.note_entries().take(self.notes@.len() as int) =~= self.note_entries());
        r
    }

    /// Every stored symphony, each once.
    pub fn get_all_symphonies(&self) -> (r: Vec<Symphony>)
        requires
            self.wf(),
        ensures
            keys_unique(symphonies_view(r@)),
            map_of(symphonies_view(r@)) == self.symphonies_map(),
    {
        let mut r: Vec<Symphony> = Vec::new();
        let mut i: usize = 0;
        while i < self.symphonies.len()
            invariant
                i <= self.symphonies@.len(),
                symphonies_view(r@) =~= self.symphony_entries().take(i as int),
            decreases self.symphonies@.len() - i,
        {
            let c = self.symphonies[i].clone();
            let ghost old_r = r@;
            r.push(c);
            assert(symphonies_view(r@) =~= symphonies_view(old_r).push(c@));
            i = i + 1;
            assert(symphonies_view(r@) =~= self.symphony_entries().take(i as int));
        }
        assert(self.symphony_entries().take(self.symphonies@.len() as int) =~= self.symphony_entries());
        r
    }

    /// Every stored symphony with its notes, each once.
    pub fn get_all_symphonies_with_notes(&self) -> (r: Vec<SymphonyWithNotes>)
        requires
            self.wf(),
            forall|k: Seq<char>| #[trigger] self.symphonies_map().contains_key(k) ==> notes_present(
                self.notes_map(),
                self.symphonies_map()[k],
            ),
        ensures
            keys_unique(r@.map_values(|w: SymphonyWithNotes| w@)),
            map_of(r@.map_values(|w: SymphonyWithNotes| w@)) == self.symphonies_map().map_values(
                |s: SymphonyView| with_notes(self.notes_map(), s),
            ),
    {
        let ghost f = |s: SymphonyView| with_notes(self.notes_map(), s);
        let ghost es = self.symphony_entries();
        let mut r: Vec<SymphonyWithNotes> = Vec::new();
        let mut i: usize = 0;
        while i < self.symphonies.len()
            invariant
                self.wf(),
                es == self.symphony_entries(),
                f == (|s: SymphonyView| with_notes(self.notes_map(), s)),
                forall|k: Seq<char>| #[trigger] self.symphonies_map().contains_key(k) ==> notes_present(
                    self.notes_map(),
                    self.symphonies_map()[k],
                ),
                i <= self.symphonies@.len(),
                r@.map_values(|w: SymphonyWithNotes| w@) =~= es.map_values(f).take(i as int),
            decreases self.symphonies@.len() - i,
        {
            proof {
                lemma_map_of_index(es, i as int);
            }
            let w = self.get_symphony_with_notes(self.symphonies[i].name.as_str());
            let ghost before = r@;
            if let Some(w) = w {
                r.push(w);
                assert(r@.map_values(|w: SymphonyWithNotes| w@) =~= before.map_values(|w: SymphonyWithNotes| w@).push(f(es[i as int])));
            }
            i = i + 1;
            assert(r@.map_values(|w: SymphonyWithNotes| w@) =~= es.map_values(f).take(i as int));
        }
        proof {
            assert(es.map_values(f).take(es.len() as int) =~= es.map_values(f));
            lemma_map_of_map_values(es, f);
        }
        r
    }

    /// Every stored principal, each once.
    pub fn get_all_principals(&self) -> (r: Vec<Principal>)
        requires
            self.wf(),
        ensures
            keys_unique(principals_view(r@)),
            map_of(principals_view(r@)) == self.principals_map(),
    {
        let mut r: Vec<Principal> = Vec::new();
        let mut i: usize = 0;
        while i < self.principals.len()
            invariant
                i <= self.principals@.len(),
                principals_view(r@) =~= self.principal_entries().take(i as int),
            decreases self.principals@.len() - i,
        {
            let c = self.principals[i].clone();
            let ghost old_r = r@;
            r.push(c);
            assert(principals_view(r@) =~= principals_view(old_r).push(c@));
            i = i + 1;
            assert(principals_view(r@) =~= self.principal_entries().take(i as int));
        }
        assert(self.principal_entries().take(self.principals@.len() as int) =~= self.principal_entries());
        r
    }

    /// Sets the state of a stored note; does nothing if there is none.
    pub fn _update_note_state(&mut self, symphony: &str, name: &str, new_state: NoteState)
        requires
            old(self).wf(),
        ensures
            final(self).wf(),
            final(self).notes_map() == (if old(self).notes_map().contains_key((symphony@, name@)) {
                old(self).notes_map().insert(
                    (symphony@, name@),
                    NoteView { state: new_state, ..old(self).notes_map()[(symphony@, name@)] },
                )
            } else {
                old(self).notes_map()
            }),
            final(self).symphonies_map() == old(self).symphonies_map(),
            final(self).principals_map() == old(self).principals_map(),
    {
        if let Some(mut note) = self.get_note(symphony, name) {
            proof { lemma_map_of_keys(self.note_entries()); }
            note.state = new_state;
            self.add_note(note);
        }
    }

    /// Replaces a stored note; fails, and changes nothing, if there is none.
    pub fn update_note(&mut self, updated_note: Note) -> (r: Result<(), String>)
        requires
            old(self).wf(),
        ensures
            final(self).wf(),
            final(self).symphonies_map() == old(self).symphonies_map(),
            final(self).principals_map() == old(self).principals_map(),
            match r {
                Ok(()) => {
                    &&& old(self).notes_map().contains_key(updated_note@.key())
                    &&& final(self).notes_map() == old(self).notes_map().insert(updated_note@.key(), updated_note@)
                },
                Err(e) => {
                    &&& !old(self).notes_map().contains_key(updated_note@.key())
                    &&& final(self).notes_map() == old(self).notes_map()
                    &&& e@ == "Note '"@ + updated_note.symphony@ + ":"@ + updated_note.name@ + "' not found"@
                },
            },
    {
        match self.find_note(&updated_note.symphony, &updated_note.name) {
            Some(i) => {
                proof { lemma_map_of_index(self.note_entries(), i as int); }
                self.add_note(updated_note);
                Ok(())
            },
            None => {
                proof { lemma_map_of_absent(self.note_entries(), updated_note@.key()); }
                let mut e: String = "Note '".to_owned();
                e.append(updated_note.symphony.as_str());
                e.append(":");
                e.append(updated_note.name.as_str());
                e.append("' not found");
                Err(e)
            },
        }
    }

    /// Replaces a stored symphony; fails, and changes nothing, if there is none.
    pub fn update_symphony(&mut self, updated_symphony: Symphony) -> (r: Result<(), String>)
        requires
            old(self).wf(),
        ensures
            final(self).wf(),
            final(self).notes_map() == old(self).notes_map(),
            final(self).principals_map() == old(self).principals_map(),
            match r {
                Ok(()) => {
                    &&& old(self).symphonies_map().contains_key(updated_symphony@.key())
                    &&& final(self).symphonies_map() == old(self).symphonies_map().insert(
                        updated_symphony@.key(),
                        updated_symphony@,
                    )
                },
                Err(e) => {
                    &&& !old(self).symphonies_map().contains_key(updated_symphony@.key())
                    &&& final(self).symphonies_map() == old(self).symphonies_map()
                    &&& e@ == "Symphony '"@ + updated_symphony.name@ + "' not found"@
                },
            },
    {
        match self.find_symphony(&updated_symphony.name) {
            Some(i) => {
                proof { lemma_map_of_index(self.symphony_entries(), i as int); }
                self.add_symphony(updated_symphony);
                Ok(())
            },
            None => {
                proof { lemma_map_of_absent(self.symphony_entries(), updated_symphony@.key()); }
                let mut e: String = "Symphony '".to_owned();
                e.append(updated_symphony.name.as_str());
                e.append("' not found");
                Err(e)
            },
        }
    }

    /// Replaces a stored principal; fails, and changes nothing, if there is none.
    pub fn update_principal(&mut self, updated_principal: Principal) -> (r: Result<(), String>)
        requires
            old(self).wf(),
        ensures
            final(self).wf(),
            final(self).notes_map() == old(self).notes_map(),
            final(self).symphonies_map() == old(self).symphonies_map(),
            match r {
                Ok(()) => {
                    &&& old(self).principals_map().contains_key(updated_principal@.key())
                    &&& final(self).principals_map() == old(self).principals_map().insert(
                        updated_principal@.key(),
                        updated_principal@,
                    )
                },
                Err(e) => {
                    &&& !old(self).principals_map().contains_key(updated_principal@.key())
                    &&& final(self).principals_map() == old(self).principals_map()
                    &&& e@ == "Principal '"@ + updated_principal.host@ + "' not found"@
                },
            },
    {
        match self.find_principal(&updated_principal.host) {
            Some(i) => {
                proof { lemma_map_of_index(self.principal_entries(), i as int); }
                self.add_principal(updated_principal);
                Ok(())
            },
            None => {
                proof { lemma_map_of_absent(self.principal_entries(), updated_principal@.key()); }
                let mut e: String = "Principal '".to_owned();
                e.append(updated_principal.host.as_str());
                e.append("' not found");
                Err(e)
            },
        }
    }

    pub fn remove_note(&mut self, symphony: &str, name: &str)
        requires
            old(self).wf(),
        ensures
            final(self).wf(),
            final(self).notes_map() == old(self).notes_map().remove((symphony@, name@)),
            final(self).symphonies_map() == old(self).symphonies_map(),
            final(self).principals_map() == old(self).principals_map(),
    {
        let symphony: String = symphony.to_owned();
        let name: String = name.to_owned();
        let ghost s = self.note_entries();
        match self.find_note(&symphony, &name) {
            Some(i) => {
                self.notes.remove(i);
                proof {
                    assert(self.note_entries() =~= s.remove(i as int));
                    lemma_map_of_remove(s, i as int);
                }
            },
            None => {
                proof {
                    lemma_map_of_absent(s, (symphony@, name@));
                    assert(map_of(s).remove((symphony@, name@)) =~= map_of(s));
                }
            },
        }
    }

    pub fn remove_symphony(&mut self, name: &str)
        requires
            old(self).wf(),
        ensures
            final(self).wf(),
            final(self).symphonies_map() == old(self).symphonies_map().remove(name@),
            final(self).notes_map() == old(self).notes_map(),
            final(self).principals_map() == old(self).principals_map(),
    {
        let name: String = name.to_owned();
        let ghost s = self.symphony_entries();
        match self.find_symphony(&name) {
            Some(i) => {
                self.symphonies.remove(i);
                proof {
                    assert(self.symphony_entries() =~= s.remove(i as int));
                    lemma_map_of_remove(s, i as int);
                }
            },
            None => {
                proof {
                    lemma_map_of_absent(s, name@);
                    assert(map_of(s).remove(name@) =~= map_of(s));
                }
            },
        }
    }

    pub fn _remove_principal(&mut self, host: &str)
        requires
            old(self).wf(),
        ensures
            final(self).wf(),
            final(self).principals_map() == old(self).principals_map().remove(host@),
            final(self).notes_map() == old(self).notes_map(),
            final(self).symphonies_map() == old(self).symphonies_map(),
    {
        let host: String = host.to_owned();
        let ghost s = self.principal_entries();
        match self.find_principal(&host) {
            Some(i) => {
                self.principals.remove(i);
                proof {
                    assert(self.principal_entries() =~= s.remove(i as int));
                    lemma_map_of_remove(s, i as int);
                }
            },
            None => {
                proof {
                    lemma_map_of_absent(s, host@);
                    assert(map_of(s).remove(host@) =~= map_of(s));
                }
            },
        }
    }

    /// The whole store as three maps.
    pub open spec fn model(&self) -> MaestroModel {
        MaestroModel { notes: self.notes_map(), symphonies: self.symphonies_map(), principals: self.principals_map() }
    }

    /// Whether notes and symphonies agree (`links_consistent`): the store's
    /// symphony listing and heartbeats can always be served when they do.
    pub fn links_agree(&self) -> (r: bool)
        requires
            self.wf(),
        ensures
            r == links_consistent(self.model()),
    {
        let ghost notes = self.notes_map();
        let ghost syms = self.symphonies_map();
        let ghost ne = self.note_entries();
        let ghost se = self.symphony_entries();
        proof {
            lemma_map_of_keys(ne);
            lemma_map_of_keys(se);
            lemma_map_of_dom(ne);
            lemma_map_of_dom(se);
        }
        let mut i: usize = 0;
        while i < self.notes.len()
            invariant
                self.wf(),
                i <= self.notes@.len(),
                ne == self.note_entries(),
                se == self.symphony_entries(),
                notes == map_of(ne),
                syms == map_of(se),
                forall|a: int| 0 <= a < i ==> syms.contains_key((#[trigger] ne[a]).symphony)
                    && syms[ne[a].symphony].notes.contains(ne[a].name),
            decreases self.notes@.len() - i,
        {
            let ghost v = ne[i as int];
            proof {
                lemma_map_of_index(ne, i as int);
                assert(notes.contains_key(v.key()));
            }
            match self.find_symphony(&self.notes[i].symphony) {
                Some(j) => {
                    proof {
                        lemma_map_of_index(se, j as int);
                    }
                    if !names_contain(&self.symphonies[j].notes, &self.notes[i].name) {
                        proof {
                            assert(v == self.notes@[i as int]@);
                            assert(self.model().notes.contains_key(v.key()));
                            assert(!links_consistent(self.model()));
                        }
                        return false;
                    }
                },
                None => {
                    proof {
                        assert(v == self.notes@[i as int]@);
                        assert forall|a: int| 0 <= a < se.len() implies (#[trigger] se[a]).key() != v.symphony by {}
                        lemma_map_of_absent(se, v.symphony);
                        assert(!syms.contains_key(v.key().0));
                        assert(self.model().notes.contains_key(v.key()));
                        assert(!links_consistent(self.model()));
                    }
                    return false;
                },
            }
            i = i + 1;
        }
        let mut j: usize = 0;
        while j < self.symphonies.len()
            invariant
                self.wf(),
                j <= self.symphonies@.len(),
                ne == self.note_entries(),
                se == self.symphony_entries(),
                notes == map_of(ne),
                syms == map_of(se),
                forall|a: int| 0 <= a < ne.len() ==> syms.contains_key((#[trigger] ne[a]).symphony)
                    && syms[ne[a].symphony].notes.contains(ne[a].name),
                forall|a: int| 0 <= a < j ==> notes_present(notes, #[trigger] se[a]),
            decreases self.symphonies@.len() - j,
        {
            let ghost sv = se[j as int];
            proof {
                lemma_map_of_index(se, j as int);
            }
            let mut b: usize = 0;
            while b < self.symphonies[j].notes.len()
                invariant
                    self.wf(),
                    j < self.symphonies@.len(),
                    b <= self.symphonies@[j as int].notes@.len(),
                    ne == self.note_entries(),
                    se == self.symphony_entries(),
                    notes == map_of(ne),
                    syms == map_of(se),
                    sv == se[j as int],
                    syms.contains_key(sv.name),
                    syms[sv.name] == sv,
                    forall|c: int| 0 <= c < b ==> notes.contains_key((sv.name, #[trigger] sv.notes[c])),
                decreases self.symphonies@[j as int].notes@.len() - b,
            {
                match self.find_note(&self.symphonies[j].name, &self.symphonies[j].notes[b]) {
                    Some(x) => {
                        proof {
                            lemma_map_of_index(ne, x as int);
                        }
                    },
                    None => {
                        proof {
                            lemma_map_of_absent(ne, (sv.name, sv.notes[b as int]));
                            assert(!notes_present(notes, syms[sv.name]));
                            assert(self.model().symphonies.contains_key(sv.name));
                            assert(!links_consistent(self.model()));
                        }
                        return false;
                    },
                }
                b = b + 1;
            }
            j = j + 1;
        }
        proof {
            assert forall|k: (Seq<char>, Seq<char>)| #[trigger] notes.contains_key(k) implies syms.contains_key(k.0)
                && syms[k.0].notes.contains(k.1) by {
                let a = choose|a: int| 0 <= a < ne.len() && (#[trigger] ne[a]).key() == k;
                lemma_map_of_index(ne, a);
            }
            assert forall|t: Seq<char>| #[trigger] syms.contains_key(t) implies notes_present(notes, syms[t]) by {
                let a = choose|a: int| 0 <= a < se.len() && (#[trigger] se[a]).key() == t;
                lemma_map_of_index(se, a);
            }
        }
        true
    }

    /// A store keeps each record at its own key.
    pub proof fn lemma_records_keyed(&self)
        ensures
            records_keyed(self.model()),
    {
        lemma_map_of_keys(self.note_entries());
        lemma_map_of_keys(self.symphony_entries());
    }

    /// Stores a principal under its host: replaces the one there, or adds it.
    pub fn upsert_principal(&mut self, principal: Principal)
        requires
            old(self).wf(),
        ensures
            final(self).wf(),
            final(self).principals_map() == old(self).principals_map().insert(principal@.key(), principal@),
            final(self).notes_map() == old(self).notes_map(),
            final(self).symphonies_map() == old(self).symphonies_map(),
    {
        if self.get_principal(principal.host.as_str()).is_some() {
            let _ = self.update_principal(principal);
        } else {
            self.add_principal(principal);
        }
    }

    /// Sets the state of a stored symphony, and tells whether there was one.
    pub fn set_symphony_state(&mut self, name: &str, state: SymphonyState) -> (r: bool)
        requires
            old(self).wf(),
        ensures
            final(self).wf(),
            r == old(self).symphonies_map().contains_key(name@),
            final(self).symphonies_map() == (if r {
                old(self).symphonies_map().insert(name@, SymphonyView { state, ..old(self).symphonies_map()[name@] })
            } else {
                old(self).symphonies_map()
            }),
            final(self).notes_map() == old(self).notes_map(),
            final(self).principals_map() == old(self).principals_map(),
    {
        match self.get_symphony(name) {
            Some(symphony) => {
                proof { lemma_map_of_keys(self.symphony_entries()); }
                let updated = Symphony { name: symphony.name, notes: symphony.notes, state };
                let _ = self.update_symphony(updated);
                true
            },
            None => false,
        }
    }

    /// Marks a stored note as terminating, and tells whether there was one;
    /// this is how a request to stop the note is recorded.
    pub fn stop_note(&mut self, symphony: &str, name: &str) -> (r: bool)
        requires
            old(self).wf(),
        ensures
            final(self).wf(),
            r == old(self).notes_map().contains_key((symphony@, name@)),
            final(self).notes_map() == (if r {
                old(self).notes_map().insert(
                    (symphony@, name@),
                    NoteView { state: NoteState::Terminating, ..old(self).notes_map()[(symphony@, name@)] },
                )
            } else {
                old(self).notes_map()
            }),
            final(self).symphonies_map() == old(self).symphonies_map(),
            final(self).principals_map() == old(self).principals_map(),
    {
        match self.get_note(symphony, name) {
            Some(mut note) => {
                proof { lemma_map_of_keys(self.note_entries()); }
                note.state = NoteState::Terminating;
                self.add_note(note);
                true
            },
            None => false,
        }
    }
}

/// The maestro's records: notes by (symphony, name), symphonies by name,
/// principals by host.
pub struct MaestroModel {
    pub notes: Map<(Seq<char>, Seq<char>), NoteView>,
    pub symphonies: Map<Seq<char>, SymphonyView>,
    pub principals: Map<Seq<char>, PrincipalView>,
}

/// Each note and each symphony is stored at its own key; every store's
/// records are (`InMemoryStore::lemma_records_keyed`).
pub open spec fn records_keyed(m: MaestroModel) -> bool {
    &&& forall|k: (Seq<char>, Seq<char>)| #[trigger] m.notes.contains_key(k) ==> m.notes[k].key() == k
    &&& forall|s: Seq<char>| #[trigger] m.symphonies.contains_key(s) ==> m.symphonies[s].name == s
}

/// Notes and symphonies agree: a note is stored exactly when its symphony
/// is stored and names it (and each record sits at its own key).
pub open spec fn links_consistent(m: MaestroModel) -> bool {
    &&& forall|k: (Seq<char>, Seq<char>)| #[trigger] m.notes.contains_key(k) ==> m.notes[k].key() == k
    &&& forall|s: Seq<char>| #[trigger] m.symphonies.contains_key(s) ==> m.symphonies[s].name == s
    &&& forall|k: (Seq<char>, Seq<char>)| #[trigger] m.notes.contains_key(k) ==> m.symphonies.contains_key(k.0)
        && m.symphonies[k.0].notes.contains(k.1)
    &&& forall|s: Seq<char>| #[trigger] m.symphonies.contains_key(s) ==> notes_present(m.notes, m.symphonies[s])
}

/// The names of `s` other than `x`, in order.
pub open spec fn without(s: Seq<Seq<char>>, x: Seq<char>) -> Seq<Seq<char>>
    decreases s.len(),
{
    if s.len() == 0 {
        s
    } else {
        let rest = without(s.drop_last(), x);
        if s.last() == x {
            rest
        } else {
            rest.push(s.last())
        }
    }
}

pub proof fn lemma_without_contains(s: Seq<Seq<char>>, x: Seq<char>)
    ensures
        forall|y: Seq<char>| #[trigger] without(s, x).contains(y) <==> (s.contains(y) && y != x),
    decreases s.len(),
{
    if s.len() > 0 {
        let p = s.drop_last();
        lemma_without_contains(p, x);
        let r = without(p, x);
        let l = s.last();
        assert forall|y: Seq<char>| #[trigger] without(s, x).contains(y) <==> (s.contains(y) && y != x) by {
            if without(s, x).contains(y) {
                if l == x {
                    assert(r.contains(y));
                } else if y == l {
                    assert(s[s.len() - 1] == y);
                } else {
                    let i = choose|i: int| 0 <= i < r.push(l).len() && r.push(l)[i] == y;
                    assert(i < r.len());
                    assert(r[i] == y);
                    assert(r.contains(y));
                }
                if r.contains(y) {
                    assert(p.contains(y));
                    let j = choose|j: int| 0 <= j < p.len() && p[j] == y;
                    assert(s[j] == y);
                }
            }
            if s.contains(y) && y != x {
                let i = choose|i: int| 0 <= i < s.len() && s[i] == y;
                if i < s.len() - 1 {
                    assert(p[i] == y);
                    assert(p.contains(y));
                    assert(r.contains(y));
                    let j = choose|j: int| 0 <= j < r.len() && r[j] == y;
                    if l != x {
                        assert(r.push(l)[j] == y);
                    }
                } else {
                    assert(y == l);
                    assert(r.push(l)[r.len() as int] == y);
                }
            }
        }
    }
}

/// The names of a list other than `name`, in order.
pub fn without_name(names: &Vec<String>, name: &String) -> (r: Vec<String>)
    ensures
        strings_view(r@) == without(strings_view(names@), name@),
{
    let ghost all = strings_view(names@);
    let mut r: Vec<String> = Vec::new();
    let mut i: usize = 0;
    while i < names.len()
        invariant
            i <= names@.len(),
            all == strings_view(names@),
            strings_view(r@) == without(all.take(i as int), name@),
        decreases names@.len() - i,
    {
        let ghost before = r@;
        assert(all.take(i + 1).drop_last() =~= all.take(i as int));
        if names[i] != *name {
            r.push(names[i].clone());
            assert(strings_view(r@) =~= strings_view(before).push(all[i as int]));
        }
        i = i + 1;
    }
    assert(all.take(names@.len() as int) =~= all);
    r
}

/// Law: a note read back after it was stored is the note stored, and
/// storing it touches no other note.
pub proof fn law_note_read_after_write(
    notes: Map<(Seq<char>, Seq<char>), NoteView>,
    note: NoteView,
    other: (Seq<char>, Seq<char>),
)
    ensures
        notes.insert(note.key(), note).contains_key(note.key()),
        notes.insert(note.key(), note)[note.key()] == note,
        other != note.key() ==> (notes.insert(note.key(), note).contains_key(other) == notes.contains_key(other)
            && notes.insert(note.key(), note)[other] == notes[other]),
{
}

/// Law: a note that was removed is not found any more; the others stay.
pub proof fn law_note_removed(notes: Map<(Seq<char>, Seq<char>), NoteView>, key: (Seq<char>, Seq<char>), other: (Seq<char>, Seq<char>))
    ensures
        !notes.remove(key).contains_key(key),
        other != key ==> (notes.remove(key).contains_key(other) == notes.contains_key(other) && notes.remove(key)[other]
            == notes[other]),
{
}

} // verus!
