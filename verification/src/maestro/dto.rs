//! The shapes in which the maestro sends and receives its records.
use vstd::prelude::*;
use crate::keyed::Keyed;
use crate::maestro::models::{
    env_names_unique, named_field_value, notes_view, Note, NoteState, NoteView, RestartPolicy, Symphony, SymphonyState, SymphonyView,
};
use crate::text::{clone_pairs, clone_strings, pairs_view, str_eq, strings_view};
use crate::watcher::Watchable;

verus! {

/// A symphony with its notes themselves rather than their names.
pub struct SymphonyWithNotes {
    pub name: String,
    pub notes: Vec<Note>,
    pub state: SymphonyState,
}

pub struct SymphonyWithNotesView {
    pub name: Seq<char>,
    pub notes: Seq<NoteView>,
    pub state: SymphonyState,
}

impl View for SymphonyWithNotes {
    type V = SymphonyWithNotesView;

    open spec fn view(&self) -> SymphonyWithNotesView {
        SymphonyWithNotesView { name: self.name@, notes: notes_view(self.notes@), state: self.state }
    }
}

impl Keyed for SymphonyWithNotesView {
    type Key = Seq<char>;

    open spec fn key(&self) -> Seq<char> {
        self.name
    }
}

impl SymphonyWithNotes {
    pub fn name(&self) -> (r: String)
        ensures
            r@ == self.name@,
    {
        self.name.clone()
    }

    /// The names of the symphony's notes, in order.
    pub fn notes(&self) -> (r: Vec<String>)
        ensures
            strings_view(r@) == self@.notes.map_values(|n: NoteView| n.name),
    {
        let mut r: Vec<String> = Vec::new();
        let mut i: usize = 0;
        while i < self.notes.len()
            invariant
                i <= self.notes@.len(),
                strings_view(r@) =~= self@.notes.map_values(|n: NoteView| n.name).take(i as int),
            decreases self.notes@.len() - i,
        {
            let ghost before = r@;
            let name = self.notes[i].name.clone();
            r.push(name);
            assert(strings_view(r@) =~= strings_view(before).push(self@.notes[i as int].name));
            i = i + 1;
        }
        assert(self@.notes.map_values(|n: NoteView| n.name).take(i as int)
            =~= self@.notes.map_values(|n: NoteView| n.name));
        r
    }

    pub fn state(&self) -> (r: &SymphonyState)
        ensures
            *r == self.state,
    {
        &self.state
    }
}

impl Watchable for SymphonyWithNotes {
    open spec fn field_value(&self, field_name: Seq<char>) -> Option<Seq<char>> {
        named_field_value(self.name@, field_name)
    }

    fn get_field_value(&self, field_name: &str) -> (r: Option<String>) {
        if str_eq(field_name, "name") {
            Some(self.name.clone())
        } else {
            None
        }
    }
}

/// A note as a user asks for it when creating a symphony.
pub struct CreateNote {
    pub name: String,
    pub description: String,
    pub host: String,
    pub command: String,
    pub args: Vec<String>,
    /// Environment variables, as (name, value) pairs; a variable is named
    /// once (`env_names_unique`).
    pub env: Vec<(String, String)>,
    pub restart_policy: RestartPolicy,
}

/// A symphony as a user asks for it: a name and its notes.
pub struct CreateSymphony {
    pub name: String,
    pub notes: Vec<CreateNote>,
}

/// The note that a request describes: it belongs to `symphony` and is pending.
pub open spec fn requested_note(
    name: Seq<char>,
    description: Seq<char>,
    host: Seq<char>,
    command: Seq<char>,
    args: Seq<Seq<char>>,
    env: Seq<(Seq<char>, Seq<char>)>,
    restart_policy: RestartPolicy,
    symphony: Seq<char>,
) -> NoteView {
    NoteView { name, description, host, command, args, env, restart_policy, symphony, state: NoteState::Pending }
}

impl CreateNote {
    pub open spec fn note_spec(&self, symphony: Seq<char>) -> NoteView {
        requested_note(
            self.name@,
            self.description@,
            self.host@,
            self.command@,
            strings_view(self.args@),
            pairs_view(self.env@),
            self.restart_policy,
            symphony,
        )
    }

    pub fn to_data_obj(&self, symphony_name: &str) -> (r: Note)
        ensures
            r@ == self.note_spec(symphony_name@),
            env_names_unique(pairs_view(self.env@)) ==> env_names_unique(r@.env),
    {
        Note {
            name: self.name.clone(),
            description: self.description.clone(),
            host: self.host.clone(),
            command: self.command.clone(),
            args: clone_strings(&self.args),
            env: clone_pairs(&self.env),
            restart_policy: self.restart_policy,
            symphony: symphony_name.to_owned(),
            state: NoteState::Pending,
        }
    }
}

/// A note that carries every field of request `c` unchanged, belongs to
/// symphony `s` and is pending.
pub open spec fn carries_request(v: NoteView, c: CreateNote, s: Seq<char>) -> bool {
    &&& v.name == c.name@
    &&& v.description == c.description@
    &&& v.host == c.host@
    &&& v.command == c.command@
    &&& v.args.len() == c.args@.len()
    &&& forall|j: int| 0 <= j < c.args@.len() ==> v.args[j] == (#[trigger] c.args@[j])@
    &&& v.env.len() == c.env@.len()
    &&& forall|j: int| 0 <= j < c.env@.len() ==> v.env[j] == ((#[trigger] c.env@[j]).0@, c.env@[j].1@)
    &&& v.restart_policy == c.restart_policy
    &&& v.symphony == s
    &&& v.state == NoteState::Pending
}

/// Law: the note that a request describes carries every field of the
/// request unchanged, belongs to the given symphony and is pending.
pub proof fn law_requested_note_copies_request(c: CreateNote, symphony: Seq<char>)
    ensures
        c.note_spec(symphony).name == c.name@,
        c.note_spec(symphony).description == c.description@,
        c.note_spec(symphony).host == c.host@,
        c.note_spec(symphony).command == c.command@,
        c.note_spec(symphony).args.len() == c.args@.len(),
        forall|i: int| 0 <= i < c.args@.len() ==> c.note_spec(symphony).args[i] == (#[trigger] c.args@[i])@,
        c.note_spec(symphony).env.len() == c.env@.len(),
        forall|i: int| 0 <= i < c.env@.len() ==> c.note_spec(symphony).env[i] == ((#[trigger] c.env@[i]).0@, c.env@[i].1@),
        c.note_spec(symphony).restart_policy == c.restart_policy,
        c.note_spec(symphony).symphony == symphony,
        c.note_spec(symphony).state == NoteState::Pending,
{
}

pub open spec fn create_notes_names(notes: Seq<CreateNote>) -> Seq<Seq<char>> {
    notes.map_values(|n: CreateNote| n.name@)
}

/// A new symphony is running and names the requested notes, in order.
pub open spec fn requested_symphony(name: Seq<char>, notes: Seq<Seq<char>>) -> SymphonyView {
    SymphonyView { name, notes, state: SymphonyState::Running }
}

/// The names of the notes of a request, in order.
fn note_names(notes: &Vec<CreateNote>) -> (r: Vec<String>)
    ensures
        strings_view(r@) == create_notes_names(notes@),
{
    let mut r: Vec<String> = Vec::new();
    let mut i: usize = 0;
    while i < notes.len()
        invariant
            i <= notes@.len(),
            strings_view(r@) =~= create_notes_names(notes@).take(i as int),
        decreases notes@.len() - i,
    {
        let ghost before = r@;
        r.push(notes[i].name.clone());
        assert(strings_view(r@) =~= strings_view(before).push(notes@[i as int].name@));
        i = i + 1;
        assert(strings_view(r@) =~= create_notes_names(notes@).take(i as int));
    }
    assert(create_notes_names(notes@).take(notes@.len() as int) =~= create_notes_names(notes@));
    r
}

impl CreateSymphony {
    pub fn to_data_obj(&self) -> (r: Symphony)
        ensures
            r@ == requested_symphony(self.name@, create_notes_names(self.notes@)),
    {
        Symphony { name: self.name.clone(), notes: note_names(&self.notes), state: SymphonyState::Running }
    }
}

/// A note as the symphony route takes it.
pub struct NoteDto {
    pub name: String,
    pub description: String,
    pub host: String,
    pub command: String,
    pub args: Vec<String>,
    /// Environment variables, as (name, value) pairs; a variable is named
    /// once (`env_names_unique`).
    pub env: Vec<(String, String)>,
    pub restart_policy: RestartPolicy,
}

impl NoteDto {
    pub fn to_data_obj(&self, symphony_name: &str) -> (r: Note)
        ensures
            r@ == requested_note(
                self.name@,
                self.description@,
                self.host@,
                self.command@,
                strings_view(self.args@),
                pairs_view(self.env@),
                self.restart_policy,
                symphony_name@,
            ),
            env_names_unique(pairs_view(self.env@)) ==> env_names_unique(r@.env),
    {
        Note {
            name: self.name.clone(),
            description: self.description.clone(),
            host: self.host.clone(),
            env: clone_pairs(&self.env),
            command: self.command.clone(),
            args: clone_strings(&self.args),
            restart_policy: self.restart_policy,
            state: NoteState::Pending,
            symphony: symphony_name.to_owned(),
        }
    }
}

/// A symphony as the symphony route takes it.
pub struct SymphonyDto {
    pub name: String,
    pub notes: Vec<NoteDto>,
}

impl SymphonyDto {
    pub fn to_data_obj(&self) -> (r: Symphony)
        ensures
            r@ == requested_symphony(self.name@, self.notes@.map_values(|n: NoteDto| n.name@)),
    {
        let mut notes: Vec<String> = Vec::new();
        let mut i: usize = 0;
        while i < self.notes.len()
            invariant
                i <= self.notes@.len(),
                strings_view(notes@) =~= self.notes@.map_values(|n: NoteDto| n.name@).take(i as int),
            decreases self.notes@.len() - i,
        {
            let ghost before = notes@;
            notes.push(self.notes[i].name.clone());
            assert(strings_view(notes@) =~= strings_view(before).push(self.notes@[i as int].name@));
            i = i + 1;
            assert(strings_view(notes@) =~= self.notes@.map_values(|n: NoteDto| n.name@).take(i as int));
        }
        assert(self.notes@.map_values(|n: NoteDto| n.name@).take(self.notes@.len() as int)
            =~= self.notes@.map_values(|n: NoteDto| n.name@));
        Symphony { notes, name: self.name.clone(), state: SymphonyState::Running }
    }
}

/// What a principal reports of one of its notes.
pub struct HeartbeatNoteDto {
    pub symphony: String,
    pub name: String,
    pub state: NoteState,
}

pub struct HeartbeatNoteView {
    pub symphony: Seq<char>,
    pub name: Seq<char>,
    pub state: NoteState,
}

impl View for HeartbeatNoteDto {
    type V = HeartbeatNoteView;

    open spec fn view(&self) -> HeartbeatNoteView {
        HeartbeatNoteView { symphony: self.symphony@, name: self.name@, state: self.state }
    }
}

/// A principal's periodic report: its name and the states of its notes.
pub struct HeartbeatDto {
    pub name: String,
    pub notes: Vec<HeartbeatNoteDto>,
}

/// On a principal, reported notes are known by their name.
impl Keyed for HeartbeatNoteView {
    type Key = Seq<char>;

    open spec fn key(&self) -> Seq<char> {
        self.name
    }
}

pub open spec fn heartbeat_notes_view(v: Seq<HeartbeatNoteDto>) -> Seq<HeartbeatNoteView> {
    v.map_values(|n: HeartbeatNoteDto| n@)
}

} // verus!
