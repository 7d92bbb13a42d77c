//! The task-flavoured face of the note entity. The project grew two names
//! for the same record — `Note` and `Task` — and keeps both; a `Task`
//! carries a `Note` and has the same mathematical content.

use vstd::prelude::*;

use crate::note::{blank_note, note_message, state_of_text, Note, NoteView};

pub use crate::note::State;

verus! {

/// One task: the same record as a `Note`, under the other name.
#[derive(Hash)]
pub struct Task {
    inner: Note,
}

impl View for Task {
    type V = NoteView;

    closed spec fn view(&self) -> NoteView {
        self.inner@
    }
}

/// Tasks compare equal when their identifiers do.
impl PartialEq for Task {
    fn eq(&self, other: &Self) -> (r: bool) {
        self.inner.id() == other.inner.id()
    }
}

impl vstd::std_specs::cmp::PartialEqSpecImpl for Task {
    open spec fn obeys_eq_spec() -> bool {
        true
    }

    open spec fn eq_spec(&self, other: &Task) -> bool {
        self@.id == other@.id
    }
}

impl Clone for Task {
    fn clone(&self) -> (res: Self)
        ensures
            res == *self,
    {
        Task { inner: self.inner.clone() }
    }
}

impl Task {
    /// Wraps a note as a task; the content is unchanged.
    pub fn of_note(n: Note) -> (r: Task)
        ensures
            r@ == n@,
    {
        Task { inner: n }
    }

    /// Unwraps the inner note.
    pub fn into_note(self) -> (r: Note)
        ensures
            r@ == self@,
    {
        self.inner
    }

    /// Borrows the inner note.
    pub fn as_note(&self) -> (r: &Note)
        ensures
            r@ == self@,
    {
        &self.inner
    }

    /// A task with identifier 0 and all fields at their defaults.
    pub fn dry_new() -> (r: Task)
        ensures
            r@ == blank_note(0),
    {
        Task { inner: Note::dry_new() }
    }

    pub fn with_id(self, new_id: u64) -> (r: Task)
        ensures
            r@ == (NoteView { id: new_id, ..self@ }),
    {
        Task { inner: self.inner.with_id(new_id) }
    }

    pub fn with_header(self, head: String) -> (r: Task)
        ensures
            r@ == (NoteView { header: head@, ..self@ }),
    {
        Task { inner: self.inner.with_header(head) }
    }

    pub fn with_chat(self, chat: u64) -> (r: Task)
        ensures
            r@ == (NoteView { chat_id: chat, ..self@ }),
    {
        Task { inner: self.inner.with_chat(chat) }
    }

    pub fn with_text(self, note: String) -> (r: Task)
        ensures
            r@ == (NoteView { text: note@, ..self@ }),
    {
        Task { inner: self.inner.with_text(note) }
    }

    pub fn with_state_todo(self) -> (r: Task)
        ensures
            r@ == (NoteView { state: State::ToDo, ..self@ }),
    {
        Task { inner: self.inner.with_state_todo() }
    }

    pub fn with_state_doing(self) -> (r: Task)
        ensures
            r@ == (NoteView { state: State::Doing, ..self@ }),
    {
        Task { inner: self.inner.with_state_doing() }
    }

    pub fn with_state_done(self) -> (r: Task)
        ensures
            r@ == (NoteView { state: State::Done, ..self@ }),
    {
        Task { inner: self.inner.with_state_done() }
    }

    pub fn with_deadline(self, date: String) -> (r: Task)
        ensures
            r@ == (NoteView { deadline: Some(date@), ..self@ }),
    {
        Task { inner: self.inner.with_deadline(date) }
    }

    pub fn set_id(&mut self, id: u64)
        ensures
            final(self)@ == (NoteView { id: id, ..old(self)@ }),
    {
        self.inner.set_id(id);
    }

    pub fn set_header(&mut self, header: String)
        ensures
            final(self)@ == (NoteView { header: header@, ..old(self)@ }),
    {
        self.inner.set_header(header);
    }

    pub fn set_chat_id(&mut self, chat_id: u64)
        ensures
            final(self)@ == (NoteView { chat_id: chat_id, ..old(self)@ }),
    {
        self.inner.set_chat_id(chat_id);
    }

    pub fn set_text(&mut self, text: String)
        ensures
            final(self)@ == (NoteView { text: text@, ..old(self)@ }),
    {
        self.inner.set_text(text);
    }

    pub fn set_state(&mut self, state: State)
        ensures
            final(self)@ == (NoteView { state: state, ..old(self)@ }),
    {
        self.inner.set_state(state);
    }

    /// Sets the state from free text; unrecognized text sets `Unset`.
    pub fn set_state_from_string(&mut self, state: String)
        ensures
            final(self)@ == (NoteView { state: state_of_text(state@), ..old(self)@ }),
    {
        self.inner.set_state_from_string(state);
    }

    pub fn set_deadline(&mut self, deadline: Option<String>)
        ensures
            final(self)@ == (NoteView {
                deadline: match deadline {
                    Some(d) => Some(d@),
                    None => None,
                },
                ..old(self)@
            }),
    {
        self.inner.set_deadline(deadline);
    }

    pub fn id(&self) -> (r: u64)
        ensures
            r == self@.id,
    {
        self.inner.id()
    }

    pub fn header(&self) -> (r: &str)
        ensures
            r@ == self@.header,
    {
        self.inner.header()
    }

    pub fn chat_id(&self) -> (r: u64)
        ensures
            r == self@.chat_id,
    {
        self.inner.chat_id()
    }

    pub fn text(&self) -> (r: &str)
        ensures
            r@ == self@.text,
    {
        self.inner.text()
    }

    pub fn state(&self) -> (r: &State)
        ensures
            *r == self@.state,
    {
        self.inner.state()
    }

    pub fn deadline(&self) -> (r: Option<&String>)
        ensures
            match r {
                Some(d) => self@.deadline == Some(d@),
                None => self@.deadline is None,
            },
    {
        self.inner.deadline()
    }

    pub fn todo(&self) -> (r: bool)
        ensures
            r == (self@.state is ToDo),
    {
        self.inner.todo()
    }

    pub fn doing(&self) -> (r: bool)
        ensures
            r == (self@.state is Doing),
    {
        self.inner.doing()
    }

    pub fn done(&self) -> (r: bool)
        ensures
            r == (self@.state is Done),
    {
        self.inner.done()
    }

    /// Formats the task for display, exactly as the note is.
    pub fn to_message(&self) -> (r: String)
        ensures
            r@ == note_message(self@),
    {
        self.inner.to_message()
    }
}

impl Task {
    /// Serializes this one task as a JSON object, exactly as the note is.
    pub fn to_json(&self) -> (r: String)
        ensures
            r@ == crate::codec::note_json(self@),
    {
        self.inner.to_json()
    }

    /// Restores one task from a JSON object; a text that does not parse
    /// into that exact shape, or carries trailing content, is rejected as
    /// corrupt.
    pub fn from_json(json: String) -> (r: Result<Task, crate::errors::RepoError>)
        ensures
            match r {
                Ok(t) => match crate::codec::parse_note_at(json@, 0) {
                    Some(p) => p.1 == t@ && p.0 == json@.len(),
                    None => false,
                },
                Err(e) => {
                    &&& e is CorruptState
                    &&& match crate::codec::parse_note_at(json@, 0) {
                        Some(p) => p.0 != json@.len(),
                        None => true,
                    }
                },
            },
    {
        match Note::from_json(json) {
            Ok(n) => Ok(Task { inner: n }),
            Err(e) => Err(e),
        }
    }
}

impl Default for Task {
    /// The same blank task as `dry_new`.
    fn default() -> (r: Self)
        ensures
            r@ == blank_note(0),
    {
        Task::dry_new()
    }
}

} // verus!
