//! One tracked item: identity, owning chat, text fields, lifecycle state
//! and an optional due date.

use vstd::prelude::*;

use crate::strs::{
    dec_digits, emit_u64, lower_char, lowered, trimmed, trimmed_lower,
};

verus! {

/// Closed lifecycle tag of a task. `Unset` is the fallback for
/// unrecognized input text.
#[derive(Clone, Copy, PartialEq, Eq, Hash, Debug, Structural)]
pub enum State {
    ToDo,
    Doing,
    Done,
    Unset,
}

/// The label a state is displayed and stored as.
pub open spec fn state_text(s: State) -> Seq<char> {
    match s {
        State::ToDo => seq!['T', 'o', 'D', 'o'],
        State::Doing => seq!['D', 'o', 'i', 'n', 'g'],
        State::Done => seq!['D', 'o', 'n', 'e'],
        State::Unset => Seq::<char>::empty(),
    }
}

/// The state an input text denotes: matching is case-insensitive on the
/// whitespace-trimmed text, and anything unrecognized maps to `Unset`.
pub open spec fn state_of_text(s: Seq<char>) -> State {
    let t = lowered(trimmed(s));
    if t == seq!['t', 'o', 'd', 'o'] {
        State::ToDo
    } else if t == seq!['d', 'o', 'i', 'n', 'g'] {
        State::Doing
    } else if t == seq!['d', 'o', 'n', 'e'] {
        State::Done
    } else {
        State::Unset
    }
}

impl State {
    /// The display label: the variant's name, or the empty string for
    /// `Unset`.
    pub fn to_message(&self) -> (r: String)
        ensures
            r@ == state_text(*self),
    {
        proof {
            reveal_strlit("ToDo");
            reveal_strlit("Doing");
            reveal_strlit("Done");
        }
        match self {
            State::ToDo => String::from_str("ToDo"),
            State::Doing => String::from_str("Doing"),
            State::Done => String::from_str("Done"),
            State::Unset => String::new(),
        }
    }

    /// Parses a state from free text, trimming whitespace and ignoring
    /// case; unrecognized text yields `Unset`.
    pub fn from_message(state: String) -> (r: State)
        ensures
            r == state_of_text(state@),
    {
        let t = trimmed_lower(state.as_str());
        proof {
            reveal_strlit("todo");
            reveal_strlit("doing");
            reveal_strlit("done");
            assert("todo"@ =~= seq!['t', 'o', 'd', 'o']);
            assert("doing"@ =~= seq!['d', 'o', 'i', 'n', 'g']);
            assert("done"@ =~= seq!['d', 'o', 'n', 'e']);
        }
        if t == String::from_str("todo") {
            State::ToDo
        } else if t == String::from_str("doing") {
            State::Doing
        } else if t == String::from_str("done") {
            State::Done
        } else {
            State::Unset
        }
    }
}

/// The mathematical content of a `Note`.
pub ghost struct NoteView {
    pub id: u64,
    pub header: Seq<char>,
    pub chat_id: u64,
    pub text: Seq<char>,
    pub state: State,
    pub deadline: Option<Seq<char>>,
}

/// One note or task.
#[derive(Hash)]
pub struct Note {
    id: u64,
    header: String,
    chat_id: u64,
    text: String,
    state: State,
    deadline: Option<String>,
}

impl View for Note {
    type V = NoteView;

    closed spec fn view(&self) -> NoteView {
        NoteView {
            id: self.id,
            header: self.header@,
            chat_id: self.chat_id,
            text: self.text@,
            state: self.state,
            deadline: match self.deadline {
                Some(d) => Some(d@),
                None => None,
            },
        }
    }
}

/// Notes compare equal when their identifiers do.
impl PartialEq for Note {
    fn eq(&self, other: &Self) -> (r: bool) {
        self.id == other.id
    }
}

impl vstd::std_specs::cmp::PartialEqSpecImpl for Note {
    open spec fn obeys_eq_spec() -> bool {
        true
    }

    open spec fn eq_spec(&self, other: &Note) -> bool {
        self@.id == other@.id
    }
}

impl Clone for Note {
    fn clone(&self) -> (res: Self)
        ensures
            res == *self,
    {
        Note {
            id: self.id,
            header: self.header.clone(),
            chat_id: self.chat_id,
            text: self.text.clone(),
            state: self.state,
            deadline: match &self.deadline {
                Some(d) => Some(d.clone()),
                None => None,
            },
        }
    }
}

/// The view of a freshly initialized note.
pub open spec fn blank_note(id: u64) -> NoteView {
    NoteView {
        id: id,
        header: Seq::<char>::empty(),
        chat_id: 0,
        text: Seq::<char>::empty(),
        state: State::Unset,
        deadline: None,
    }
}

impl Note {
    /// A note with identifier 0 and all fields at their defaults; it does
    /// not touch any identifier allocator.
    pub fn dry_new() -> (r: Note)
        ensures
            r@ == blank_note(0),
    {
        Note {
            id: 0,
            header: String::new(),
            chat_id: 0,
            text: String::new(),
            state: State::Unset,
            deadline: None,
        }
    }

    pub fn with_id(self, new_id: u64) -> (r: Note)
        ensures
            r@ == (NoteView { id: new_id, ..self@ }),
    {
        Note { id: new_id, ..self }
    }

    pub fn with_header(self, head: String) -> (r: Note)
        ensures
            r@ == (NoteView { header: head@, ..self@ }),
    {
        Note { header: head, ..self }
    }

    pub fn with_chat(self, chat: u64) -> (r: Note)
        ensures
            r@ == (NoteView { chat_id: chat, ..self@ }),
    {
        Note { chat_id: chat, ..self }
    }

    pub fn with_text(self, note: String) -> (r: Note)
        ensures
            r@ == (NoteView { text: note@, ..self@ }),
    {
        Note { text: note, ..self }
    }

    pub fn with_state_todo(self) -> (r: Note)
        ensures
            r@ == (NoteView { state: State::ToDo, ..self@ }),
    {
        Note { state: State::ToDo, ..self }
    }

    pub fn with_state_doing(self) -> (r: Note)
        ensures
            r@ == (NoteView { state: State::Doing, ..self@ }),
    {
        Note { state: State::Doing, ..self }
    }

    pub fn with_state_done(self) -> (r: Note)
        ensures
            r@ == (NoteView { state: State::Done, ..self@ }),
    {
        Note { state: State::Done, ..self }
    }

    pub fn with_deadline(self, date: String) -> (r: Note)
        ensures
            r@ == (NoteView { deadline: Some(date@), ..self@ }),
    {
        Note { deadline: Some(date), ..self }
    }

    pub fn set_id(&mut self, id: u64)
        ensures
            final(self)@ == (NoteView { id: id, ..old(self)@ }),
    {
        self.id = id;
    }

    pub fn set_header(&mut self, header: String)
        ensures
            final(self)@ == (NoteView { header: header@, ..old(self)@ }),
    {
        self.header = header;
    }

    pub fn set_chat_id(&mut self, chat_id: u64)
        ensures
            final(self)@ == (NoteView { chat_id: chat_id, ..old(self)@ }),
    {
        self.chat_id = chat_id;
    }

    pub fn set_text(&mut self, text: String)
        ensures
            final(self)@ == (NoteView { text: text@, ..old(self)@ }),
    {
        self.text = text;
    }

    pub fn set_state(&mut self, state: State)
        ensures
            final(self)@ == (NoteView { state: state, ..old(self)@ }),
    {
        self.state = state;
    }

    /// Sets the state from free text; unrecognized text sets `Unset`.
    pub fn set_state_from_string(&mut self, state: String)
        ensures
            final(self)@ == (NoteView { state: state_of_text(state@), ..old(self)@ }),
    {
        let s = State::from_message(state);
        self.state = s;
    }

    pub fn set_deadline(&mut self, deadline: Option<String>)
        ensures
            final(self)@ == (NoteView {
                deadline: match deadline {
                    Some(d) => Some(d@),
                    None => None,
                },
                ..old(self)@
            }),
    {
        self.deadline = deadline;
    }

    pub fn id(&self) -> (r: u64)
        ensures
            r == self@.id,
    {
        self.id
    }

    pub fn header(&self) -> (r: &str)
        ensures
            r@ == self@.header,
    {
        self.header.as_str()
    }

    pub fn chat_id(&self) -> (r: u64)
        ensures
            r == self@.chat_id,
    {
        self.chat_id
    }

    pub fn text(&self) -> (r: &str)
        ensures
            r@ == self@.text,
    {
        self.text.as_str()
    }

    pub fn state(&self) -> (r: &State)
        ensures
            *r == self@.state,
    {
        &self.state
    }

    pub fn deadline(&self) -> (r: Option<&String>)
        ensures
            match r {
                Some(d) => self@.deadline == Some(d@),
                None => self@.deadline is None,
            },
    {
        match &self.deadline {
            Some(d) => Some(d),
            None => None,
        }
    }

    pub fn todo(&self) -> (r: bool)
        ensures
            r == (self@.state is ToDo),
    {
        self.state == State::ToDo
    }

    pub fn doing(&self) -> (r: bool)
        ensures
            r == (self@.state is Doing),
    {
        self.state == State::Doing
    }

    pub fn done(&self) -> (r: bool)
        ensures
            r == (self@.state is Done),
    {
        self.state == State::Done
    }
}

/// The human-readable block a note is displayed as.
pub open spec fn note_message(n: NoteView) -> Seq<char> {
    n.header + "\nState : "@ + state_text(n.state) + "\nDeadline : "@ + (match n.deadline {
        Some(d) => d,
        None => "None"@,
    }) + "\n"@ + n.text + "\n\n\nid : "@ + dec_digits(n.id as nat)
}

impl Note {
    /// Formats the note for display: header, state label, due date or an
    /// explicit "None" marker, body text, and identifier.
    pub fn to_message(&self) -> (r: String)
        ensures
            r@ == note_message(self@),
    {
        let mut out = String::new();
        out.append(self.header.as_str());
        out.append("\nState : ");
        let st = self.state.to_message();
        out.append(st.as_str());
        out.append("\nDeadline : ");
        match &self.deadline {
            Some(d) => out.append(d.as_str()),
            None => out.append("None"),
        }
        out.append("\n");
        out.append(self.text.as_str());
        out.append("\n\n\nid : ");
        emit_u64(&mut out, self.id);
        proof {
            assert(out@ =~= note_message(self@));
        }
        out
    }
}

impl Note {
    /// Serializes this one note as a JSON object, the same shape its
    /// records take inside a snapshot.
    pub fn to_json(&self) -> (r: String)
        ensures
            r@ == crate::codec::note_json(self@),
    {
        let mut out = String::new();
        crate::codec::emit_note(&mut out, self);
        proof {
            assert(out@ =~= crate::codec::note_json(self@));
        }
        out
    }

    /// Restores one note from a JSON object; a text that does not parse
    /// into that exact shape, or carries trailing content, is rejected as
    /// corrupt.
    pub fn from_json(json: String) -> (r: Result<Note, crate::errors::RepoError>)
        ensures
            match r {
                Ok(n) => match crate::codec::parse_note_at(json@, 0) {
                    Some(p) => p.1 == n@ && p.0 == json@.len(),
                    None => false,
                },
                Err(e) => {
                    &&& e is CorruptState
                    &&& match crate::codec::parse_note_at(json@, 0) {
                        Some(p) => p.0 != json@.len(),
                        None => true,
                    }
                },
            },
    {
        let s = json.as_str();
        let n: usize = s.unicode_len();
        match crate::codec::parse_note(s, n, 0) {
            Some((j, note)) => {
                if j == n {
                    Ok(note)
                } else {
                    Err(crate::errors::RepoError::CorruptState)
                }
            },
            None => Err(crate::errors::RepoError::CorruptState),
        }
    }
}

impl Default for Note {
    /// The same blank note as `dry_new`.
    fn default() -> (r: Self)
        ensures
            r@ == blank_note(0),
    {
        Note::dry_new()
    }
}

} // verus!
