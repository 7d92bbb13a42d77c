//! The keyed collection of `Note`s: identifier allocation, CRUD, and the
//! filtered views by chat, by lifecycle state and by due-date window.

use vstd::prelude::*;

use crate::codec::{doc_json, parse_doc_at, records_json};
use crate::date::{day_index, parse_date, valid_date, Date};
use crate::errors::RepoError;
use crate::note::{Note, NoteView, State};

verus! {

/// The views of a sequence of notes.
pub open spec fn views_of(s: Seq<Note>) -> Seq<NoteView> {
    s.map_values(|n: Note| n@)
}

pub broadcast proof fn lemma_views_of_push(s: Seq<Note>, x: Note)
    ensures
        #[trigger] views_of(s.push(x)) == views_of(s).push(x@),
{
    assert(views_of(s.push(x)) =~= views_of(s).push(x@));
}

pub broadcast proof fn lemma_views_of_update(s: Seq<Note>, i: int, x: Note)
    requires
        0 <= i < s.len(),
    ensures
        #[trigger] views_of(s.update(i, x)) == views_of(s).update(i, x@),
{
    assert(views_of(s.update(i, x)) =~= views_of(s).update(i, x@));
}

pub broadcast proof fn lemma_views_of_remove(s: Seq<Note>, i: int)
    requires
        0 <= i < s.len(),
    ensures
        #[trigger] views_of(s.remove(i)) == views_of(s).remove(i),
{
    assert(views_of(s.remove(i)) =~= views_of(s).remove(i));
}

/// The views of a run of reply strings.
pub open spec fn strings_of(s: Seq<String>) -> Seq<Seq<char>> {
    s.map_values(|x: String| x@)
}

/// A freshly created note: blank but for its identifier, its chat and
/// its header.
pub open spec fn blank_with(id: u64, chat_id: u64, header: Seq<char>) -> NoteView {
    NoteView { id: id, chat_id: chat_id, header: header, ..crate::note::blank_note(id) }
}

/// Some note in `s` carries identifier `id`.
pub open spec fn contains_id(s: Seq<NoteView>, id: u64) -> bool {
    exists|i: int| 0 <= i < s.len() && s[i].id == id
}

/// The first note in `s` with identifier `id`.
pub open spec fn find_id(s: Seq<NoteView>, id: u64) -> Option<NoteView>
    decreases s.len(),
{
    if s.len() == 0 {
        None
    } else if s[0].id == id {
        Some(s[0])
    } else {
        find_id(s.drop_first(), id)
    }
}

/// `s` without any note of identifier `id`.
pub open spec fn drop_id(s: Seq<NoteView>, id: u64) -> Seq<NoteView>
    decreases s.len(),
{
    if s.len() == 0 {
        s
    } else {
        let rest = drop_id(s.drop_last(), id);
        if s.last().id == id {
            rest
        } else {
            rest.push(s.last())
        }
    }
}

/// The notes of one chat, in storage order.
pub open spec fn by_chat(s: Seq<NoteView>, chat: u64) -> Seq<NoteView>
    decreases s.len(),
{
    if s.len() == 0 {
        s
    } else {
        let rest = by_chat(s.drop_last(), chat);
        if s.last().chat_id == chat {
            rest.push(s.last())
        } else {
            rest
        }
    }
}

/// Whether a note belongs to a chat's active listing: not `Done`.
pub open spec fn is_active_of(n: NoteView, chat: u64) -> bool {
    n.chat_id == chat && !(n.state is Done)
}

/// The active (non-`Done`) notes of one chat, in storage order.
pub open spec fn by_chat_active(s: Seq<NoteView>, chat: u64) -> Seq<NoteView>
    decreases s.len(),
{
    if s.len() == 0 {
        s
    } else {
        let rest = by_chat_active(s.drop_last(), chat);
        if is_active_of(s.last(), chat) {
            rest.push(s.last())
        } else {
            rest
        }
    }
}

/// Whether a note belongs to a chat's agenda on a given day: active, with
/// a due date that parses and lies no more than seven days before
/// `today`; any future date passes.
pub open spec fn in_agenda(n: NoteView, chat: u64, today: Date) -> bool {
    &&& is_active_of(n, chat)
    &&& match n.deadline {
        None => false,
        Some(ds) => match parse_date(ds) {
            None => false,
            Some(d) => day_index(d) + 7 >= day_index(today),
        },
    }
}

/// The agenda notes of one chat on a given day, in storage order.
pub open spec fn agenda_of(s: Seq<NoteView>, chat: u64, today: Date) -> Seq<NoteView>
    decreases s.len(),
{
    if s.len() == 0 {
        s
    } else {
        let rest = agenda_of(s.drop_last(), chat, today);
        if in_agenda(s.last(), chat, today) {
            rest.push(s.last())
        } else {
            rest
        }
    }
}

/// All identifiers are distinct.
pub open spec fn distinct_ids(s: Seq<NoteView>) -> bool {
    forall|i: int, j: int| 0 <= i < j < s.len() ==> s[i].id != s[j].id
}

/// All identifiers lie below the allocator mark.
pub open spec fn ids_below(s: Seq<NoteView>, bound: u128) -> bool {
    forall|i: int| 0 <= i < s.len() ==> (s[i].id as u128) < bound
}

/// The mathematical content of a `Notes` collection.
pub ghost struct NotesView {
    pub tasks: Seq<NoteView>,
    pub size: nat,
    pub next_id: u128,
}

/// Well-formedness: the size counter counts the notes, identifiers are
/// unique, and the allocator mark exceeds every identifier in store.
pub open spec fn wf(v: NotesView) -> bool {
    &&& v.size == v.tasks.len()
    &&& distinct_ids(v.tasks)
    &&& ids_below(v.tasks, v.next_id)
    &&& v.next_id <= u64::MAX as u128 + 1
}

/// The collection of notes, keyed by identifier, owning the identifier
/// allocator.
pub struct Notes {
    notes: Vec<Note>,
    size: u64,
    next_id: u128,
}

impl View for Notes {
    type V = NotesView;

    closed spec fn view(&self) -> NotesView {
        NotesView {
            tasks: views_of(self.notes@),
            size: self.size as nat,
            next_id: self.next_id,
        }
    }
}

impl Notes {
    /// An empty collection; allocation starts at identifier 0.
    pub fn new() -> (r: Notes)
        ensures
            wf(r@),
            r@.tasks == Seq::<NoteView>::empty(),
            r@.size == 0,
            r@.next_id == 0,
    {
        let r = Notes { notes: Vec::new(), size: 0, next_id: 0 };
        proof {
            assert(views_of(r.notes@) =~= Seq::<NoteView>::empty());
        }
        r
    }

    /// Allocates a fresh identifier and stores a blank note for `chat_id`
    /// under it. The new identifier exceeds every identifier ever stored.
    pub fn create(&mut self, chat_id: u64) -> (id: u64)
        requires
            wf(old(self)@),
            old(self)@.next_id <= u64::MAX as u128,
        ensures
            wf(final(self)@),
            id as u128 == old(self)@.next_id,
            !contains_id(old(self)@.tasks, id),
            final(self)@.tasks == old(self)@.tasks.push(
                NoteView { id: id, chat_id: chat_id, ..crate::note::blank_note(id) },
            ),
            final(self)@.size == old(self)@.size + 1,
            final(self)@.next_id == old(self)@.next_id + 1,
    {
        broadcast use lemma_views_of_push;

        let id: u64 = self.next_id as u64;
        let note = Note::dry_new().with_id(id).with_chat(chat_id);
        self.notes.push(note);
        let l: usize = self.notes.len();
        proof {
            assert(self.size + 1 == l);
        }
        self.size = self.size + 1;
        self.next_id = self.next_id + 1;
        id
    }

    /// Whether a fresh identifier can still be allocated.
    pub fn can_allocate(&self) -> (r: bool)
        ensures
            r == (self@.next_id <= u64::MAX as u128),
    {
        self.next_id <= u64::MAX as u128
    }

    /// The storage position of the note with identifier `id`, if any.
    fn index_of_id(&self, id: u64) -> (r: Option<usize>)
        ensures
            match r {
                Some(i) => i < self@.tasks.len() && self@.tasks[i as int].id == id && forall|
                    j: int,
                |
                    0 <= j < i ==> self@.tasks[j].id != id,
                None => !contains_id(self@.tasks, id),
            },
    {
        let n = self.notes.len();
        let mut i: usize = 0;
        while i < n
            invariant
                n == self.notes@.len(),
                0 <= i <= n,
                forall|j: int| 0 <= j < i ==> views_of(self.notes@)[j].id != id,
            decreases n - i,
        {
            if self.notes[i].id() == id {
                return Some(i);
            }
            i = i + 1;
        }
        None
    }

    /// Inserts or overwrites by the note's identifier; the size counter
    /// grows only when the identifier was absent. The allocator mark is
    /// raised past the inserted identifier, so it is never reallocated.
    pub fn add(&mut self, note: Note)
        requires
            wf(old(self)@),
        ensures
            wf(final(self)@),
            contains_id(old(self)@.tasks, note@.id) ==> {
                &&& final(self)@.size == old(self)@.size
                &&& exists|i: int|
                    0 <= i < old(self)@.tasks.len() && old(self)@.tasks[i].id == note@.id
                        && final(self)@.tasks == old(self)@.tasks.update(i, note@)
            },
            !contains_id(old(self)@.tasks, note@.id) ==> {
                &&& final(self)@.size == old(self)@.size + 1
                &&& final(self)@.tasks == old(self)@.tasks.push(note@)
            },
            final(self)@.next_id == if (note@.id as u128) + 1 > old(self)@.next_id {
                (note@.id as u128) + 1
            } else {
                old(self)@.next_id as int
            },
    {
        broadcast use lemma_views_of_push, lemma_views_of_update;

        let id = note.id();
        match self.index_of_id(id) {
            Some(i) => {
                self.notes[i] = note;
            },
            None => {
                self.notes.push(note);
                let l: usize = self.notes.len();
                proof {
                    assert(self.size + 1 == l);
                }
                self.size = self.size + 1;
            },
        }
        if (id as u128) + 1 > self.next_id {
            self.next_id = (id as u128) + 1;
        }
    }

    /// Removes the note with identifier `id`; absence is a no-op, not an
    /// error. The allocator mark is unchanged: identifiers are never
    /// reused.
    pub fn delete(&mut self, id: u64)
        requires
            wf(old(self)@),
        ensures
            wf(final(self)@),
            final(self)@.tasks == drop_id(old(self)@.tasks, id),
            final(self)@.size == old(self)@.size - (if contains_id(old(self)@.tasks, id) {
                1int
            } else {
                0int
            }),
            final(self)@.next_id == old(self)@.next_id,
            !contains_id(old(self)@.tasks, id) ==> *final(self) == *old(self),
    {
        broadcast use lemma_views_of_remove;

        match self.index_of_id(id) {
            Some(i) => {
                proof {
                    let s = views_of(self.notes@);
                    assert(forall|j: int| 0 <= j < s.len() && j != i ==> s[j].id != id) by {
                        assert(forall|j: int|
                            i < j < s.len() ==> s[i as int].id != s[j].id);
                    }
                    lemma_drop_id_unique(s, id, i as int);
                    assert(self.size >= 1);
                }
                self.notes.remove(i);
                self.size = self.size - 1;
            },
            None => {
                proof {
                    lemma_drop_id_all_kept(views_of(self.notes@), id);
                }
            },
        }
    }

    /// Read-only lookup by identifier.
    pub fn note_by_id(&self, id: u64) -> (r: Option<&Note>)
        ensures
            match r {
                Some(n) => find_id(self@.tasks, id) == Some(n@) && contains_id(self@.tasks, id),
                None => !contains_id(self@.tasks, id),
            },
    {
        match self.index_of_id(id) {
            Some(i) => {
                proof {
                    lemma_find_id_at(views_of(self.notes@), id, i as int);
                }
                Some(&self.notes[i])
            },
            None => None,
        }
    }

    /// Lookup by identifier with mutability: the sole sanctioned path for
    /// editing a stored note's fields. As long as the caller leaves the
    /// note's identifier alone, the collection stays well-formed.
    pub fn note_as_mut(&mut self, id: u64) -> (r: Option<&mut Note>)
        requires
            wf(old(self)@),
        ensures
            match r {
                None => *final(self) == *old(self) && !contains_id(old(self)@.tasks, id),
                Some(m) => {
                    &&& contains_id(old(self)@.tasks, id)
                    &&& find_id(old(self)@.tasks, id) == Some((*m)@)
                    &&& (*m)@.id == id
                    &&& exists|i: int|
                        0 <= i < old(self)@.tasks.len() && old(self)@.tasks[i].id == id
                            && old(self)@.tasks[i] == (*m)@ && final(self)@.tasks == old(
                            self,
                        )@.tasks.update(i, final(m)@)
                    &&& final(self)@.size == old(self)@.size
                    &&& final(self)@.next_id == old(self)@.next_id
                    &&& (final(m)@.id == id ==> wf(final(self)@))
                },
            },
    {
        broadcast use lemma_views_of_update;

        match self.index_of_id(id) {
            Some(i) => {
                proof {
                    let s = views_of(self.notes@);
                    lemma_find_id_at(s, id, i as int);
                    assert(forall|j: int| 0 <= j < s.len() && j != i ==> s[j].id != id) by {
                        assert(forall|j: int|
                            i < j < s.len() ==> s[i as int].id != s[j].id);
                    }
                }
                Some(&mut self.notes[i])
            },
            None => None,
        }
    }

    /// Every note of the chat, whatever its state.
    pub fn notes_by_chat_all(&self, chat_id: u64) -> (r: Vec<Note>)
        ensures
            views_of(r@) == by_chat(self@.tasks, chat_id),
    {
        broadcast use lemma_views_of_push;

        let n = self.notes.len();
        let mut out: Vec<Note> = Vec::new();
        let mut i: usize = 0;
        proof {
            assert(views_of(out@) =~= by_chat(views_of(self.notes@).subrange(0, 0), chat_id));
        }
        while i < n
            invariant
                n == self.notes@.len(),
                0 <= i <= n,
                views_of(out@) == by_chat(views_of(self.notes@).subrange(0, i as int), chat_id),
            decreases n - i,
        {
            let note = &self.notes[i];
            proof {
                let s = views_of(self.notes@);
                assert(s.subrange(0, i + 1).drop_last() =~= s.subrange(0, i as int));
                assert(s.subrange(0, i + 1).last() == s[i as int]);
            }
            if note.chat_id() == chat_id {
                out.push(note.clone());
            }
            i = i + 1;
        }
        proof {
            assert(views_of(self.notes@).subrange(0, n as int) =~= views_of(self.notes@));
        }
        out
    }

    /// The chat's notes that are not `Done`.
    pub fn notes_by_chat(&self, chat_id: u64) -> (r: Vec<Note>)
        ensures
            views_of(r@) == by_chat_active(self@.tasks, chat_id),
    {
        broadcast use lemma_views_of_push;

        let n = self.notes.len();
        let mut out: Vec<Note> = Vec::new();
        let mut i: usize = 0;
        proof {
            assert(views_of(out@) =~= by_chat_active(
                views_of(self.notes@).subrange(0, 0),
                chat_id,
            ));
        }
        while i < n
            invariant
                n == self.notes@.len(),
                0 <= i <= n,
                views_of(out@) == by_chat_active(
                    views_of(self.notes@).subrange(0, i as int),
                    chat_id,
                ),
            decreases n - i,
        {
            let note = &self.notes[i];
            proof {
                let s = views_of(self.notes@);
                assert(s.subrange(0, i + 1).drop_last() =~= s.subrange(0, i as int));
                assert(s.subrange(0, i + 1).last() == s[i as int]);
            }
            if note.chat_id() == chat_id && !note.done() {
                out.push(note.clone());
            }
            i = i + 1;
        }
        proof {
            assert(views_of(self.notes@).subrange(0, n as int) =~= views_of(self.notes@));
        }
        out
    }

    /// The chat's agenda as of `today`: active notes whose due date
    /// parses and is not more than seven days past. A note without a due
    /// date, or whose due date does not parse, is excluded.
    pub fn notes_agenda_on(&self, chat_id: u64, today: Date) -> (r: Vec<Note>)
        requires
            valid_date(today),
        ensures
            views_of(r@) == agenda_of(self@.tasks, chat_id, today),
    {
        broadcast use lemma_views_of_push;

        let today_days: u64 = today.day_number();
        let n = self.notes.len();
        let mut out: Vec<Note> = Vec::new();
        let mut i: usize = 0;
        proof {
            assert(views_of(out@) =~= agenda_of(
                views_of(self.notes@).subrange(0, 0),
                chat_id,
                today,
            ));
        }
        while i < n
            invariant
                n == self.notes@.len(),
                0 <= i <= n,
                valid_date(today),
                today_days == day_index(today),
                views_of(out@) == agenda_of(
                    views_of(self.notes@).subrange(0, i as int),
                    chat_id,
                    today,
                ),
            decreases n - i,
        {
            let note = &self.notes[i];
            proof {
                let s = views_of(self.notes@);
                assert(s.subrange(0, i + 1).drop_last() =~= s.subrange(0, i as int));
                assert(s.subrange(0, i + 1).last() == s[i as int]);
            }
            if note.chat_id() == chat_id && !note.done() {
                match note.deadline() {
                    Some(ds) => {
                        match crate::date::parse_date_str(ds.as_str()) {
                            Some(d) => {
                                if d.day_number() + 7 >= today_days {
                                    out.push(note.clone());
                                }
                            },
                            None => {},
                        }
                    },
                    None => {},
                }
            }
            i = i + 1;
        }
        proof {
            assert(views_of(self.notes@).subrange(0, n as int) =~= views_of(self.notes@));
        }
        out
    }

    /// Serializes the collection into one JSON document: the records
    /// keyed by their identifiers, and the size counter.
    pub fn to_json(&self) -> (r: String)
        ensures
            r@ == doc_json(self@.tasks, self@.size),
    {
        let mut out = String::from_str("{\"notes\":{");
        let n = self.notes.len();
        let mut i: usize = 0;
        proof {
            assert(records_json(views_of(self.notes@).subrange(0, 0)) =~= Seq::<char>::empty());
            assert(out@ =~= out@ + records_json(views_of(self.notes@).subrange(0, 0)));
        }
        while i < n
            invariant
                n == self.notes@.len(),
                0 <= i <= n,
                out@ == "{\"notes\":{"@ + records_json(views_of(self.notes@).subrange(0, i as int)),
            decreases n - i,
        {
            if i > 0 {
                out.append(",");
            }
            crate::codec::emit_record(&mut out, &self.notes[i]);
            proof {
                let s = views_of(self.notes@);
                assert(s.subrange(0, i + 1).drop_last() =~= s.subrange(0, i as int));
                assert(s.subrange(0, i + 1).last() == s[i as int]);
                assert(out@ =~= "{\"notes\":{"@ + records_json(s.subrange(0, i + 1)));
            }
            i = i + 1;
        }
        out.append("},\"size\":");
        crate::strs::emit_u64(&mut out, self.size);
        out.append("}");
        proof {
            assert(views_of(self.notes@).subrange(0, n as int) =~= views_of(self.notes@));
            assert(out@ =~= doc_json(self@.tasks, self@.size));
        }
        out
    }

    /// Restores a collection from one JSON document. A text that does not
    /// parse into the expected shape, repeats an identifier, or carries a
    /// size that does not count its records, is rejected as corrupt. On
    /// success the identifier allocator resumes above every restored
    /// identifier.
    pub fn from_json(text: String) -> (r: Result<Notes, RepoError>)
        ensures
            match r {
                Ok(repo) => {
                    &&& wf(repo@)
                    &&& match parse_doc_at(text@) {
                        Some(p) => repo@.tasks == p.0 && repo@.size == p.1 && p.1 == p.0.len()
                            && distinct_ids(p.0),
                        None => false,
                    }
                },
                Err(e) => {
                    &&& e is CorruptState
                    &&& match parse_doc_at(text@) {
                        Some(p) => !distinct_ids(p.0) || p.1 != p.0.len(),
                        None => true,
                    }
                },
            },
    {
        let (vec, size) = match crate::codec::parse_doc(text.as_str()) {
            Some(p) => p,
            None => {
                return Err(RepoError::CorruptState);
            },
        };
        let n = vec.len();
        if size != n as u64 {
            return Err(RepoError::CorruptState);
        }
        let mut i: usize = 0;
        while i < n
            invariant
                n == vec@.len(),
                n as u64 == size,
                0 <= i <= n,
                parse_doc_at(text@) == Some((views_of(vec@), size)),
                forall|a: int, b: int|
                    0 <= a < b < n && a < i ==> views_of(vec@)[a].id != views_of(vec@)[b].id,
            decreases n - i,
        {
            let mut j: usize = i + 1;
            while j < n
                invariant
                    n == vec@.len(),
                    n as u64 == size,
                    0 <= i < j <= n,
                    parse_doc_at(text@) == Some((views_of(vec@), size)),
                    forall|a: int, b: int|
                        0 <= a < b < n && a < i ==> views_of(vec@)[a].id != views_of(vec@)[b].id,
                    forall|b: int| i < b < j ==> views_of(vec@)[i as int].id != views_of(vec@)[b].id,
                decreases n - j,
            {
                if vec[i].id() == vec[j].id() {
                    proof {
                        assert(views_of(vec@)[i as int].id == views_of(vec@)[j as int].id);
                        assert(!distinct_ids(views_of(vec@)));
                    }
                    return Err(RepoError::CorruptState);
                }
                j = j + 1;
            }
            i = i + 1;
        }
        let mut m: u128 = 0;
        let mut k: usize = 0;
        while k < n
            invariant
                n == vec@.len(),
                0 <= k <= n,
                m <= u64::MAX as u128 + 1,
                forall|a: int| 0 <= a < k ==> (views_of(vec@)[a].id as u128) < m,
            decreases n - k,
        {
            let id = vec[k].id();
            if (id as u128) >= m {
                m = (id as u128) + 1;
            }
            k = k + 1;
        }
        Ok(Notes { notes: vec, size, next_id: m })
    }

    /// The chat's agenda as of the current date. If the current date
    /// cannot be represented, the agenda is empty.
    pub fn notes_agenda(&self, chat_id: u64) -> (r: Vec<Note>)
        ensures
            r@.len() == 0 || exists|today: Date|
                valid_date(today) && views_of(r@) == agenda_of(self@.tasks, chat_id, today),
    {
        match crate::date::today() {
            Some(today) => {
                let v = self.notes_agenda_on(chat_id, today);
                proof {
                    assert(valid_date(today) && views_of(v@) == agenda_of(
                        self@.tasks,
                        chat_id,
                        today,
                    ));
                }
                v
            },
            None => Vec::new(),
        }
    }
}

/// Serialization is lossless: parsing the snapshot written for any
/// well-formed collection yields exactly its task contents and its size
/// counter. Since a well-formed collection has distinct identifiers and a
/// size that counts its records, `from_json`'s contract then guarantees
/// that restoring the document `to_json` wrote rebuilds the same tasks
/// and size.
pub proof fn lemma_json_round_trip(v: NotesView)
    requires
        wf(v),
        v.size <= u64::MAX,
    ensures
        parse_doc_at(doc_json(v.tasks, v.size)) == Some((v.tasks, v.size as u64)),
{
    crate::codec::lemma_parse_doc_complete(v.tasks, v.size);
}

/// The set of identifiers a note sequence holds.
pub open spec fn id_set(s: Seq<NoteView>) -> Set<u64>
    decreases s.len(),
{
    if s.len() == 0 {
        Set::<u64>::empty()
    } else {
        id_set(s.drop_last()).insert(s.last().id)
    }
}

proof fn lemma_id_set_contains(s: Seq<NoteView>, id: u64)
    ensures
        id_set(s).contains(id) <==> contains_id(s, id),
        id_set(s).finite(),
    decreases s.len(),
{
    if s.len() > 0 {
        lemma_id_set_contains(s.drop_last(), id);
        if contains_id(s, id) {
            let i = choose|i: int| 0 <= i < s.len() && s[i].id == id;
            if i < s.len() - 1 {
                assert(s.drop_last()[i].id == id);
            }
        }
        if contains_id(s.drop_last(), id) {
            let i = choose|i: int| 0 <= i < s.drop_last().len() && s.drop_last()[i].id == id;
            assert(s[i].id == id);
        }
    }
}

/// However a well-formed collection was built — by any sequence of `add`
/// and `delete` calls — its size counter equals the number of distinct
/// identifiers it holds: re-adding an existing identifier never grows it.
pub proof fn lemma_size_counts_distinct_ids(v: NotesView)
    requires
        wf(v),
    ensures
        v.size == id_set(v.tasks).len(),
{
    lemma_distinct_id_set_len(v.tasks);
}

proof fn lemma_distinct_id_set_len(s: Seq<NoteView>)
    requires
        distinct_ids(s),
    ensures
        id_set(s).finite(),
        id_set(s).len() == s.len(),
    decreases s.len(),
{
    if s.len() > 0 {
        assert(forall|i: int, j: int|
            0 <= i < j < s.drop_last().len() ==> s.drop_last()[i].id != s.drop_last()[j].id);
        lemma_distinct_id_set_len(s.drop_last());
        lemma_id_set_contains(s.drop_last(), s.last().id);
        assert(!contains_id(s.drop_last(), s.last().id)) by {
            assert(forall|i: int|
                0 <= i < s.len() - 1 ==> (#[trigger] s[i]).id != s[s.len() - 1].id);
            assert(forall|i: int|
                0 <= i < s.drop_last().len() ==> #[trigger] s.drop_last()[i] == s[i]);
        }
    }
}

/// Deleting an absent identifier leaves the stored sequence untouched;
/// together with `delete`'s contract, the collection is unchanged and no
/// error is raised.
pub proof fn lemma_delete_absent_is_noop(s: Seq<NoteView>, id: u64)
    requires
        !contains_id(s, id),
    ensures
        drop_id(s, id) == s,
{
    lemma_drop_id_all_kept(s, id);
}

/// The active listing never includes a `Done` note, and includes every
/// other note of the chat.
pub proof fn lemma_active_excludes_done(s: Seq<NoteView>, chat: u64)
    ensures
        forall|i: int|
            0 <= i < by_chat_active(s, chat).len() ==> !(#[trigger] by_chat_active(s, chat)[i].state
                is Done),
        forall|i: int|
            0 <= i < s.len() && is_active_of(#[trigger] s[i], chat) ==> by_chat_active(
                s,
                chat,
            ).contains(s[i]),
    decreases s.len(),
{
    if s.len() > 0 {
        lemma_active_excludes_done(s.drop_last(), chat);
        let rest = by_chat_active(s.drop_last(), chat);
        assert(forall|i: int|
            0 <= i < s.len() - 1 ==> s.drop_last()[i] == s[i]);
        if is_active_of(s.last(), chat) {
            assert(by_chat_active(s, chat) == rest.push(s.last()));
            assert(forall|i: int|
                0 <= i < rest.len() ==> rest.push(s.last())[i] == rest[i]);
            assert(forall|x: NoteView| rest.contains(x) ==> rest.push(s.last()).contains(x)) by {
                assert(forall|i: int|
                    0 <= i < rest.len() ==> rest.push(s.last())[i] == rest[i]);
            }
            assert(rest.push(s.last())[rest.len() as int] == s.last());
        }
    }
}

/// The full listing of a chat includes every one of its notes, whatever
/// the state — in particular the `Done` ones that the active listing
/// drops.
pub proof fn lemma_all_includes_every_state(s: Seq<NoteView>, chat: u64)
    ensures
        forall|i: int|
            0 <= i < s.len() && (#[trigger] s[i]).chat_id == chat ==> by_chat(s, chat).contains(
                s[i],
            ),
        forall|i: int|
            0 <= i < by_chat(s, chat).len() ==> (#[trigger] by_chat(s, chat)[i]).chat_id == chat,
    decreases s.len(),
{
    if s.len() > 0 {
        lemma_all_includes_every_state(s.drop_last(), chat);
        let rest = by_chat(s.drop_last(), chat);
        assert(forall|i: int|
            0 <= i < s.len() - 1 ==> s.drop_last()[i] == s[i]);
        if s.last().chat_id == chat {
            assert(by_chat(s, chat) == rest.push(s.last()));
            assert(forall|x: NoteView| rest.contains(x) ==> rest.push(s.last()).contains(x)) by {
                assert(forall|i: int|
                    0 <= i < rest.len() ==> rest.push(s.last())[i] == rest[i]);
            }
            assert(rest.push(s.last())[rest.len() as int] == s.last());
        }
    }
}

/// In a well-formed collection every stored identifier lies strictly
/// below the allocator mark; since `create` hands out exactly that mark,
/// a fresh identifier never collides with anything in store — in
/// particular not with identifiers restored from a snapshot.
pub proof fn lemma_fresh_id_exceeds_stored(v: NotesView, id: u64)
    requires
        wf(v),
        contains_id(v.tasks, id),
    ensures
        (id as u128) < v.next_id,
{
}

/// A found note is one of the stored notes.
pub proof fn lemma_find_id_is_element(s: Seq<NoteView>, id: u64)
    requires
        find_id(s, id) is Some,
    ensures
        exists|i: int|
            0 <= i < s.len() && (#[trigger] s[i]).id == id && find_id(s, id) == Some(s[i]),
    decreases s.len(),
{
    if s.len() > 0 {
        if s[0].id == id {
        } else {
            lemma_find_id_is_element(s.drop_first(), id);
            let i = choose|i: int|
                0 <= i < s.drop_first().len() && (#[trigger] s.drop_first()[i]).id == id
                    && find_id(s.drop_first(), id) == Some(s.drop_first()[i]);
            assert(s[i + 1] == s.drop_first()[i]);
        }
    }
}

pub(crate) proof fn lemma_find_id_at(s: Seq<NoteView>, id: u64, i: int)
    requires
        0 <= i < s.len(),
        s[i].id == id,
        forall|j: int| 0 <= j < i ==> s[j].id != id,
    ensures
        find_id(s, id) == Some(s[i]),
        contains_id(s, id),
    decreases i,
{
    if i == 0 {
    } else {
        lemma_find_id_at(s.drop_first(), id, i - 1);
    }
}

/// Removing an identifier that one position holds, all others being
/// different, removes exactly that position.
pub(crate) proof fn lemma_drop_id_unique(s: Seq<NoteView>, id: u64, i: int)
    requires
        0 <= i < s.len(),
        s[i].id == id,
        forall|j: int| 0 <= j < s.len() && j != i ==> s[j].id != id,
    ensures
        drop_id(s, id) == s.remove(i),
    decreases s.len(),
{
    if s.len() > 0 {
        if i == s.len() - 1 {
            lemma_drop_id_all_kept(s.drop_last(), id);
            assert(s.remove(i) =~= s.drop_last());
        } else {
            lemma_drop_id_unique(s.drop_last(), id, i);
            assert(s.drop_last().remove(i) =~= s.remove(i).drop_last());
            assert(s.remove(i).last() == s.last());
            assert(drop_id(s, id) == drop_id(s.drop_last(), id).push(s.last()));
            assert(s.remove(i) =~= s.remove(i).drop_last().push(s.remove(i).last()));
        }
    }
}

/// Removing an absent identifier changes nothing.
pub proof fn lemma_drop_id_all_kept(s: Seq<NoteView>, id: u64)
    requires
        !contains_id(s, id),
    ensures
        drop_id(s, id) == s,
    decreases s.len(),
{
    if s.len() > 0 {
        assert(!contains_id(s.drop_last(), id)) by {
            assert(forall|j: int|
                0 <= j < s.drop_last().len() ==> s.drop_last()[j] == s[j]);
        }
        lemma_drop_id_all_kept(s.drop_last(), id);
        assert(s.last().id != id);
        assert(drop_id(s, id) =~= s);
    }
}

} // verus!
