//! The keyed collection of `Task`s: the same repository as `Notes`, for
//! the task-flavoured face of the entity. It shares the collection model
//! — well-formedness, the filtered views and the snapshot format — with
//! the note collection.

use vstd::prelude::*;

use crate::codec::{doc_json, parse_doc_at, records_json};
use crate::date::{day_index, valid_date, Date};
use crate::errors::RepoError;
use crate::note::NoteView;
use crate::notes::{
    agenda_of, by_chat, by_chat_active, contains_id, distinct_ids, drop_id, find_id, ids_below,
    lemma_drop_id_all_kept, lemma_drop_id_unique, lemma_find_id_at, wf, NotesView,
};
use crate::task::Task;

verus! {

/// The views of a sequence of tasks.
pub open spec fn task_views(s: Seq<Task>) -> Seq<NoteView> {
    s.map_values(|t: Task| t@)
}

pub broadcast proof fn lemma_task_views_push(s: Seq<Task>, x: Task)
    ensures
        #[trigger] task_views(s.push(x)) == task_views(s).push(x@),
{
    assert(task_views(s.push(x)) =~= task_views(s).push(x@));
}

pub broadcast proof fn lemma_task_views_update(s: Seq<Task>, i: int, x: Task)
    requires
        0 <= i < s.len(),
    ensures
        #[trigger] task_views(s.update(i, x)) == task_views(s).update(i, x@),
{
    assert(task_views(s.update(i, x)) =~= task_views(s).update(i, x@));
}

pub broadcast proof fn lemma_task_views_remove(s: Seq<Task>, i: int)
    requires
        0 <= i < s.len(),
    ensures
        #[trigger] task_views(s.remove(i)) == task_views(s).remove(i),
{
    assert(task_views(s.remove(i)) =~= task_views(s).remove(i));
}

/// The collection of tasks, keyed by identifier, owning the identifier
/// allocator. It has the same mathematical content as a `Notes` value.
pub struct ToDoList {
    tasks: Vec<Task>,
    size: u64,
    next_id: u128,
}

impl View for ToDoList {
    type V = NotesView;

    closed spec fn view(&self) -> NotesView {
        NotesView {
            tasks: task_views(self.tasks@),
            size: self.size as nat,
            next_id: self.next_id,
        }
    }
}

impl ToDoList {
    /// An empty collection; allocation starts at identifier 0.
    pub fn new() -> (r: ToDoList)
        ensures
            wf(r@),
            r@.tasks == Seq::<NoteView>::empty(),
            r@.size == 0,
            r@.next_id == 0,
    {
        let r = ToDoList { tasks: Vec::new(), size: 0, next_id: 0 };
        proof {
            assert(task_views(r.tasks@) =~= Seq::<NoteView>::empty());
        }
        r
    }

    /// Allocates a fresh identifier and stores a blank note for `chat_id`
    /// under it. The new identifier exceeds every identifier ever stored.
    pub fn create(&mut self, chat_id: u64) -> (id: u64)
        requires
            wf(old(self)@),
            old(self)@.next_id <= u64::MAX as u128,
        ensures
            wf(final(self)@),
            id as u128 == old(self)@.next_id,
            !contains_id(old(self)@.tasks, id),
            final(self)@.tasks == old(self)@.tasks.push(
                NoteView { id: id, chat_id: chat_id, ..crate::note::blank_note(id) },
            ),
            final(self)@.size == old(self)@.size + 1,
            final(self)@.next_id == old(self)@.next_id + 1,
    {
        broadcast use lemma_task_views_push;

        let id: u64 = self.next_id as u64;
        let note = Task::dry_new().with_id(id).with_chat(chat_id);
        self.tasks.push(note);
        let l: usize = self.tasks.len();
        proof {
            assert(self.size + 1 == l);
        }
        self.size = self.size + 1;
        self.next_id = self.next_id + 1;
        id
    }

    /// Whether a fresh identifier can still be allocated.
    pub fn can_allocate(&self) -> (r: bool)
        ensures
            r == (self@.next_id <= u64::MAX as u128),
    {
        self.next_id <= u64::MAX as u128
    }

    /// The storage position of the note with identifier `id`, if any.
    fn index_of_id(&self, id: u64) -> (r: Option<usize>)
        ensures
            match r {
                Some(i) => i < self@.tasks.len() && self@.tasks[i as int].id == id && forall|
                    j: int,
                |
                    0 <= j < i ==> self@.tasks[j].id != id,
                None => !contains_id(self@.tasks, id),
            },
    {
        let n = self.tasks.len();
        let mut i: usize = 0;
        while i < n
            invariant
                n == self.tasks@.len(),
                0 <= i <= n,
                forall|j: int| 0 <= j < i ==> task_views(self.tasks@)[j].id != id,
            decreases n - i,
        {
            if self.tasks[i].id() == id {
                return Some(i);
            }
            i = i + 1;
        }
        None
    }

    /// Inserts or overwrites by the note's identifier; the size counter
    /// grows only when the identifier was absent. The allocator mark is
    /// raised past the inserted identifier, so it is never reallocated.
    pub fn add(&mut self, note: Task)
        requires
            wf(old(self)@),
        ensures
            wf(final(self)@),
            contains_id(old(self)@.tasks, note@.id) ==> {
                &&& final(self)@.size == old(self)@.size
                &&& exists|i: int|
                    0 <= i < old(self)@.tasks.len() && old(self)@.tasks[i].id == note@.id
                        && final(self)@.tasks == old(self)@.tasks.update(i, note@)
            },
            !contains_id(old(self)@.tasks, note@.id) ==> {
                &&& final(self)@.size == old(self)@.size + 1
                &&& final(self)@.tasks == old(self)@.tasks.push(note@)
            },
            final(self)@.next_id == if (note@.id as u128) + 1 > old(self)@.next_id {
                (note@.id as u128) + 1
            } else {
                old(self)@.next_id as int
            },
    {
        broadcast use lemma_task_views_push, lemma_task_views_update;

        let id = note.id();
        match self.index_of_id(id) {
            Some(i) => {
                self.tasks[i] = note;
            },
            None => {
                self.tasks.push(note);
                let l: usize = self.tasks.len();
                proof {
                    assert(self.size + 1 == l);
                }
                self.size = self.size + 1;
            },
        }
        if (id as u128) + 1 > self.next_id {
            self.next_id = (id as u128) + 1;
        }
    }

    /// Removes the note with identifier `id`; absence is a no-op, not an
    /// error. The allocator mark is unchanged: identifiers are never
    /// reused.
    pub fn delete(&mut self, id: u64)
        requires
            wf(old(self)@),
        ensures
            wf(final(self)@),
            final(self)@.tasks == drop_id(old(self)@.tasks, id),
            final(self)@.size == old(self)@.size - (if contains_id(old(self)@.tasks, id) {
                1int
            } else {
                0int
            }),
            final(self)@.next_id == old(self)@.next_id,
            !contains_id(old(self)@.tasks, id) ==> *final(self) == *old(self),
    {
        broadcast use lemma_task_views_remove;

        match self.index_of_id(id) {
            Some(i) => {
                proof {
                    let s = task_views(self.tasks@);
                    assert(forall|j: int| 0 <= j < s.len() && j != i ==> s[j].id != id) by {
                        assert(forall|j: int|
                            i < j < s.len() ==> s[i as int].id != s[j].id);
                    }
                    lemma_drop_id_unique(s, id, i as int);
                    assert(self.size >= 1);
                }
                self.tasks.remove(i);
                self.size = self.size - 1;
            },
            None => {
                proof {
                    lemma_drop_id_all_kept(task_views(self.tasks@), id);
                }
            },
        }
    }

    /// Read-only lookup by identifier.
    pub fn note_by_id(&self, id: u64) -> (r: Option<&Task>)
        ensures
            match r {
                Some(n) => find_id(self@.tasks, id) == Some(n@) && contains_id(self@.tasks, id),
                None => !contains_id(self@.tasks, id),
            },
    {
        match self.index_of_id(id) {
            Some(i) => {
                proof {
                    lemma_find_id_at(task_views(self.tasks@), id, i as int);
                }
                Some(&self.tasks[i])
            },
            None => None,
        }
    }

    /// Lookup by identifier with mutability: the sole sanctioned path for
    /// editing a stored note's fields. As long as the caller leaves the
    /// note's identifier alone, the collection stays well-formed.
    pub fn note_as_mut(&mut self, id: u64) -> (r: Option<&mut Task>)
        requires
            wf(old(self)@),
        ensures
            match r {
                None => *final(self) == *old(self) && !contains_id(old(self)@.tasks, id),
                Some(m) => {
                    &&& contains_id(old(self)@.tasks, id)
                    &&& find_id(old(self)@.tasks, id) == Some((*m)@)
                    &&& (*m)@.id == id
                    &&& exists|i: int|
                        0 <= i < old(self)@.tasks.len() && old(self)@.tasks[i].id == id
                            && old(self)@.tasks[i] == (*m)@ && final(self)@.tasks == old(
                            self,
                        )@.tasks.update(i, final(m)@)
                    &&& final(self)@.size == old(self)@.size
                    &&& final(self)@.next_id == old(self)@.next_id
                    &&& (final(m)@.id == id ==> wf(final(self)@))
                },
            },
    {
        broadcast use lemma_task_views_update;

        match self.index_of_id(id) {
            Some(i) => {
                proof {
                    let s = task_views(self.tasks@);
                    lemma_find_id_at(s, id, i as int);
                    assert(forall|j: int| 0 <= j < s.len() && j != i ==> s[j].id != id) by {
                        assert(forall|j: int|
                            i < j < s.len() ==> s[i as int].id != s[j].id);
                    }
                }
                Some(&mut self.tasks[i])
            },
            None => None,
        }
    }

    /// Every note of the chat, whatever its state.
    pub fn notes_by_chat_all(&self, chat_id: u64) -> (r: Vec<Task>)
        ensures
            task_views(r@) == by_chat(self@.tasks, chat_id),
    {
        broadcast use lemma_task_views_push;

        let n = self.tasks.len();
        let mut out: Vec<Task> = Vec::new();
        let mut i: usize = 0;
        proof {
            assert(task_views(out@) =~= by_chat(task_views(self.tasks@).subrange(0, 0), chat_id));
        }
        while i < n
            invariant
                n == self.tasks@.len(),
                0 <= i <= n,
                task_views(out@) == by_chat(task_views(self.tasks@).subrange(0, i as int), chat_id),
            decreases n - i,
        {
            let note = &self.tasks[i];
            proof {
                let s = task_views(self.tasks@);
                assert(s.subrange(0, i + 1).drop_last() =~= s.subrange(0, i as int));
                assert(s.subrange(0, i + 1).last() == s[i as int]);
            }
            if note.chat_id() == chat_id {
                out.push(note.clone());
            }
            i = i + 1;
        }
        proof {
            assert(task_views(self.tasks@).subrange(0, n as int) =~= task_views(self.tasks@));
        }
        out
    }

    /// The chat's notes that are not `Done`.
    pub fn notes_by_chat(&self, chat_id: u64) -> (r: Vec<Task>)
        ensures
            task_views(r@) == by_chat_active(self@.tasks, chat_id),
    {
        broadcast use lemma_task_views_push;

        let n = self.tasks.len();
        let mut out: Vec<Task> = Vec::new();
        let mut i: usize = 0;
        proof {
            assert(task_views(out@) =~= by_chat_active(
                task_views(self.tasks@).subrange(0, 0),
                chat_id,
            ));
        }
        while i < n
            invariant
                n == self.tasks@.len(),
                0 <= i <= n,
                task_views(out@) == by_chat_active(
                    task_views(self.tasks@).subrange(0, i as int),
                    chat_id,
                ),
            decreases n - i,
        {
            let note = &self.tasks[i];
            proof {
                let s = task_views(self.tasks@);
                assert(s.subrange(0, i + 1).drop_last() =~= s.subrange(0, i as int));
                assert(s.subrange(0, i + 1).last() == s[i as int]);
            }
            if note.chat_id() == chat_id && !note.done() {
                out.push(note.clone());
            }
            i = i + 1;
        }
        proof {
            assert(task_views(self.tasks@).subrange(0, n as int) =~= task_views(self.tasks@));
        }
        out
    }

    /// The chat's agenda as of `today`: active notes whose due date
    /// parses and is not more than seven days past. A note without a due
    /// date, or whose due date does not parse, is excluded.
    pub fn notes_agenda_on(&self, chat_id: u64, today: Date) -> (r: Vec<Task>)
        requires
            valid_date(today),
        ensures
            task_views(r@) == agenda_of(self@.tasks, chat_id, today),
    {
        broadcast use lemma_task_views_push;

        let today_days: u64 = today.day_number();
        let n = self.tasks.len();
        let mut out: Vec<Task> = Vec::new();
        let mut i: usize = 0;
        proof {
            assert(task_views(out@) =~= agenda_of(
                task_views(self.tasks@).subrange(0, 0),
                chat_id,
                today,
            ));
        }
        while i < n
            invariant
                n == self.tasks@.len(),
                0 <= i <= n,
                valid_date(today),
                today_days == day_index(today),
                task_views(out@) == agenda_of(
                    task_views(self.tasks@).subrange(0, i as int),
                    chat_id,
                    today,
                ),
            decreases n - i,
        {
            let note = &self.tasks[i];
            proof {
                let s = task_views(self.tasks@);
                assert(s.subrange(0, i + 1).drop_last() =~= s.subrange(0, i as int));
                assert(s.subrange(0, i + 1).last() == s[i as int]);
            }
            if note.chat_id() == chat_id && !note.done() {
                match note.deadline() {
                    Some(ds) => {
                        match crate::date::parse_date_str(ds.as_str()) {
                            Some(d) => {
                                if d.day_number() + 7 >= today_days {
                                    out.push(note.clone());
                                }
                            },
                            None => {},
                        }
                    },
                    None => {},
                }
            }
            i = i + 1;
        }
        proof {
            assert(task_views(self.tasks@).subrange(0, n as int) =~= task_views(self.tasks@));
        }
        out
    }

    /// Serializes the collection into one JSON document: the records
    /// keyed by their identifiers, and the size counter.
    pub fn to_json(&self) -> (r: String)
        ensures
            r@ == doc_json(self@.tasks, self@.size),
    {
        let mut out = String::from_str("{\"notes\":{");
        let n = self.tasks.len();
        let mut i: usize = 0;
        proof {
            assert(records_json(task_views(self.tasks@).subrange(0, 0)) =~= Seq::<char>::empty());
            assert(out@ =~= out@ + records_json(task_views(self.tasks@).subrange(0, 0)));
        }
        while i < n
            invariant
                n == self.tasks@.len(),
                0 <= i <= n,
                out@ == "{\"notes\":{"@ + records_json(task_views(self.tasks@).subrange(0, i as int)),
            decreases n - i,
        {
            if i > 0 {
                out.append(",");
            }
            crate::codec::emit_record(&mut out, self.tasks[i].as_note());
            proof {
                let s = task_views(self.tasks@);
                assert(s.subrange(0, i + 1).drop_last() =~= s.subrange(0, i as int));
                assert(s.subrange(0, i + 1).last() == s[i as int]);
                assert(out@ =~= "{\"notes\":{"@ + records_json(s.subrange(0, i + 1)));
            }
            i = i + 1;
        }
        out.append("},\"size\":");
        crate::strs::emit_u64(&mut out, self.size);
        out.append("}");
        proof {
            assert(task_views(self.tasks@).subrange(0, n as int) =~= task_views(self.tasks@));
            assert(out@ =~= doc_json(self@.tasks, self@.size));
        }
        out
    }

    /// Restores a collection from one JSON document. A text that does not
    /// parse into the expected shape, repeats an identifier, or carries a
    /// size that does not count its records, is rejected as corrupt. On
    /// success the identifier allocator resumes above every restored
    /// identifier.
    pub fn from_json(text: String) -> (r: Result<ToDoList, RepoError>)
        ensures
            match r {
                Ok(repo) => {
                    &&& wf(repo@)
                    &&& match parse_doc_at(text@) {
                        Some(p) => repo@.tasks == p.0 && repo@.size == p.1 && p.1 == p.0.len()
                            && distinct_ids(p.0),
                        None => false,
                    }
                },
                Err(e) => {
                    &&& e is CorruptState
                    &&& match parse_doc_at(text@) {
                        Some(p) => !distinct_ids(p.0) || p.1 != p.0.len(),
                        None => true,
                    }
                },
            },
    {
        let (vec, size) = match crate::codec::parse_doc(text.as_str()) {
            Some(p) => p,
            None => {
                return Err(RepoError::CorruptState);
            },
        };
        let nn = vec.len();
        let mut converted: Vec<Task> = Vec::new();
        let mut c: usize = 0;
        proof {
            assert(task_views(converted@) =~= crate::notes::views_of(vec@).subrange(0, 0));
        }
        while c < nn
            invariant
                nn == vec@.len(),
                0 <= c <= nn,
                task_views(converted@) == crate::notes::views_of(vec@).subrange(0, c as int),
            decreases nn - c,
        {
            let t = Task::of_note(vec[c].clone());
            converted.push(t);
            proof {
                let vs = crate::notes::views_of(vec@);
                assert(vs.subrange(0, c + 1).drop_last() =~= vs.subrange(0, c as int));
                assert(vs.subrange(0, c + 1).last() == vs[c as int]);
                assert(task_views(converted@) =~= vs.subrange(0, c + 1));
            }
            c = c + 1;
        }
        proof {
            assert(crate::notes::views_of(vec@).subrange(0, nn as int) =~= crate::notes::views_of(
                vec@,
            ));
        }
        let n = converted.len();
        if size != n as u64 {
            return Err(RepoError::CorruptState);
        }
        let mut i: usize = 0;
        while i < n
            invariant
                n == converted@.len(),
                n as u64 == size,
                0 <= i <= n,
                parse_doc_at(text@) == Some((task_views(converted@), size)),
                forall|a: int, b: int|
                    0 <= a < b < n && a < i ==> task_views(converted@)[a].id != task_views(converted@)[b].id,
            decreases n - i,
        {
            let mut j: usize = i + 1;
            while j < n
                invariant
                    n == converted@.len(),
                    n as u64 == size,
                    0 <= i < j <= n,
                    parse_doc_at(text@) == Some((task_views(converted@), size)),
                    forall|a: int, b: int|
                        0 <= a < b < n && a < i ==> task_views(converted@)[a].id != task_views(converted@)[b].id,
                    forall|b: int| i < b < j ==> task_views(converted@)[i as int].id != task_views(converted@)[b].id,
                decreases n - j,
            {
                if converted[i].id() == converted[j].id() {
                    proof {
                        assert(task_views(converted@)[i as int].id == task_views(converted@)[j as int].id);
                        assert(!distinct_ids(task_views(converted@)));
                    }
                    return Err(RepoError::CorruptState);
                }
                j = j + 1;
            }
            i = i + 1;
        }
        let mut m: u128 = 0;
        let mut k: usize = 0;
        while k < n
            invariant
                n == converted@.len(),
                0 <= k <= n,
                m <= u64::MAX as u128 + 1,
                forall|a: int| 0 <= a < k ==> (task_views(converted@)[a].id as u128) < m,
            decreases n - k,
        {
            let id = converted[k].id();
            if (id as u128) >= m {
                m = (id as u128) + 1;
            }
            k = k + 1;
        }
        Ok(ToDoList { tasks: converted, size, next_id: m })
    }

    /// The chat's agenda as of the current date. If the current date
    /// cannot be represented, the agenda is empty.
    pub fn notes_agenda(&self, chat_id: u64) -> (r: Vec<Task>)
        ensures
            r@.len() == 0 || exists|today: Date|
                valid_date(today) && task_views(r@) == agenda_of(self@.tasks, chat_id, today),
    {
        match crate::date::today() {
            Some(today) => {
                let v = self.notes_agenda_on(chat_id, today);
                proof {
                    assert(valid_date(today) && task_views(v@) == agenda_of(
                        self@.tasks,
                        chat_id,
                        today,
                    ));
                }
                v
            },
            None => Vec::new(),
        }
    }
}


} // verus!
