//! The command layer's decision core: what each typed command does to the
//! repository and which replies it produces. The surrounding transport —
//! receiving messages and sending the replies — stays outside the
//! library.

use vstd::prelude::*;

use crate::date::parse_date_str;
use crate::note::{note_message, state_of_text, NoteView};
use crate::notes::{
    agenda_of, blank_with, by_chat, by_chat_active, contains_id, drop_id, strings_of, wf, Notes,
};
use crate::strs::{dec_digits, dec_value, emit_u64, is_digit_char};

verus! {

/// One parsed user command.
pub enum Command {
    Start,
    Help,
    Create(String),
    SetState(u64, String),
    SetDead(u64, String),
    Edit(u64, String),
    EditName(u64, String),
    Delete(u64),
    Show(u64),
    List,
    ListAll,
    Agenda,
}

/// The display blocks of a run of notes.
pub open spec fn messages_of(s: Seq<NoteView>) -> Seq<Seq<char>> {
    s.map_values(|n: NoteView| note_message(n))
}

/// One note's content with a field changed, as the editing commands leave
/// it.
pub open spec fn edited(
    pre: Seq<NoteView>,
    post: Seq<NoteView>,
    id: u64,
    f: spec_fn(NoteView) -> NoteView,
) -> bool {
    exists|i: int|
        0 <= i < pre.len() && pre[i].id == id && post == pre.update(i, f(pre[i]))
}

/// What each command replies, and how it changes the repository. The
/// second result says whether the repository changed, so that the caller
/// saves a snapshot after every mutating command.
#[verifier::rlimit(100)]
pub fn handle_command(repo: &mut Notes, chat_id: u64, cmd: Command) -> (r: (Vec<String>, bool))
    requires
        wf(old(repo)@),
    ensures
        wf(final(repo)@),
        !r.1 ==> *final(repo) == *old(repo),
        match cmd {
            Command::Start => !r.1 && strings_of(r.0@) == seq![start_message()],
            Command::Help => !r.1 && strings_of(r.0@) == seq![help_message()],
            Command::Create(name) => {
                if old(repo)@.next_id <= u64::MAX as u128 {
                    &&& r.1
                    &&& final(repo)@.tasks == old(repo)@.tasks.push(
                        blank_with((old(repo)@.next_id) as u64, chat_id, name@),
                    )
                    &&& strings_of(r.0@) == seq![
                        "Ok:) id : "@ + dec_digits(old(repo)@.next_id as nat),
                    ]
                } else {
                    !r.1 && strings_of(r.0@) == seq!["Cannot allocate a task id"@]
                }
            },
            Command::SetState(id, st) => {
                if contains_id(old(repo)@.tasks, id) {
                    &&& r.1
                    &&& edited(
                        old(repo)@.tasks,
                        final(repo)@.tasks,
                        id,
                        |n: NoteView| NoteView { state: state_of_text(st@), ..n },
                    )
                    &&& strings_of(r.0@) == seq!["State changed"@]
                } else {
                    !r.1 && strings_of(r.0@) == seq!["Unknown id"@]
                }
            },
            Command::SetDead(id, d) => {
                if crate::date::parse_date(d@) is None {
                    !r.1 && strings_of(r.0@) == seq!["Invalid date format"@]
                } else if contains_id(old(repo)@.tasks, id) {
                    &&& r.1
                    &&& edited(
                        old(repo)@.tasks,
                        final(repo)@.tasks,
                        id,
                        |n: NoteView| NoteView { deadline: Some(d@), ..n },
                    )
                    &&& strings_of(r.0@) == seq!["Deadline changed"@]
                } else {
                    !r.1 && strings_of(r.0@) == seq!["Unknown id"@]
                }
            },
            Command::Edit(id, text) => {
                if contains_id(old(repo)@.tasks, id) {
                    &&& r.1
                    &&& edited(
                        old(repo)@.tasks,
                        final(repo)@.tasks,
                        id,
                        |n: NoteView| NoteView { text: text@, ..n },
                    )
                    &&& strings_of(r.0@) == seq!["Text changed"@]
                } else {
                    !r.1 && strings_of(r.0@) == seq!["Unknown id"@]
                }
            },
            Command::EditName(id, name) => {
                if contains_id(old(repo)@.tasks, id) {
                    &&& r.1
                    &&& edited(
                        old(repo)@.tasks,
                        final(repo)@.tasks,
                        id,
                        |n: NoteView| NoteView { header: name@, ..n },
                    )
                    &&& strings_of(r.0@) == seq!["Name changed"@]
                } else {
                    !r.1 && strings_of(r.0@) == seq!["Unknown id"@]
                }
            },
            Command::Delete(id) => {
                &&& r.1 == contains_id(old(repo)@.tasks, id)
                &&& final(repo)@.tasks == drop_id(old(repo)@.tasks, id)
                &&& strings_of(r.0@) == seq!["Ok:)"@]
            },
            Command::Show(id) => {
                &&& !r.1
                &&& if contains_id(old(repo)@.tasks, id) {
                    strings_of(r.0@).len() == 1 && exists|i: int|
                        0 <= i < old(repo)@.tasks.len() && old(repo)@.tasks[i].id == id
                            && strings_of(r.0@) == seq![note_message(old(repo)@.tasks[i])]
                } else {
                    strings_of(r.0@) == seq!["Unknown id"@]
                }
            },
            Command::List => !r.1 && strings_of(r.0@) == messages_of(
                by_chat_active(old(repo)@.tasks, chat_id),
            ).push("Ok:)"@),
            Command::ListAll => !r.1 && strings_of(r.0@) == messages_of(
                by_chat(old(repo)@.tasks, chat_id),
            ).push("Ok:)"@),
            Command::Agenda => !r.1 && (strings_of(r.0@) == seq!["Ok:)"@] || exists|
                today: crate::date::Date,
            |
                crate::date::valid_date(today) && strings_of(r.0@) == messages_of(
                    agenda_of(old(repo)@.tasks, chat_id, today),
                ).push("Ok:)"@)),
        },
{
    let mut replies: Vec<String> = Vec::new();
    match cmd {
        Command::Start => {
            replies.push(start_text());
            proof {
                assert(strings_of(replies@) =~= seq![start_message()]);
            }
            (replies, false)
        },
        Command::Help => {
            replies.push(help_text());
            proof {
                assert(strings_of(replies@) =~= seq![help_message()]);
            }
            (replies, false)
        },
        Command::Create(name) => {
            if !repo.can_allocate() {
                replies.push(String::from_str("Cannot allocate a task id"));
                proof {
                    assert(strings_of(replies@) =~= seq!["Cannot allocate a task id"@]);
                }
                return (replies, false);
            }
            let id = repo.create(chat_id);
            match repo.note_as_mut(id) {
                Some(m) => m.set_header(name),
                None => {},
            }
            let mut reply = String::from_str("Ok:) id : ");
            emit_u64(&mut reply, id);
            replies.push(reply);
            proof {
                let pre = old(repo)@.tasks;
                let created = NoteView {
                    id: id,
                    chat_id: chat_id,
                    ..crate::note::blank_note(id)
                };
                let mid = pre.push(created);
                assert(mid[pre.len() as int].id == id);
                assert(contains_id(mid, id));
                assert(exists|i: int|
                    0 <= i < mid.len() && (#[trigger] mid[i]).id == id && repo@.tasks
                        == mid.update(i, NoteView { header: name@, ..mid[i] }));
                let i = choose|i: int|
                    0 <= i < mid.len() && (#[trigger] mid[i]).id == id && repo@.tasks
                        == mid.update(i, NoteView { header: name@, ..mid[i] });
                assert(i == pre.len()) by {
                    if i < pre.len() {
                        assert(pre[i].id == id);
                        assert((pre[i].id as u128) < old(repo)@.next_id);
                    }
                }
                assert(repo@.tasks =~= pre.push(blank_with(id, chat_id, name@)));
                assert(strings_of(replies@) =~= seq![
                    "Ok:) id : "@ + dec_digits(old(repo)@.next_id as nat),
                ]);
            }
            (replies, true)
        },
        Command::SetState(id, st) => {
            match repo.note_as_mut(id) {
                Some(m) => {
                    m.set_state_from_string(st);
                    replies.push(String::from_str("State changed"));
                    proof {
                        assert(strings_of(replies@) =~= seq!["State changed"@]);
                    }
                    (replies, true)
                },
                None => {
                    replies.push(String::from_str("Unknown id"));
                    proof {
                        assert(strings_of(replies@) =~= seq!["Unknown id"@]);
                    }
                    (replies, false)
                },
            }
        },
        Command::SetDead(id, d) => {
            if parse_date_str(d.as_str()).is_none() {
                replies.push(String::from_str("Invalid date format"));
                proof {
                    assert(strings_of(replies@) =~= seq!["Invalid date format"@]);
                }
                return (replies, false);
            }
            match repo.note_as_mut(id) {
                Some(m) => {
                    m.set_deadline(Some(d));
                    replies.push(String::from_str("Deadline changed"));
                    proof {
                        assert(strings_of(replies@) =~= seq!["Deadline changed"@]);
                    }
                    (replies, true)
                },
                None => {
                    replies.push(String::from_str("Unknown id"));
                    proof {
                        assert(strings_of(replies@) =~= seq!["Unknown id"@]);
                    }
                    (replies, false)
                },
            }
        },
        Command::Edit(id, text) => {
            match repo.note_as_mut(id) {
                Some(m) => {
                    m.set_text(text);
                    replies.push(String::from_str("Text changed"));
                    proof {
                        assert(strings_of(replies@) =~= seq!["Text changed"@]);
                    }
                    (replies, true)
                },
                None => {
                    replies.push(String::from_str("Unknown id"));
                    proof {
                        assert(strings_of(replies@) =~= seq!["Unknown id"@]);
                    }
                    (replies, false)
                },
            }
        },
        Command::EditName(id, name) => {
            match repo.note_as_mut(id) {
                Some(m) => {
                    m.set_header(name);
                    replies.push(String::from_str("Name changed"));
                    proof {
                        assert(strings_of(replies@) =~= seq!["Name changed"@]);
                    }
                    (replies, true)
                },
                None => {
                    replies.push(String::from_str("Unknown id"));
                    proof {
                        assert(strings_of(replies@) =~= seq!["Unknown id"@]);
                    }
                    (replies, false)
                },
            }
        },
        Command::Delete(id) => {
            let changed = match repo.note_by_id(id) {
                Some(_) => true,
                None => false,
            };
            repo.delete(id);
            replies.push(String::from_str("Ok:)"));
            proof {
                assert(strings_of(replies@) =~= seq!["Ok:)"@]);
            }
            (replies, changed)
        },
        Command::Show(id) => {
            match repo.note_by_id(id) {
                Some(note) => {
                    let msg = note.to_message();
                    replies.push(msg);
                    proof {
                        crate::notes::lemma_find_id_is_element(repo@.tasks, id);
                        assert(strings_of(replies@) =~= seq![note_message(note@)]);
                    }
                },
                None => {
                    replies.push(String::from_str("Unknown id"));
                    proof {
                        assert(strings_of(replies@) =~= seq!["Unknown id"@]);
                    }
                },
            }
            (replies, false)
        },
        Command::List => {
            let listed = repo.notes_by_chat(chat_id);
            let k = listed.len();
            let mut i: usize = 0;
            proof {
                assert(strings_of(replies@) =~= messages_of(
                    crate::notes::views_of(listed@).subrange(0, 0),
                ));
            }
            while i < k
                invariant
                    k == listed@.len(),
                    0 <= i <= k,
                    strings_of(replies@) == messages_of(
                        crate::notes::views_of(listed@).subrange(0, i as int),
                    ),
                decreases k - i,
            {
                let msg = listed[i].to_message();
                let ghost pre_replies = replies@;
                let ghost msg_view = msg@;
                replies.push(msg);
                proof {
                    let vs = crate::notes::views_of(listed@);
                    assert(msg_view == note_message(vs[i as int]));
                    assert(strings_of(replies@) =~= strings_of(pre_replies).push(msg_view));
                    assert(messages_of(vs.subrange(0, i + 1)) =~= messages_of(
                        vs.subrange(0, i as int),
                    ).push(note_message(vs[i as int])));
                    assert(strings_of(replies@) =~= messages_of(vs.subrange(0, i + 1)));
                }
                i = i + 1;
            }
            let ghost pre_replies = replies@;
            replies.push(String::from_str("Ok:)"));
            proof {
                let vs = crate::notes::views_of(listed@);
                assert(vs.subrange(0, k as int) =~= vs);
                assert(strings_of(replies@) =~= strings_of(pre_replies).push("Ok:)"@));
                assert(strings_of(replies@) =~= messages_of(
                    by_chat_active(old(repo)@.tasks, chat_id),
                ).push("Ok:)"@));
            }
            (replies, false)
        },
        Command::ListAll => {
            let listed = repo.notes_by_chat_all(chat_id);
            let k = listed.len();
            let mut i: usize = 0;
            proof {
                assert(strings_of(replies@) =~= messages_of(
                    crate::notes::views_of(listed@).subrange(0, 0),
                ));
            }
            while i < k
                invariant
                    k == listed@.len(),
                    0 <= i <= k,
                    strings_of(replies@) == messages_of(
                        crate::notes::views_of(listed@).subrange(0, i as int),
                    ),
                decreases k - i,
            {
                let msg = listed[i].to_message();
                let ghost pre_replies = replies@;
                let ghost msg_view = msg@;
                replies.push(msg);
                proof {
                    let vs = crate::notes::views_of(listed@);
                    assert(msg_view == note_message(vs[i as int]));
                    assert(strings_of(replies@) =~= strings_of(pre_replies).push(msg_view));
                    assert(messages_of(vs.subrange(0, i + 1)) =~= messages_of(
                        vs.subrange(0, i as int),
                    ).push(note_message(vs[i as int])));
                    assert(strings_of(replies@) =~= messages_of(vs.subrange(0, i + 1)));
                }
                i = i + 1;
            }
            let ghost pre_replies = replies@;
            replies.push(String::from_str("Ok:)"));
            proof {
                let vs = crate::notes::views_of(listed@);
                assert(vs.subrange(0, k as int) =~= vs);
                assert(strings_of(replies@) =~= strings_of(pre_replies).push("Ok:)"@));
                assert(strings_of(replies@) =~= messages_of(
                    by_chat(old(repo)@.tasks, chat_id),
                ).push("Ok:)"@));
            }
            (replies, false)
        },
        Command::Agenda => {
            let listed = repo.notes_agenda(chat_id);
            let k = listed.len();
            let mut i: usize = 0;
            proof {
                assert(strings_of(replies@) =~= messages_of(
                    crate::notes::views_of(listed@).subrange(0, 0),
                ));
            }
            while i < k
                invariant
                    k == listed@.len(),
                    0 <= i <= k,
                    strings_of(replies@) == messages_of(
                        crate::notes::views_of(listed@).subrange(0, i as int),
                    ),
                decreases k - i,
            {
                let msg = listed[i].to_message();
                let ghost pre_replies = replies@;
                let ghost msg_view = msg@;
                replies.push(msg);
                proof {
                    let vs = crate::notes::views_of(listed@);
                    assert(msg_view == note_message(vs[i as int]));
                    assert(strings_of(replies@) =~= strings_of(pre_replies).push(msg_view));
                    assert(messages_of(vs.subrange(0, i + 1)) =~= messages_of(
                        vs.subrange(0, i as int),
                    ).push(note_message(vs[i as int])));
                    assert(strings_of(replies@) =~= messages_of(vs.subrange(0, i + 1)));
                }
                i = i + 1;
            }
            let ghost pre_replies = replies@;
            replies.push(String::from_str("Ok:)"));
            proof {
                let vs = crate::notes::views_of(listed@);
                assert(vs.subrange(0, k as int) =~= vs);
                assert(strings_of(replies@) =~= strings_of(pre_replies).push("Ok:)"@));
                if listed@.len() == 0 {
                    assert(strings_of(replies@) =~= seq!["Ok:)"@]);
                } else {
                    let today = choose|today: crate::date::Date|
                        crate::date::valid_date(today) && crate::notes::views_of(listed@)
                            == agenda_of(old(repo)@.tasks, chat_id, today);
                    assert(strings_of(replies@) =~= messages_of(
                        agenda_of(old(repo)@.tasks, chat_id, today),
                    ).push("Ok:)"@));
                }
            }
            (replies, false)
        },
    }
}

/// The greeting shown on start.
pub open spec fn start_message() -> Seq<char> {
    "Hello! This is a personal task manager. Type /help to display the command list"@
}

pub fn start_text() -> (r: String)
    ensures
        r@ == start_message(),
{
    String::from_str("Hello! This is a personal task manager. Type /help to display the command list")
}

/// The command overview shown by the help command.
pub open spec fn help_message() -> Seq<char> {
    "These commands are supported:\n/start - display welcome message\n/help - display this text\n/create <name> - create task with <name>\n/setstate <id> <ToDo | Doing | Done> - set task state\n/setdead <id> <yyyy-mm-dd> - set task due date\n/edit <id> <text> - change task text\n/editname <id> <name> - rename task\n/delete <id> - delete task\n/show <id> - show task\n/list - list ToDo and Doing tasks\n/listall - list all tasks\n/agenda - list tasks for the week"@
}

pub fn help_text() -> (r: String)
    ensures
        r@ == help_message(),
{
    String::from_str(
        "These commands are supported:\n/start - display welcome message\n/help - display this text\n/create <name> - create task with <name>\n/setstate <id> <ToDo | Doing | Done> - set task state\n/setdead <id> <yyyy-mm-dd> - set task due date\n/edit <id> <text> - change task text\n/editname <id> <name> - rename task\n/delete <id> - delete task\n/show <id> - show task\n/list - list ToDo and Doing tasks\n/listall - list all tasks\n/agenda - list tasks for the week",
    )
}


/// Position of the first space, or -1 when there is none.
pub open spec fn first_space_idx(s: Seq<char>) -> int
    decreases s.len(),
{
    if s.len() == 0 {
        -1
    } else if s[0] == ' ' {
        0
    } else {
        let r = first_space_idx(s.drop_first());
        if r == -1 {
            -1
        } else {
            1 + r
        }
    }
}

/// The part of a message before its first space.
pub open spec fn head_of(s: Seq<char>) -> Seq<char> {
    if first_space_idx(s) == -1 {
        s
    } else {
        s.subrange(0, first_space_idx(s))
    }
}

/// The part of a message after its first space.
pub open spec fn rest_of(s: Seq<char>) -> Seq<char> {
    if first_space_idx(s) == -1 {
        Seq::<char>::empty()
    } else {
        s.subrange(first_space_idx(s) + 1, s.len() as int)
    }
}

pub open spec fn all_digits(s: Seq<char>) -> bool {
    forall|j: int| 0 <= j < s.len() ==> is_digit_char(s[j])
}

/// What a `<id> <text>` message denotes: the number the part before the
/// first space spells, and everything after that space. A head that is
/// empty, holds a non-digit, or overflows is rejected.
pub open spec fn split_id_text(s: Seq<char>) -> Option<(u64, Seq<char>)> {
    if head_of(s).len() >= 1 && all_digits(head_of(s)) && dec_value(head_of(s)) <= u64::MAX {
        Some((dec_value(head_of(s)) as u64, rest_of(s)))
    } else {
        None
    }
}

proof fn lemma_first_space_at(s: Seq<char>, i: int)
    requires
        0 <= i <= s.len(),
        forall|j: int| 0 <= j < i ==> s[j] != ' ',
        i == s.len() || s[i] == ' ',
    ensures
        first_space_idx(s) == if i == s.len() {
            -1int
        } else {
            i
        },
    decreases i,
{
    if i == 0 {
        if s.len() > 0 && s[0] != ' ' {
            lemma_first_space_none(s);
        }
    } else {
        assert(s[0] != ' ');
        assert forall|j: int| 0 <= j < i - 1 implies s.drop_first()[j] != ' ' by {
            assert(s.drop_first()[j] == s[j + 1]);
        }
        assert(i - 1 == s.drop_first().len() || s.drop_first()[i - 1] == ' ');
        lemma_first_space_at(s.drop_first(), i - 1);
    }
}

proof fn lemma_first_space_none(s: Seq<char>)
    requires
        s.len() == 0 || s[0] != ' ',
        s.len() == 0 || first_space_idx(s.drop_first()) == -1,
    ensures
        first_space_idx(s) == -1,
{
}

/// Splits a `<id> <text>` message into the leading number and the text
/// after the first space.
pub fn text_parser(input: String) -> (r: Option<(u64, String)>)
    ensures
        match r {
            None => split_id_text(input@) is None,
            Some(p) => split_id_text(input@) == Some((p.0, p.1@)),
        },
{
    let s = input.as_str();
    let n: usize = s.unicode_len();
    let mut k: usize = 0;
    while k < n && s.get_char(k) != ' '
        invariant
            n == s@.len(),
            0 <= k <= n,
            forall|j: int| 0 <= j < k ==> s@[j] != ' ',
        decreases n - k,
    {
        k = k + 1;
    }
    proof {
        lemma_first_space_at(s@, k as int);
        if k == n {
            assert(s@.subrange(0, n as int) =~= s@);
        }
    }
    let rest: String = if k == n {
        String::new()
    } else {
        String::from_str(s.substring_char(k + 1, n))
    };
    match crate::json::parse_u64(s, n, 0) {
        Some((j, v)) => {
            if j == k {
                proof {
                    if k == n {
                        assert(head_of(s@) == s@);
                        assert(rest_of(s@) == Seq::<char>::empty());
                    } else {
                        assert(head_of(s@) == s@.subrange(0, k as int));
                        assert(rest_of(s@) == s@.subrange(k + 1, n as int));
                    }
                    let head = head_of(s@);
                    crate::json::lemma_digit_run_in_bounds(s@, 0);
                    assert(all_digits(head)) by {
                        assert(forall|q: int| 0 <= q < k ==> is_digit_char(s@[q]));
                        assert(forall|q: int|
                            0 <= q < head.len() ==> head[q] == s@[q]);
                    }
                    assert(head =~= s@.subrange(0, j as int));
                    assert(split_id_text(input@) == Some((v, rest_of(s@))));
                }
                Some((v, rest))
            } else {
                proof {
                    if k == n {
                        assert(head_of(s@) == s@);
                    } else {
                        assert(head_of(s@) == s@.subrange(0, k as int));
                    }
                    let head = head_of(s@);
                    crate::json::lemma_digit_run_in_bounds(s@, 0);
                    assert(j < k) by {
                        if j > k {
                            assert(is_digit_char(s@[k as int]));
                        }
                    }
                    assert(head[j as int] == s@[j as int]);
                    assert(j == s@.len() || !is_digit_char(s@[j as int]));
                    assert(!all_digits(head));
                    assert(split_id_text(input@) is None);
                }
                None
            }
        },
        None => {
            proof {
                if k == n {
                    assert(head_of(s@) == s@);
                } else {
                    assert(head_of(s@) == s@.subrange(0, k as int));
                }
                let head = head_of(s@);
                assert(head.len() == k);
                crate::json::lemma_digit_run_in_bounds(s@, 0);
                let e = crate::json::digit_run_end(s@, 0);
                if e == 0 {
                    if head.len() >= 1 {
                        assert(head[0] == s@[0]);
                        assert(!is_digit_char(s@[0]));
                        assert(!all_digits(head));
                    }
                } else {
                    assert(dec_value(s@.subrange(0, e)) > u64::MAX);
                    if head.len() >= 1 && all_digits(head) {
                        assert(e == k) by {
                            if e > k {
                                assert(is_digit_char(s@[k as int]));
                            }
                            if e < k {
                                assert(is_digit_char(head[e]));
                                assert(head[e] == s@[e]);
                            }
                        }
                        assert(head =~= s@.subrange(0, e));
                        assert(dec_value(head) > u64::MAX);
                    }
                }
                assert(split_id_text(input@) is None);
            }
            None
        },
    }
}

/// A one-argument message is taken whole.
pub fn one_line_parser(input: String) -> (r: String)
    ensures
        r@ == input@,
{
    input
}
} // verus!
