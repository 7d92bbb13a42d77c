//! The snapshot document format: one JSON object holding the note
//! records keyed by their string-encoded identifiers, and the size
//! counter. Emission is canonical; parsing accepts exactly that shape
//! and is proved to undo emission.

use vstd::prelude::*;

use crate::json::{
    emit_escaped, esc, esc_char, lit_at, parse_jstring, parse_jstring_at, parse_lit, parse_u64,
    parse_u64_at,
};
use crate::note::{state_text, Note, NoteView, State};
use crate::strs::{dec_digits, emit_u64, is_digit_char};

verus! {

/// The serialized due-date field: `null`, or the escaped date text in
/// quotes.
pub open spec fn deadline_json(d: Option<Seq<char>>) -> Seq<char> {
    match d {
        None => "null"@,
        Some(t) => "\""@ + esc(t) + "\""@,
    }
}

/// One record as it stands in the snapshot: the identifier as the key,
/// then the note's fields in a fixed order.
pub open spec fn record_json(n: NoteView) -> Seq<char> {
    "\""@ + dec_digits(n.id as nat) + "\":{\"id\":"@ + dec_digits(n.id as nat) + ",\"header\":\""@
        + esc(n.header) + "\",\"chat_id\":"@ + dec_digits(n.chat_id as nat) + ",\"text\":\""@
        + esc(n.text) + "\",\"state\":\""@ + state_text(n.state) + "\",\"deadline\":"@
        + deadline_json(n.deadline) + "}"@
}

/// The records joined by commas, in storage order.
pub open spec fn records_json(s: Seq<NoteView>) -> Seq<char>
    decreases s.len(),
{
    if s.len() == 0 {
        Seq::<char>::empty()
    } else if s.len() == 1 {
        record_json(s[0])
    } else {
        records_json(s.drop_last()) + ","@ + record_json(s.last())
    }
}

/// The whole snapshot document.
pub open spec fn doc_json(tasks: Seq<NoteView>, size: nat) -> Seq<char> {
    "{\"notes\":{"@ + records_json(tasks) + "},\"size\":"@ + dec_digits(size) + "}"@
}

/// The state a stored label denotes; an unknown label is a structural
/// error.
pub open spec fn state_of_label(t: Seq<char>) -> Option<State> {
    if t == state_text(State::ToDo) {
        Some(State::ToDo)
    } else if t == state_text(State::Doing) {
        Some(State::Doing)
    } else if t == state_text(State::Done) {
        Some(State::Done)
    } else if t == state_text(State::Unset) {
        Some(State::Unset)
    } else {
        None
    }
}

/// What parsing one record from position `i` yields: the note's content
/// and the position just past the record's closing brace. The key must
/// equal the record's own identifier field.
pub open spec fn parse_record_at(s: Seq<char>, i: int) -> Option<(int, NoteView)> {
    if !lit_at(s, i, "\""@) {
        None
    } else {
        match parse_u64_at(s, i + 1) {
            None => None,
            Some((i2, key)) => {
                if !lit_at(s, i2, "\":{\"id\":"@) {
                    None
                } else {
                    match parse_u64_at(s, i2 + "\":{\"id\":"@.len()) {
                        None => None,
                        Some((i4, id)) => {
                            if id != key || !lit_at(s, i4, ",\"header\":\""@) {
                                None
                            } else {
                                match parse_jstring_at(s, i4 + ",\"header\":\""@.len()) {
                                    None => None,
                                    Some((i6, header)) => parse_record_tail(s, i6, id, header),
                                }
                            }
                        },
                    }
                }
            },
        }
    }
}

/// The rest of a record after the header field.
pub open spec fn parse_record_tail(s: Seq<char>, i6: int, id: u64, header: Seq<char>) -> Option<
    (int, NoteView),
> {
    if !lit_at(s, i6, ",\"chat_id\":"@) {
        None
    } else {
        match parse_u64_at(s, i6 + ",\"chat_id\":"@.len()) {
            None => None,
            Some((i8, chat)) => {
                if !lit_at(s, i8, ",\"text\":\""@) {
                    None
                } else {
                    match parse_jstring_at(s, i8 + ",\"text\":\""@.len()) {
                        None => None,
                        Some((i10, text)) => {
                            if !lit_at(s, i10, ",\"state\":\""@) {
                                None
                            } else {
                                match parse_jstring_at(s, i10 + ",\"state\":\""@.len()) {
                                    None => None,
                                    Some((i12, label)) => {
                                        match state_of_label(label) {
                                            None => None,
                                            Some(st) => parse_record_end(
                                                s,
                                                i12,
                                                NoteView {
                                                    id: id,
                                                    header: header,
                                                    chat_id: chat,
                                                    text: text,
                                                    state: st,
                                                    deadline: None,
                                                },
                                            ),
                                        }
                                    },
                                }
                            }
                        },
                    }
                }
            },
        }
    }
}

/// The deadline field and the record's closing brace.
pub open spec fn parse_record_end(s: Seq<char>, i12: int, nv: NoteView) -> Option<
    (int, NoteView),
> {
    if !lit_at(s, i12, ",\"deadline\":"@) {
        None
    } else {
        let i13 = i12 + ",\"deadline\":"@.len();
        if lit_at(s, i13, "null"@) {
            let i14 = i13 + "null"@.len();
            if lit_at(s, i14, "}"@) {
                Some((i14 + 1, nv))
            } else {
                None
            }
        } else if lit_at(s, i13, "\""@) {
            match parse_jstring_at(s, i13 + 1) {
                None => None,
                Some((i15, d)) => {
                    if lit_at(s, i15, "}"@) {
                        Some((i15 + 1, NoteView { deadline: Some(d), ..nv }))
                    } else {
                        None
                    }
                },
            }
        } else {
            None
        }
    }
}

/// One note on its own, as a JSON object: the same fields in the same
/// order as a snapshot record, without the identifier key.
pub open spec fn note_json(n: NoteView) -> Seq<char> {
    "{\"id\":"@ + dec_digits(n.id as nat) + ",\"header\":\""@ + esc(n.header) + "\",\"chat_id\":"@
        + dec_digits(n.chat_id as nat) + ",\"text\":\""@ + esc(n.text) + "\",\"state\":\""@
        + state_text(n.state) + "\",\"deadline\":"@ + deadline_json(n.deadline) + "}"@
}

/// What parsing one stand-alone note object from position `i` yields.
pub open spec fn parse_note_at(s: Seq<char>, i: int) -> Option<(int, NoteView)> {
    if !lit_at(s, i, "{\"id\":"@) {
        None
    } else {
        match parse_u64_at(s, i + "{\"id\":"@.len()) {
            None => None,
            Some((i2, id)) => {
                if !lit_at(s, i2, ",\"header\":\""@) {
                    None
                } else {
                    match parse_jstring_at(s, i2 + ",\"header\":\""@.len()) {
                        None => None,
                        Some((i4, header)) => parse_record_tail(s, i4, id, header),
                    }
                }
            },
        }
    }
}

/// Appends one stand-alone note object to `out`.
#[verifier::rlimit(50)]
pub fn emit_note(out: &mut String, note: &Note)
    ensures
        final(out)@ == old(out)@ + note_json(note@),
{
    out.append("{\"id\":");
    emit_u64(out, note.id());
    out.append(",\"header\":\"");
    emit_escaped(out, note.header());
    out.append("\",\"chat_id\":");
    emit_u64(out, note.chat_id());
    out.append(",\"text\":\"");
    emit_escaped(out, note.text());
    out.append("\",\"state\":\"");
    let st = note.state().to_message();
    out.append(st.as_str());
    out.append("\",\"deadline\":");
    match note.deadline() {
        None => out.append("null"),
        Some(d) => {
            out.append("\"");
            emit_escaped(out, d.as_str());
            out.append("\"");
        },
    }
    out.append("}");
    proof {
        assert(out@ =~= old(out)@ + note_json(note@));
    }
}

/// Parses one stand-alone note object starting at `i0`.
pub fn parse_note(s: &str, n: usize, i0: usize) -> (r: Option<(usize, Note)>)
    requires
        n == s@.len(),
        i0 <= n,
    ensures
        match r {
            None => parse_note_at(s@, i0 as int) is None,
            Some(p) => parse_note_at(s@, i0 as int) == Some((p.0 as int, p.1@)) && i0 < p.0
                <= n,
        },
{
    proof {
        reveal_strlit("{\"id\":");
        reveal_strlit(",\"header\":\"");
        reveal_strlit(",\"chat_id\":");
        reveal_strlit(",\"text\":\"");
        reveal_strlit(",\"state\":\"");
        reveal_strlit(",\"deadline\":");
        reveal_strlit("null");
        reveal_strlit("\"");
        reveal_strlit("}");
    }
    let i1 = match parse_lit(s, n, i0, "{\"id\":") {
        Some(j) => j,
        None => {
            return None;
        },
    };
    let (i2, id) = match parse_u64(s, n, i1) {
        Some(p) => p,
        None => {
            return None;
        },
    };
    let i3 = match parse_lit(s, n, i2, ",\"header\":\"") {
        Some(j) => j,
        None => {
            return None;
        },
    };
    let (i4, header) = match parse_jstring(s, n, i3) {
        Some(p) => p,
        None => {
            return None;
        },
    };
    let i5 = match parse_lit(s, n, i4, ",\"chat_id\":") {
        Some(j) => j,
        None => {
            return None;
        },
    };
    let (i6, chat) = match parse_u64(s, n, i5) {
        Some(p) => p,
        None => {
            return None;
        },
    };
    let i7 = match parse_lit(s, n, i6, ",\"text\":\"") {
        Some(j) => j,
        None => {
            return None;
        },
    };
    let (i8, text) = match parse_jstring(s, n, i7) {
        Some(p) => p,
        None => {
            return None;
        },
    };
    let i9 = match parse_lit(s, n, i8, ",\"state\":\"") {
        Some(j) => j,
        None => {
            return None;
        },
    };
    let (i10, label) = match parse_jstring(s, n, i9) {
        Some(p) => p,
        None => {
            return None;
        },
    };
    proof {
        reveal_strlit("ToDo");
        reveal_strlit("Doing");
        reveal_strlit("Done");
        assert("ToDo"@ =~= state_text(State::ToDo));
        assert("Doing"@ =~= state_text(State::Doing));
        assert("Done"@ =~= state_text(State::Done));
    }
    let st: State = if label == String::from_str("ToDo") {
        State::ToDo
    } else if label == String::from_str("Doing") {
        State::Doing
    } else if label == String::from_str("Done") {
        State::Done
    } else if label.as_str().is_empty() {
        proof {
            assert(label@ =~= Seq::<char>::empty());
        }
        State::Unset
    } else {
        return None;
    };
    proof {
        assert(state_of_label(label@) == Some(st));
    }
    let i11 = match parse_lit(s, n, i10, ",\"deadline\":") {
        Some(j) => j,
        None => {
            return None;
        },
    };
    let mut note = Note::dry_new().with_id(id).with_chat(chat).with_header(header).with_text(
        text,
    );
    note.set_state(st);
    match parse_lit(s, n, i11, "null") {
        Some(i12) => {
            let i13 = match parse_lit(s, n, i12, "}") {
                Some(j) => j,
                None => {
                    return None;
                },
            };
            Some((i13, note))
        },
        None => {
            let i12 = match parse_lit(s, n, i11, "\"") {
                Some(j) => j,
                None => {
                    return None;
                },
            };
            let (i13, d) = match parse_jstring(s, n, i12) {
                Some(p) => p,
                None => {
                    return None;
                },
            };
            let i14 = match parse_lit(s, n, i13, "}") {
                Some(j) => j,
                None => {
                    return None;
                },
            };
            note.set_deadline(Some(d));
            Some((i14, note))
        },
    }
}

/// Appends one record to `out`.
#[verifier::rlimit(50)]
pub fn emit_record(out: &mut String, note: &Note)
    ensures
        final(out)@ == old(out)@ + record_json(note@),
{
    out.append("\"");
    emit_u64(out, note.id());
    out.append("\":{\"id\":");
    emit_u64(out, note.id());
    out.append(",\"header\":\"");
    emit_escaped(out, note.header());
    out.append("\",\"chat_id\":");
    emit_u64(out, note.chat_id());
    out.append(",\"text\":\"");
    emit_escaped(out, note.text());
    out.append("\",\"state\":\"");
    let st = note.state().to_message();
    out.append(st.as_str());
    out.append("\",\"deadline\":");
    match note.deadline() {
        None => out.append("null"),
        Some(d) => {
            out.append("\"");
            emit_escaped(out, d.as_str());
            out.append("\"");
        },
    }
    out.append("}");
    proof {
        assert(out@ =~= old(out)@ + record_json(note@));
    }
}

/// Parses one record starting at `i0`, returning the rebuilt note and
/// the position just past its closing brace.
pub fn parse_record(s: &str, n: usize, i0: usize) -> (r: Option<(usize, Note)>)
    requires
        n == s@.len(),
        i0 <= n,
    ensures
        match r {
            None => parse_record_at(s@, i0 as int) is None,
            Some(p) => parse_record_at(s@, i0 as int) == Some((p.0 as int, p.1@)) && i0 < p.0
                <= n,
        },
{
    proof {
        reveal_strlit("\"");
        reveal_strlit("\":{\"id\":");
        reveal_strlit(",\"header\":\"");
        reveal_strlit(",\"chat_id\":");
        reveal_strlit(",\"text\":\"");
        reveal_strlit(",\"state\":\"");
        reveal_strlit(",\"deadline\":");
        reveal_strlit("null");
        reveal_strlit("}");
    }
    let i1 = match parse_lit(s, n, i0, "\"") {
        Some(j) => j,
        None => {
            return None;
        },
    };
    let (i2, key) = match parse_u64(s, n, i1) {
        Some(p) => p,
        None => {
            return None;
        },
    };
    let i3 = match parse_lit(s, n, i2, "\":{\"id\":") {
        Some(j) => j,
        None => {
            return None;
        },
    };
    let (i4, id) = match parse_u64(s, n, i3) {
        Some(p) => p,
        None => {
            return None;
        },
    };
    if id != key {
        return None;
    }
    let i5 = match parse_lit(s, n, i4, ",\"header\":\"") {
        Some(j) => j,
        None => {
            return None;
        },
    };
    let (i6, header) = match parse_jstring(s, n, i5) {
        Some(p) => p,
        None => {
            return None;
        },
    };
    let i7 = match parse_lit(s, n, i6, ",\"chat_id\":") {
        Some(j) => j,
        None => {
            return None;
        },
    };
    let (i8, chat) = match parse_u64(s, n, i7) {
        Some(p) => p,
        None => {
            return None;
        },
    };
    let i9 = match parse_lit(s, n, i8, ",\"text\":\"") {
        Some(j) => j,
        None => {
            return None;
        },
    };
    let (i10, text) = match parse_jstring(s, n, i9) {
        Some(p) => p,
        None => {
            return None;
        },
    };
    let i11 = match parse_lit(s, n, i10, ",\"state\":\"") {
        Some(j) => j,
        None => {
            return None;
        },
    };
    let (i12, label) = match parse_jstring(s, n, i11) {
        Some(p) => p,
        None => {
            return None;
        },
    };
    proof {
        reveal_strlit("ToDo");
        reveal_strlit("Doing");
        reveal_strlit("Done");
        assert("ToDo"@ =~= state_text(State::ToDo));
        assert("Doing"@ =~= state_text(State::Doing));
        assert("Done"@ =~= state_text(State::Done));
    }
    let st: State = if label == String::from_str("ToDo") {
        State::ToDo
    } else if label == String::from_str("Doing") {
        State::Doing
    } else if label == String::from_str("Done") {
        State::Done
    } else if label.as_str().is_empty() {
        proof {
            assert(label@ =~= Seq::<char>::empty());
        }
        State::Unset
    } else {
        return None;
    };
    proof {
        assert(state_of_label(label@) == Some(st));
    }
    let i13 = match parse_lit(s, n, i12, ",\"deadline\":") {
        Some(j) => j,
        None => {
            return None;
        },
    };
    let mut note = Note::dry_new().with_id(id).with_chat(chat).with_header(header).with_text(
        text,
    );
    note.set_state(st);
    match parse_lit(s, n, i13, "null") {
        Some(i14) => {
            let i15 = match parse_lit(s, n, i14, "}") {
                Some(j) => j,
                None => {
                    return None;
                },
            };
            Some((i15, note))
        },
        None => {
            let i14 = match parse_lit(s, n, i13, "\"") {
                Some(j) => j,
                None => {
                    return None;
                },
            };
            let (i15, d) = match parse_jstring(s, n, i14) {
                Some(p) => p,
                None => {
                    return None;
                },
            };
            let i16 = match parse_lit(s, n, i15, "}") {
                Some(j) => j,
                None => {
                    return None;
                },
            };
            note.set_deadline(Some(d));
            Some((i16, note))
        },
    }
}


/// Makes the contents and lengths of the format's literals available.
proof fn proof_reveals()
    ensures
        "\""@.len() == 1,
        ","@.len() == 1,
        "}"@.len() == 1,
        "null"@.len() == 4,
        "{\"notes\":{"@.len() == 10,
        "},\"size\":"@.len() == 9,
{
    reveal_strlit("\"");
    reveal_strlit(",");
    reveal_strlit("}");
    reveal_strlit("null");
    reveal_strlit("{\"notes\":{");
    reveal_strlit("},\"size\":");
}

pub proof fn lemma_parse_record_advances(s: Seq<char>, i: int)
    ensures
        match parse_record_at(s, i) {
            None => true,
            Some((j, nv)) => i < j <= s.len(),
        },
{
    proof_reveals();
    if lit_at(s, i, "\""@) {
        crate::json::lemma_parse_u64_advances(s, i + 1);
        if let Some((i2, key)) = parse_u64_at(s, i + 1) {
            if lit_at(s, i2, "\":{\"id\":"@) {
                let i3 = i2 + "\":{\"id\":"@.len();
                crate::json::lemma_parse_u64_advances(s, i3);
                if let Some((i4, id)) = parse_u64_at(s, i3) {
                    if id == key && lit_at(s, i4, ",\"header\":\""@) {
                        let i5 = i4 + ",\"header\":\""@.len();
                        crate::json::lemma_parse_jstring_advances(s, i5);
                        if let Some((i6, header)) = parse_jstring_at(s, i5) {
                            lemma_parse_record_tail_advances(s, i6, id, header);
                        }
                    }
                }
            }
        }
    }
}

proof fn lemma_parse_record_tail_advances(s: Seq<char>, i6: int, id: u64, header: Seq<char>)
    requires
        0 <= i6 <= s.len(),
    ensures
        match parse_record_tail(s, i6, id, header) {
            None => true,
            Some((j, nv)) => i6 <= j <= s.len(),
        },
{
    if lit_at(s, i6, ",\"chat_id\":"@) {
        let i7 = i6 + ",\"chat_id\":"@.len();
        crate::json::lemma_parse_u64_advances(s, i7);
        if let Some((i8, chat)) = parse_u64_at(s, i7) {
            if lit_at(s, i8, ",\"text\":\""@) {
                let i9 = i8 + ",\"text\":\""@.len();
                crate::json::lemma_parse_jstring_advances(s, i9);
                if let Some((i10, text)) = parse_jstring_at(s, i9) {
                    if lit_at(s, i10, ",\"state\":\""@) {
                        let i11 = i10 + ",\"state\":\""@.len();
                        crate::json::lemma_parse_jstring_advances(s, i11);
                        if let Some((i12, label)) = parse_jstring_at(s, i11) {
                            lemma_parse_record_end_advances(s, i12);
                        }
                    }
                }
            }
        }
    }
}

proof fn lemma_parse_record_end_advances(s: Seq<char>, i12: int)
    requires
        0 <= i12 <= s.len(),
    ensures
        forall|nv: NoteView|
            match #[trigger] parse_record_end(s, i12, nv) {
                None => true,
                Some((j, out)) => i12 <= j <= s.len(),
            },
{
    proof_reveals();
    assert forall|nv: NoteView|
        match #[trigger] parse_record_end(s, i12, nv) {
            None => true,
            Some((j, out)) => i12 <= j <= s.len(),
        } by {
        if lit_at(s, i12, ",\"deadline\":"@) {
            let i13 = i12 + ",\"deadline\":"@.len();
            if lit_at(s, i13, "null"@) {
            } else if lit_at(s, i13, "\""@) {
                crate::json::lemma_parse_jstring_advances(s, i13 + 1);
            }
        }
    }
}

/// What parsing the comma-separated record list from position `i`
/// yields: the notes in document order and the position just past the
/// last record.
pub open spec fn parse_records_at(s: Seq<char>, i: int) -> Option<(int, Seq<NoteView>)>
    decreases s.len() - i,
        via parse_records_at_dec
{
    match parse_record_at(s, i) {
        None => None,
        Some((j, nv)) => {
            if lit_at(s, j, ","@) {
                match parse_records_at(s, j + 1) {
                    None => None,
                    Some((k, rest)) => Some((k, seq![nv] + rest)),
                }
            } else {
                Some((j, seq![nv]))
            }
        },
    }
}

#[via_fn]
proof fn parse_records_at_dec(s: Seq<char>, i: int) {
    proof_reveals();
    lemma_parse_record_advances(s, i);
}

/// What parsing a whole snapshot document yields: the notes and the size
/// counter. The document must be consumed in full.
pub open spec fn parse_doc_at(s: Seq<char>) -> Option<(Seq<NoteView>, u64)> {
    if !lit_at(s, 0, "{\"notes\":{"@) {
        None
    } else {
        let i1 = "{\"notes\":{"@.len() as int;
        if lit_at(s, i1, "},\"size\":"@) {
            let i2 = i1 + "},\"size\":"@.len();
            match parse_u64_at(s, i2) {
                None => None,
                Some((i3, size)) => {
                    if lit_at(s, i3, "}"@) && i3 + 1 == s.len() {
                        Some((Seq::<NoteView>::empty(), size))
                    } else {
                        None
                    }
                },
            }
        } else {
            match parse_records_at(s, i1) {
                None => None,
                Some((j, tasks)) => {
                    if !lit_at(s, j, "},\"size\":"@) {
                        None
                    } else {
                        let i2 = j + "},\"size\":"@.len();
                        match parse_u64_at(s, i2) {
                            None => None,
                            Some((i3, size)) => {
                                if lit_at(s, i3, "}"@) && i3 + 1 == s.len() {
                                    Some((tasks, size))
                                } else {
                                    None
                                }
                            },
                        }
                    }
                },
            }
        }
    }
}

/// Parses the record list starting at `i0`.
pub fn parse_records(s: &str, n: usize, i0: usize) -> (r: Option<(usize, Vec<Note>)>)
    requires
        n == s@.len(),
        i0 <= n,
    ensures
        match r {
            None => parse_records_at(s@, i0 as int) is None,
            Some(p) => parse_records_at(s@, i0 as int) == Some(
                (p.0 as int, crate::notes::views_of(p.1@)),
            ) && i0 < p.0 <= n,
        },
{
    broadcast use crate::notes::lemma_views_of_push;

    let mut out: Vec<Note> = Vec::new();
    let mut i: usize = i0;
    loop
        invariant
            n == s@.len(),
            i0 <= i <= n,
            match parse_records_at(s@, i as int) {
                None => parse_records_at(s@, i0 as int) is None,
                Some(p) => parse_records_at(s@, i0 as int) == Some(
                    (p.0, crate::notes::views_of(out@) + p.1),
                ),
            },
        decreases n - i,
    {
        let (j, note) = match parse_record(s, n, i) {
            Some(p) => p,
            None => {
                return None;
            },
        };
        let ghost prev = crate::notes::views_of(out@);
        match parse_lit(s, n, j, ",") {
            Some(j2) => {
                out.push(note);
                proof {
                    proof_reveals();
                    assert(crate::notes::views_of(out@) == prev.push(note@));
                    if let Some((k, rest)) = parse_records_at(s@, j2 as int) {
                        assert(parse_records_at(s@, i as int) == Some(
                            (k, seq![note@] + rest),
                        ));
                        assert(prev + (seq![note@] + rest) =~= crate::notes::views_of(out@)
                            + rest);
                    }
                }
                i = j2;
            },
            None => {
                out.push(note);
                proof {
                    proof_reveals();
                    assert(parse_records_at(s@, i as int) == Some(
                        (j as int, seq![note@]),
                    ));
                    assert(crate::notes::views_of(out@) == prev.push(note@));
                    assert(prev + seq![note@] =~= crate::notes::views_of(out@));
                }
                return Some((j, out));
            },
        }
    }
}

/// Parses a whole snapshot document: the rebuilt notes and the size
/// counter, provided the text is consumed in full.
pub fn parse_doc(s: &str) -> (r: Option<(Vec<Note>, u64)>)
    ensures
        match r {
            None => parse_doc_at(s@) is None,
            Some(p) => parse_doc_at(s@) == Some((crate::notes::views_of(p.0@), p.1)),
        },
{
    proof {
        proof_reveals();
    }
    let n: usize = s.unicode_len();
    let i1 = match parse_lit(s, n, 0, "{\"notes\":{") {
        Some(j) => j,
        None => {
            return None;
        },
    };
    let empty_map = parse_lit(s, n, i1, "},\"size\":");
    let (tasks, j) = match empty_map {
        Some(_) => (Vec::new(), i1),
        None => {
            match parse_records(s, n, i1) {
                Some(p) => (p.1, p.0),
                None => {
                    return None;
                },
            }
        },
    };
    let i2 = match parse_lit(s, n, j, "},\"size\":") {
        Some(k) => k,
        None => {
            return None;
        },
    };
    let (i3, size) = match parse_u64(s, n, i2) {
        Some(p) => p,
        None => {
            return None;
        },
    };
    let i4 = match parse_lit(s, n, i3, "}") {
        Some(k) => k,
        None => {
            return None;
        },
    };
    if i4 != n {
        return None;
    }
    proof {
        assert(crate::notes::views_of(Seq::<Note>::empty()) =~= Seq::<NoteView>::empty());
    }
    Some((tasks, size))
}


/// Splitting a known stretch of text at a concatenation boundary.
proof fn lemma_split_at(s: Seq<char>, q: int, e: int, a: Seq<char>, b: Seq<char>)
    requires
        0 <= q <= e <= s.len(),
        s.subrange(q, e) == a + b,
    ensures
        q + a.len() <= e,
        s.subrange(q, q + a.len()) == a,
        s.subrange(q + a.len(), e) == b,
{
    assert((a + b).len() == a.len() + b.len());
    assert forall|k: int| 0 <= k < a.len() implies s.subrange(q, q + a.len())[k] == a[k] by {
        assert(s.subrange(q, q + a.len())[k] == s[q + k]);
        assert(s.subrange(q, e)[k] == s[q + k]);
        assert((a + b)[k] == a[k]);
    }
    assert(s.subrange(q, q + a.len()) =~= a);
    assert forall|k: int| 0 <= k < b.len() implies s.subrange(q + a.len(), e)[k] == b[k] by {
        assert(s.subrange(q + a.len(), e)[k] == s[q + a.len() + k]);
        assert(s.subrange(q, e)[a.len() + k] == s[q + a.len() + k]);
        assert((a + b)[a.len() + k] == b[k]);
    }
    assert(s.subrange(q + a.len(), e) =~= b);
}

/// Escaping changes nothing in a text without quotes, backslashes or
/// control characters.
pub proof fn lemma_esc_plain(t: Seq<char>)
    requires
        forall|k: int|
            0 <= k < t.len() ==> (#[trigger] t[k]) != '"' && t[k] != '\\' && (t[k] as u32) >= 32,
    ensures
        esc(t) == t,
    decreases t.len(),
{
    if t.len() > 0 {
        assert(esc_char(t[0]) == seq![t[0]]);
        assert forall|k: int|
            0 <= k < t.drop_first().len() implies (#[trigger] t.drop_first()[k]) != '"'
            && t.drop_first()[k] != '\\' && (t.drop_first()[k] as u32) >= 32 by {
            assert(t.drop_first()[k] == t[k + 1]);
        }
        lemma_esc_plain(t.drop_first());
        assert(esc(t) =~= t);
    }
}

/// Parsing one record reads back exactly what emission wrote.
#[verifier::rlimit(100)]
proof fn lemma_parse_record_complete(s: Seq<char>, i: int, nv: NoteView)
    requires
        0 <= i,
        i + record_json(nv).len() <= s.len(),
        s.subrange(i, i + record_json(nv).len()) == record_json(nv),
    ensures
        parse_record_at(s, i) == Some((i + record_json(nv).len(), nv)),
{
    proof_reveals();
    reveal_strlit("\"");
    reveal_strlit("null");
    reveal_strlit("}");
    reveal_strlit(",");
    reveal_strlit("\":{\"id\":");
    reveal_strlit(",\"header\":\"");
    reveal_strlit("\",\"chat_id\":");
    reveal_strlit(",\"chat_id\":");
    reveal_strlit(",\"text\":\"");
    reveal_strlit("\",\"state\":\"");
    reveal_strlit(",\"state\":\"");
    reveal_strlit("\",\"deadline\":");
    reveal_strlit(",\"deadline\":");
    let b0 = "\""@;
    let b1 = dec_digits(nv.id as nat);
    let b2 = "\":{\"id\":"@;
    let b3 = dec_digits(nv.id as nat);
    let b4 = ",\"header\":\""@;
    let b5 = esc(nv.header);
    let b6 = "\",\"chat_id\":"@;
    let b7 = dec_digits(nv.chat_id as nat);
    let b8 = ",\"text\":\""@;
    let b9 = esc(nv.text);
    let b10 = "\",\"state\":\""@;
    let b11 = state_text(nv.state);
    let b12 = "\",\"deadline\":"@;
    let b13 = deadline_json(nv.deadline);
    let b14 = "}"@;
    let w = record_json(nv);
    let e15 = i + w.len();
    // Peel the segments off from the right.
    let m14 = b0 + b1 + b2 + b3 + b4 + b5 + b6 + b7 + b8 + b9 + b10 + b11 + b12 + b13;
    lemma_split_at(s, i, e15, m14, b14);
    let e14 = i + m14.len();
    let m13 = b0 + b1 + b2 + b3 + b4 + b5 + b6 + b7 + b8 + b9 + b10 + b11 + b12;
    lemma_split_at(s, i, e14, m13, b13);
    let e13 = i + m13.len();
    let m12 = b0 + b1 + b2 + b3 + b4 + b5 + b6 + b7 + b8 + b9 + b10 + b11;
    lemma_split_at(s, i, e13, m12, b12);
    let e12 = i + m12.len();
    let m11 = b0 + b1 + b2 + b3 + b4 + b5 + b6 + b7 + b8 + b9 + b10;
    lemma_split_at(s, i, e12, m11, b11);
    let e11 = i + m11.len();
    let m10 = b0 + b1 + b2 + b3 + b4 + b5 + b6 + b7 + b8 + b9;
    lemma_split_at(s, i, e11, m10, b10);
    let e10 = i + m10.len();
    let m9 = b0 + b1 + b2 + b3 + b4 + b5 + b6 + b7 + b8;
    lemma_split_at(s, i, e10, m9, b9);
    let e9 = i + m9.len();
    let m8 = b0 + b1 + b2 + b3 + b4 + b5 + b6 + b7;
    lemma_split_at(s, i, e9, m8, b8);
    let e8 = i + m8.len();
    let m7 = b0 + b1 + b2 + b3 + b4 + b5 + b6;
    lemma_split_at(s, i, e8, m7, b7);
    let e7 = i + m7.len();
    let m6 = b0 + b1 + b2 + b3 + b4 + b5;
    lemma_split_at(s, i, e7, m6, b6);
    let e6 = i + m6.len();
    let m5 = b0 + b1 + b2 + b3 + b4;
    lemma_split_at(s, i, e6, m5, b5);
    let e5 = i + m5.len();
    let m4 = b0 + b1 + b2 + b3;
    lemma_split_at(s, i, e5, m4, b4);
    let e4 = i + m4.len();
    let m3 = b0 + b1 + b2;
    lemma_split_at(s, i, e4, m3, b3);
    let e3 = i + m3.len();
    let m2 = b0 + b1;
    lemma_split_at(s, i, e3, m2, b2);
    let e2 = i + m2.len();
    lemma_split_at(s, i, e2, b0, b1);
    let e1 = i + b0.len();
    // Positions of each segment.
    let o1 = e1;
    let o2 = e2;
    let o3 = e3;
    let o4 = e4;
    let o5 = e5;
    let o6 = e6;
    let o7 = e7;
    let o8 = e8;
    let o9 = e9;
    let o10 = e10;
    let o11 = e11;
    let o12 = e12;
    let o13 = e13;
    let o14 = e14;
    // The leading quote.
    assert(lit_at(s, i, "\""@));
    // The key.
    assert(s[o2] == b2[0]) by {
        assert(s.subrange(o2, o2 + b2.len())[0] == s[o2]);
    }
    assert(!is_digit_char(s[o2]));
    crate::json::lemma_parse_number(s, o1, nv.id);
    assert(parse_u64_at(s, o1) == Some((o2, nv.id)));
    // The literal between the key and the id field.
    assert(lit_at(s, o2, "\":{\"id\":"@));
    // The id field.
    assert(s[o4] == b4[0]) by {
        assert(s.subrange(o4, o4 + b4.len())[0] == s[o4]);
    }
    assert(!is_digit_char(s[o4]));
    crate::json::lemma_parse_number(s, o3, nv.id);
    assert(parse_u64_at(s, o3) == Some((o4, nv.id)));
    assert(lit_at(s, o4, ",\"header\":\""@));
    // The header string: its escaped text followed by the closing quote,
    // which is the first character of the next literal.
    assert(s[o6] == b6[0]) by {
        assert(s.subrange(o6, o6 + b6.len())[0] == s[o6]);
    }
    assert(s[o6] == '"');
    assert(s.subrange(o5, o5 + b5.len() + 1) =~= b5.push('"')) by {
        assert forall|k: int| 0 <= k < b5.len() + 1 implies s.subrange(o5, o5 + b5.len() + 1)[k]
            == b5.push('"')[k] by {
            assert(s.subrange(o5, o5 + b5.len() + 1)[k] == s[o5 + k]);
            if k < b5.len() {
                assert(s.subrange(o5, e5 + b5.len())[k] == s[o5 + k]);
                assert(s.subrange(o5, o6)[k] == b5[k]);
            } else {
                assert(o5 + k == o6);
            }
        }
    }
    crate::json::lemma_parse_escaped(s, o5, nv.header);
    assert(parse_jstring_at(s, o5) == Some((o6 + 1, nv.header)));
    // Between the closing quote of the header and the chat field stands
    // the rest of that literal.
    assert(lit_at(s, o6 + 1, ",\"chat_id\":"@)) by {
        reveal_strlit(",\"chat_id\":");
        assert forall|k: int| 0 <= k < ",\"chat_id\":"@.len() implies s.subrange(
            o6 + 1,
            o6 + 1 + ",\"chat_id\":"@.len(),
        )[k] == ",\"chat_id\":"@[k] by {
            assert(s.subrange(o6 + 1, o6 + 1 + ",\"chat_id\":"@.len())[k] == s[o6 + 1 + k]);
            assert(s.subrange(o6, o7)[k + 1] == s[o6 + 1 + k]);
            assert(b6[k + 1] == ",\"chat_id\":"@[k]);
        }
        assert(s.subrange(o6 + 1, o6 + 1 + ",\"chat_id\":"@.len()) =~= ",\"chat_id\":"@);
    }
    // The chat field.
    assert(s[o8] == b8[0]) by {
        assert(s.subrange(o8, o8 + b8.len())[0] == s[o8]);
    }
    assert(!is_digit_char(s[o8]));
    crate::json::lemma_parse_number(s, o7, nv.chat_id);
    assert(parse_u64_at(s, o7) == Some((o8, nv.chat_id)));
    assert(lit_at(s, o8, ",\"text\":\""@));
    // The text string.
    assert(s[o10] == b10[0]) by {
        assert(s.subrange(o10, o10 + b10.len())[0] == s[o10]);
    }
    assert(s[o10] == '"');
    assert(s.subrange(o9, o9 + b9.len() + 1) =~= b9.push('"')) by {
        assert forall|k: int| 0 <= k < b9.len() + 1 implies s.subrange(o9, o9 + b9.len() + 1)[k]
            == b9.push('"')[k] by {
            assert(s.subrange(o9, o9 + b9.len() + 1)[k] == s[o9 + k]);
            if k < b9.len() {
                assert(s.subrange(o9, o10)[k] == b9[k]);
            } else {
                assert(o9 + k == o10);
            }
        }
    }
    crate::json::lemma_parse_escaped(s, o9, nv.text);
    assert(parse_jstring_at(s, o9) == Some((o10 + 1, nv.text)));
    assert(lit_at(s, o10 + 1, ",\"state\":\""@)) by {
        reveal_strlit(",\"state\":\"");
        assert forall|k: int| 0 <= k < ",\"state\":\""@.len() implies s.subrange(
            o10 + 1,
            o10 + 1 + ",\"state\":\""@.len(),
        )[k] == ",\"state\":\""@[k] by {
            assert(s.subrange(o10 + 1, o10 + 1 + ",\"state\":\""@.len())[k] == s[o10 + 1 + k]);
            assert(s.subrange(o10, o11)[k + 1] == s[o10 + 1 + k]);
            assert(b10[k + 1] == ",\"state\":\""@[k]);
        }
        assert(s.subrange(o10 + 1, o10 + 1 + ",\"state\":\""@.len()) =~= ",\"state\":\""@);
    }
    // The state label: no escaping touches it.
    assert(forall|k: int|
        0 <= k < b11.len() ==> (#[trigger] b11[k]) != '"' && b11[k] != '\\' && (b11[k] as u32)
            >= 32);
    lemma_esc_plain(b11);
    assert(s[o12] == b12[0]) by {
        assert(s.subrange(o12, o12 + b12.len())[0] == s[o12]);
    }
    assert(s[o12] == '"');
    assert(s.subrange(o11, o11 + b11.len() + 1) =~= esc(b11).push('"')) by {
        assert forall|k: int| 0 <= k < b11.len() + 1 implies s.subrange(
            o11,
            o11 + b11.len() + 1,
        )[k] == b11.push('"')[k] by {
            assert(s.subrange(o11, o11 + b11.len() + 1)[k] == s[o11 + k]);
            if k < b11.len() {
                assert(s.subrange(o11, o12)[k] == b11[k]);
            } else {
                assert(o11 + k == o12);
            }
        }
    }
    crate::json::lemma_parse_escaped(s, o11, b11);
    assert(parse_jstring_at(s, o11) == Some((o12 + 1, b11)));
    assert(state_of_label(b11) == Some(nv.state));
    assert(lit_at(s, o12 + 1, ",\"deadline\":"@)) by {
        reveal_strlit(",\"deadline\":");
        assert forall|k: int| 0 <= k < ",\"deadline\":"@.len() implies s.subrange(
            o12 + 1,
            o12 + 1 + ",\"deadline\":"@.len(),
        )[k] == ",\"deadline\":"@[k] by {
            assert(s.subrange(o12 + 1, o12 + 1 + ",\"deadline\":"@.len())[k] == s[o12 + 1 + k]);
            assert(s.subrange(o12, o13)[k + 1] == s[o12 + 1 + k]);
            assert(b12[k + 1] == ",\"deadline\":"@[k]);
        }
        assert(s.subrange(o12 + 1, o12 + 1 + ",\"deadline\":"@.len()) =~= ",\"deadline\":"@);
    }
    // The deadline field.
    let core = NoteView {
        id: nv.id,
        header: nv.header,
        chat_id: nv.chat_id,
        text: nv.text,
        state: nv.state,
        deadline: None,
    };
    match nv.deadline {
        None => {
            assert(b13 == "null"@);
            assert(lit_at(s, o13, "null"@));
            assert(lit_at(s, o14, "}"@));
            assert(core == nv);
            assert(parse_record_end(s, o13 - ",\"deadline\":"@.len(), core) == Some(
                (o14 + 1, nv),
            ));
        },
        Some(d) => {
            assert(b13 == "\""@ + esc(d) + "\""@);
            assert(s[o13] == b13[0]) by {
                assert(s.subrange(o13, o14)[0] == s[o13]);
            }
            assert(b13[0] == '"');
            assert(!lit_at(s, o13, "null"@)) by {
                if lit_at(s, o13, "null"@) {
                    assert(s.subrange(o13, o13 + 4)[0] == s[o13]);
                    assert("null"@[0] == 'n');
                }
            }
            assert(lit_at(s, o13, "\""@)) by {
                assert(s.subrange(o13, o13 + 1)[0] == s[o13]);
                assert(s.subrange(o13, o13 + 1) =~= "\""@);
            }
            assert(s[o13 + 1 + esc(d).len()] == '"') by {
                assert(s.subrange(o13, o14)[1 + esc(d).len() as int] == s[o13 + 1 + esc(d).len()]);
                assert(b13[1 + esc(d).len() as int] == '"');
            }
            assert(s.subrange(o13 + 1, o13 + 1 + esc(d).len() + 1) =~= esc(d).push('"')) by {
                assert forall|k: int| 0 <= k < esc(d).len() + 1 implies s.subrange(
                    o13 + 1,
                    o13 + 1 + esc(d).len() + 1,
                )[k] == esc(d).push('"')[k] by {
                    assert(s.subrange(o13 + 1, o13 + 1 + esc(d).len() + 1)[k] == s[o13 + 1 + k]);
                    assert(s.subrange(o13, o14)[1 + k] == s[o13 + 1 + k]);
                    if k < esc(d).len() {
                        assert(b13[1 + k] == esc(d)[k]);
                    }
                }
            }
            crate::json::lemma_parse_escaped(s, o13 + 1, d);
            assert(parse_jstring_at(s, o13 + 1) == Some((o13 + 1 + esc(d).len() + 1, d)));
            assert(o13 + 1 + esc(d).len() + 1 == o14);
            assert(lit_at(s, o14, "}"@));
            assert(NoteView { deadline: Some(d), ..core } == nv);
            assert(parse_record_end(s, o13 - ",\"deadline\":"@.len(), core) == Some(
                (o14 + 1, nv),
            ));
        },
    }
    assert(parse_record_tail(s, o6 + 1, nv.id, nv.header) == Some((e15, nv))) by {
        assert(o6 + 1 + ",\"chat_id\":"@.len() == o7);
        assert(o10 + 1 + ",\"state\":\""@.len() == o11);
        assert(o12 + 1 + ",\"deadline\":"@.len() == o14 - b13.len());
    }
    assert(parse_record_at(s, i) == Some((e15, nv)));
}

/// The record list decomposed at its first record.
proof fn lemma_records_json_front(tasks: Seq<NoteView>)
    requires
        tasks.len() >= 2,
    ensures
        records_json(tasks) == record_json(tasks[0]) + ","@ + records_json(tasks.drop_first()),
    decreases tasks.len(),
{
    if tasks.len() == 2 {
        assert(tasks.drop_last().len() == 1);
        assert(tasks.drop_last()[0] == tasks[0]);
        assert(tasks.drop_first().len() == 1);
        assert(tasks.drop_first()[0] == tasks[1]);
        assert(records_json(tasks.drop_last()) == record_json(tasks[0]));
        assert(records_json(tasks.drop_first()) == record_json(tasks[1]));
        assert(tasks.last() == tasks[1]);
    } else {
        lemma_records_json_front(tasks.drop_last());
        assert(tasks.drop_last()[0] == tasks[0]);
        assert(tasks.drop_last().drop_first() =~= tasks.drop_first().drop_last());
        assert(tasks.drop_first().last() == tasks.last());
        assert(tasks.drop_first().len() >= 2);
        assert(records_json(tasks.drop_first()) == record_json(tasks.drop_first()[0]) + ","@
            + records_json(tasks.drop_first().drop_first())) by {
            lemma_records_json_front(tasks.drop_first());
        }
        assert(records_json(tasks) == records_json(tasks.drop_last()) + ","@ + record_json(
            tasks.last(),
        ));
        assert(records_json(tasks.drop_first()) == records_json(tasks.drop_first().drop_last())
            + ","@ + record_json(tasks.last()));
        assert(records_json(tasks) =~= record_json(tasks[0]) + ","@ + records_json(
            tasks.drop_first(),
        ));
    }
}

/// Every record list starts with a quote.
proof fn lemma_records_json_first_char(tasks: Seq<NoteView>)
    requires
        tasks.len() >= 1,
        records_json(tasks).len() >= 1,
    ensures
        records_json(tasks)[0] == '"',
{
    reveal_strlit("\"");
    if tasks.len() == 1 {
        assert(records_json(tasks) == record_json(tasks[0]));
        assert(record_json(tasks[0])[0] == "\""@[0]);
    } else {
        lemma_records_json_front(tasks);
        assert(records_json(tasks)[0] == record_json(tasks[0])[0]);
        assert(record_json(tasks[0])[0] == "\""@[0]);
    }
}

/// Parsing the record list reads back exactly what emission wrote, up to
/// the closing brace of the notes object.
proof fn lemma_parse_records_complete(s: Seq<char>, i: int, tasks: Seq<NoteView>)
    requires
        tasks.len() >= 1,
        0 <= i,
        i + records_json(tasks).len() < s.len(),
        s.subrange(i, i + records_json(tasks).len()) == records_json(tasks),
        s[i + records_json(tasks).len()] == '}',
    ensures
        parse_records_at(s, i) == Some((i + records_json(tasks).len(), tasks)),
    decreases tasks.len(),
{
    proof_reveals();
    reveal_strlit(",");
    reveal_strlit("}");
    reveal_strlit("\"");
    let total = records_json(tasks).len() as int;
    if tasks.len() == 1 {
        assert(records_json(tasks) == record_json(tasks[0]));
        lemma_parse_record_complete(s, i, tasks[0]);
        let j = i + total;
        assert(!lit_at(s, j, ","@)) by {
            if lit_at(s, j, ","@) {
                assert(s.subrange(j, j + 1)[0] == s[j]);
                assert(","@[0] == ',');
            }
        }
        assert(seq![tasks[0]] =~= tasks);
    } else {
        lemma_records_json_front(tasks);
        let w0 = record_json(tasks[0]);
        let rest_w = records_json(tasks.drop_first());
        lemma_split_at(s, i, i + total, w0 + ","@, rest_w);
        lemma_split_at(s, i, i + (w0 + ","@).len(), w0, ","@);
        lemma_parse_record_complete(s, i, tasks[0]);
        let j = i + w0.len() as int;
        assert(lit_at(s, j, ","@));
        lemma_parse_records_complete(s, j + 1, tasks.drop_first());
        assert(parse_records_at(s, j + 1) == Some((i + total, tasks.drop_first())));
        assert(seq![tasks[0]] + tasks.drop_first() =~= tasks);
    }
}

/// Parsing the whole document reads back exactly the tasks and the size
/// counter it was written for.
#[verifier::rlimit(100)]
pub proof fn lemma_parse_doc_complete(tasks: Seq<NoteView>, size: nat)
    requires
        size <= u64::MAX,
    ensures
        parse_doc_at(doc_json(tasks, size)) == Some((tasks, size as u64)),
{
    proof_reveals();
    reveal_strlit("{\"notes\":{");
    reveal_strlit("},\"size\":");
    reveal_strlit("}");
    reveal_strlit("\"");
    let s = doc_json(tasks, size);
    let lit1 = "{\"notes\":{"@;
    let recs = records_json(tasks);
    let lit2 = "},\"size\":"@;
    let digits = dec_digits(size);
    let lit3 = "}"@;
    assert(s.subrange(0, s.len() as int) =~= s);
    let m3 = lit1 + recs + lit2 + digits;
    lemma_split_at(s, 0, s.len() as int, m3, lit3);
    let m2 = lit1 + recs + lit2;
    lemma_split_at(s, 0, m3.len() as int, m2, digits);
    let m1 = lit1 + recs;
    lemma_split_at(s, 0, m2.len() as int, m1, lit2);
    lemma_split_at(s, 0, m1.len() as int, lit1, recs);
    let o1 = lit1.len() as int;
    let o2 = o1 + recs.len();
    let o3 = o2 + lit2.len();
    let o4 = o3 + digits.len();
    assert(lit_at(s, 0, lit1));
    assert(s[o4] == lit3[0]) by {
        assert(s.subrange(o4, o4 + 1)[0] == s[o4]);
    }
    assert(s[o4] == '}');
    assert(!is_digit_char(s[o4]));
    crate::json::lemma_parse_number(s, o3, size as u64);
    assert(parse_u64_at(s, o3) == Some((o4, size as u64)));
    assert(lit_at(s, o4, "}"@)) by {
        assert(s.subrange(o4, o4 + 1) =~= "}"@);
    }
    assert(o4 + 1 == s.len());
    if tasks.len() == 0 {
        assert(recs.len() == 0);
        assert(o2 == o1);
        assert(lit_at(s, o1, "},\"size\":"@));
        assert(parse_doc_at(s) == Some((Seq::<NoteView>::empty(), size as u64)));
        assert(tasks =~= Seq::<NoteView>::empty());
    } else {
        assert(recs.len() >= 1) by {
            if tasks.len() == 1 {
                lemma_record_json_len(tasks[0]);
            } else {
                lemma_records_json_front(tasks);
                lemma_record_json_len(tasks[0]);
            }
        }
        lemma_records_json_first_char(tasks);
        assert(s[o1] == recs[0]) by {
            assert(s.subrange(o1, o2)[0] == s[o1]);
        }
        assert(s[o1] == '"');
        assert(!lit_at(s, o1, "},\"size\":"@)) by {
            if lit_at(s, o1, "},\"size\":"@) {
                assert(s.subrange(o1, o1 + 9)[0] == s[o1]);
                assert("},\"size\":"@[0] == '}');
            }
        }
        assert(s[o2] == lit2[0]) by {
            assert(s.subrange(o2, o3)[0] == s[o2]);
        }
        assert(s[o2] == '}');
        lemma_parse_records_complete(s, o1, tasks);
        assert(parse_records_at(s, o1) == Some((o2, tasks)));
        assert(lit_at(s, o2, "},\"size\":"@));
    }
}

/// A record is never empty.
proof fn lemma_record_json_len(nv: NoteView)
    ensures
        record_json(nv).len() >= 1,
{
    reveal_strlit("\"");
}
} // verus!
