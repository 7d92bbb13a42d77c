use todo_repo::errors::RepoError;
use todo_repo::note::Note;
use todo_repo::notes::Notes;
use todo_repo::task::Task;
use todo_repo::todo_list::ToDoList;

fn note(id: u64, chat: u64, header: &str) -> Note {
    Note::dry_new().with_id(id).with_chat(chat).with_header(header.to_string())
}

#[test]
fn snapshot_has_the_documented_shape() {
    let mut repo = Notes::new();
    repo.add(note(0, 42, "Buy milk"));
    assert_eq!(
        repo.to_json(),
        "{\"notes\":{\"0\":{\"id\":0,\"header\":\"Buy milk\",\"chat_id\":42,\"text\":\"\",\"state\":\"\",\"deadline\":null}},\"size\":1}"
    );
}

#[test]
fn empty_snapshot() {
    let repo = Notes::new();
    assert_eq!(repo.to_json(), "{\"notes\":{},\"size\":0}");
    let restored = Notes::from_json(repo.to_json()).unwrap();
    assert_eq!(restored.to_json(), "{\"notes\":{},\"size\":0}");
}

#[test]
fn round_trip_preserves_contents() {
    let mut repo = Notes::new();
    repo.add(
        note(3, 7, "groceries")
            .with_text("milk and eggs".to_string())
            .with_state_todo()
            .with_deadline("2024-06-15".to_string()),
    );
    repo.add(note(5, 7, "done thing").with_state_done());
    repo.add(note(9, 8, "other chat").with_state_doing());
    let text = repo.to_json();
    let restored = Notes::from_json(text.clone()).unwrap();
    // identical contents, field by field
    let a = restored.note_by_id(3).unwrap();
    assert_eq!(a.header(), "groceries");
    assert_eq!(a.text(), "milk and eggs");
    assert_eq!(a.chat_id(), 7);
    assert!(a.todo());
    assert_eq!(a.deadline().map(|d| d.as_str()), Some("2024-06-15"));
    assert!(restored.note_by_id(5).unwrap().done());
    assert!(restored.note_by_id(9).unwrap().doing());
    // identical size: serializing again writes the identical document
    assert_eq!(restored.to_json(), text);
}

#[test]
fn round_trip_escapes_special_characters() {
    let mut repo = Notes::new();
    repo.add(
        note(1, 2, "say \"hi\"")
            .with_text("line one\nline two\tand a \\ backslash".to_string()),
    );
    let text = repo.to_json();
    let restored = Notes::from_json(text).unwrap();
    let n = restored.note_by_id(1).unwrap();
    assert_eq!(n.header(), "say \"hi\"");
    assert_eq!(n.text(), "line one\nline two\tand a \\ backslash");
}

#[test]
fn garbage_is_corrupt() {
    assert!(matches!(
        Notes::from_json("not json at all".to_string()),
        Err(RepoError::CorruptState)
    ));
    assert!(matches!(Notes::from_json("{}".to_string()), Err(RepoError::CorruptState)));
    assert!(matches!(Notes::from_json("".to_string()), Err(RepoError::CorruptState)));
}

#[test]
fn truncated_snapshot_is_corrupt() {
    let mut repo = Notes::new();
    repo.add(note(1, 2, "x"));
    let text = repo.to_json();
    let cut = text[..text.len() - 1].to_string();
    assert!(matches!(Notes::from_json(cut), Err(RepoError::CorruptState)));
    let padded = format!("{} ", repo.to_json());
    assert!(matches!(Notes::from_json(padded), Err(RepoError::CorruptState)));
}

#[test]
fn size_mismatch_is_corrupt() {
    let text = "{\"notes\":{},\"size\":1}".to_string();
    assert!(matches!(Notes::from_json(text), Err(RepoError::CorruptState)));
}

#[test]
fn repeated_id_is_corrupt() {
    let record = "{\"id\":1,\"header\":\"a\",\"chat_id\":0,\"text\":\"\",\"state\":\"\",\"deadline\":null}";
    let text = format!("{{\"notes\":{{\"1\":{r},\"1\":{r}}},\"size\":2}}", r = record);
    assert!(matches!(Notes::from_json(text), Err(RepoError::CorruptState)));
}

#[test]
fn key_must_match_the_id_field() {
    let text = "{\"notes\":{\"2\":{\"id\":1,\"header\":\"a\",\"chat_id\":0,\"text\":\"\",\"state\":\"\",\"deadline\":null}},\"size\":1}";
    assert!(matches!(
        Notes::from_json(text.to_string()),
        Err(RepoError::CorruptState)
    ));
}

#[test]
fn unknown_state_label_is_corrupt() {
    let text = "{\"notes\":{\"1\":{\"id\":1,\"header\":\"a\",\"chat_id\":0,\"text\":\"\",\"state\":\"Odd\",\"deadline\":null}},\"size\":1}";
    assert!(matches!(
        Notes::from_json(text.to_string()),
        Err(RepoError::CorruptState)
    ));
}

#[test]
fn state_labels_round_trip() {
    let mut repo = Notes::new();
    repo.add(note(1, 0, "a").with_state_todo());
    repo.add(note(2, 0, "b").with_state_doing());
    repo.add(note(3, 0, "c").with_state_done());
    repo.add(note(4, 0, "d"));
    let restored = Notes::from_json(repo.to_json()).unwrap();
    assert!(restored.note_by_id(1).unwrap().todo());
    assert!(restored.note_by_id(2).unwrap().doing());
    assert!(restored.note_by_id(3).unwrap().done());
    let d = restored.note_by_id(4).unwrap();
    assert!(!d.todo() && !d.doing() && !d.done());
}

#[test]
fn todo_list_round_trip() {
    let mut repo = ToDoList::new();
    repo.add(
        Task::dry_new()
            .with_id(11)
            .with_chat(9)
            .with_header("shared format".to_string())
            .with_deadline("2025-01-01".to_string()),
    );
    let text = repo.to_json();
    let restored = ToDoList::from_json(text.clone()).unwrap();
    let t = restored.note_by_id(11).unwrap();
    assert_eq!(t.header(), "shared format");
    assert_eq!(t.deadline().map(|d| d.as_str()), Some("2025-01-01"));
    assert_eq!(restored.to_json(), text);
    // both collections write the same document for the same contents
    let mut other = Notes::new();
    other.add(
        note(11, 9, "shared format").with_deadline("2025-01-01".to_string()),
    );
    assert_eq!(other.to_json(), text);
}

#[test]
fn error_description() {
    assert_eq!(RepoError::CorruptState.describe(), "corrupt persisted state");
}

#[test]
fn control_characters_round_trip() {
    let mut repo = Notes::new();
    repo.add(note(1, 0, "bell \u{0007} and null \u{0000}"));
    let text = repo.to_json();
    // control characters are written in the \u00XX form
    assert!(text.contains("\\u0007"));
    assert!(text.contains("\\u0000"));
    let restored = Notes::from_json(text).unwrap();
    assert_eq!(restored.note_by_id(1).unwrap().header(), "bell \u{0007} and null \u{0000}");
}

#[test]
fn single_note_round_trip() {
    let n = Note::dry_new()
        .with_id(6)
        .with_chat(3)
        .with_header("alone".to_string())
        .with_state_todo()
        .with_deadline("2024-07-01".to_string());
    let text = n.to_json();
    assert_eq!(
        text,
        "{\"id\":6,\"header\":\"alone\",\"chat_id\":3,\"text\":\"\",\"state\":\"ToDo\",\"deadline\":\"2024-07-01\"}"
    );
    let back = Note::from_json(text).unwrap();
    assert_eq!(back.id(), 6);
    assert_eq!(back.header(), "alone");
    assert!(back.todo());
    assert!(matches!(
        Note::from_json("{\"id\":6}".to_string()),
        Err(RepoError::CorruptState)
    ));
    let t = Task::dry_new().with_id(6).with_header("alone".to_string());
    let back = Task::from_json(t.to_json()).unwrap();
    assert_eq!(back.header(), "alone");
    assert!(matches!(
        Task::from_json("nope".to_string()),
        Err(RepoError::CorruptState)
    ));
}
