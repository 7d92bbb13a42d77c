use todo_repo::note::{Note, State};
use todo_repo::task::Task;

#[test]
fn state_labels() {
    assert_eq!(State::ToDo.to_message(), "ToDo");
    assert_eq!(State::Doing.to_message(), "Doing");
    assert_eq!(State::Done.to_message(), "Done");
    assert_eq!(State::Unset.to_message(), "");
}

#[test]
fn state_parse_is_trimmed_and_case_insensitive() {
    assert_eq!(State::from_message("todo".to_string()), State::ToDo);
    assert_eq!(State::from_message("  DoIng \n".to_string()), State::Doing);
    assert_eq!(State::from_message("DONE".to_string()), State::Done);
    assert_eq!(State::from_message("finished".to_string()), State::Unset);
    assert_eq!(State::from_message("".to_string()), State::Unset);
    assert_eq!(State::from_message("to do".to_string()), State::Unset);
}

#[test]
fn builders_and_getters() {
    let n = Note::dry_new()
        .with_id(7)
        .with_chat(42)
        .with_header("Buy milk".to_string())
        .with_text("two bottles".to_string())
        .with_state_doing()
        .with_deadline("2024-06-15".to_string());
    assert_eq!(n.id(), 7);
    assert_eq!(n.chat_id(), 42);
    assert_eq!(n.header(), "Buy milk");
    assert_eq!(n.text(), "two bottles");
    assert!(n.doing());
    assert!(!n.todo());
    assert!(!n.done());
    assert_eq!(n.deadline().map(|d| d.as_str()), Some("2024-06-15"));
}

#[test]
fn setters_change_one_field() {
    let mut n = Note::dry_new();
    n.set_id(3);
    n.set_chat_id(5);
    n.set_header("a".to_string());
    n.set_text("b".to_string());
    n.set_state(State::ToDo);
    n.set_deadline(Some("2030-01-02".to_string()));
    assert_eq!(n.id(), 3);
    assert_eq!(n.chat_id(), 5);
    assert_eq!(n.header(), "a");
    assert_eq!(n.text(), "b");
    assert!(n.todo());
    assert_eq!(n.deadline().map(|d| d.as_str()), Some("2030-01-02"));
    n.set_state_from_string(" done ".to_string());
    assert!(n.done());
    n.set_deadline(None);
    assert!(n.deadline().is_none());
}

#[test]
fn display_block_format() {
    let n = Note::dry_new()
        .with_id(12)
        .with_header("Call home".to_string())
        .with_text("after work".to_string())
        .with_state_todo()
        .with_deadline("2024-06-15".to_string());
    assert_eq!(
        n.to_message(),
        "Call home\nState : ToDo\nDeadline : 2024-06-15\nafter work\n\n\nid : 12"
    );
}

#[test]
fn display_block_without_deadline() {
    let n = Note::dry_new().with_id(0);
    assert_eq!(n.to_message(), "\nState : \nDeadline : None\n\n\n\nid : 0");
}

#[test]
fn notes_compare_by_identifier() {
    let a = Note::dry_new().with_id(1).with_header("x".to_string());
    let b = Note::dry_new().with_id(1).with_header("y".to_string());
    let c = Note::dry_new().with_id(2).with_header("x".to_string());
    assert!(a == b);
    assert!(a != c);
}

#[test]
fn task_mirrors_note() {
    let t = Task::dry_new()
        .with_id(9)
        .with_chat(4)
        .with_header("h".to_string())
        .with_state_done();
    assert_eq!(t.id(), 9);
    assert_eq!(t.chat_id(), 4);
    assert_eq!(t.header(), "h");
    assert!(t.done());
    assert_eq!(t.to_message(), "h\nState : Done\nDeadline : None\n\n\n\nid : 9");
    let n = t.clone().into_note();
    assert_eq!(n.id(), 9);
    let back = Task::of_note(n);
    assert!(back == t);
}

#[test]
fn default_is_blank() {
    let n: Note = Default::default();
    assert_eq!(n.id(), 0);
    assert_eq!(n.header(), "");
    assert!(n.deadline().is_none());
    let t: Task = Default::default();
    assert_eq!(t.id(), 0);
}
