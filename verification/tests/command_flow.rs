use todo_repo::commands::{handle_command, one_line_parser, text_parser, Command};
use todo_repo::note::Note;
use todo_repo::notes::Notes;

#[test]
fn end_to_end_scenario() {
    let mut repo = Notes::new();
    let chat: u64 = 42;

    // create task "Buy milk" -> id 0 assigned
    let (replies, changed) = handle_command(&mut repo, chat, Command::Create("Buy milk".to_string()));
    assert!(changed);
    assert_eq!(replies, vec!["Ok:) id : 0".to_string()]);
    assert_eq!(repo.note_by_id(0).unwrap().header(), "Buy milk");

    // set its state to "doing", case-insensitively
    let (replies, changed) = handle_command(&mut repo, chat, Command::SetState(0, "doing".to_string()));
    assert!(changed);
    assert_eq!(replies, vec!["State changed".to_string()]);
    assert!(repo.note_by_id(0).unwrap().doing());

    // list active tasks -> exactly that task
    let active = repo.notes_by_chat(chat);
    assert_eq!(active.len(), 1);
    assert_eq!(active[0].id(), 0);

    // set state to "done" -> gone from the active list, still in the full list
    let (_, changed) = handle_command(&mut repo, chat, Command::SetState(0, "done".to_string()));
    assert!(changed);
    assert_eq!(repo.notes_by_chat(chat).len(), 0);
    assert_eq!(repo.notes_by_chat_all(chat).len(), 1);

    // delete it -> the full list is empty, and a second delete is a no-op
    let (replies, changed) = handle_command(&mut repo, chat, Command::Delete(0));
    assert!(changed);
    assert_eq!(replies, vec!["Ok:)".to_string()]);
    assert_eq!(repo.notes_by_chat_all(chat).len(), 0);
    let (replies, changed) = handle_command(&mut repo, chat, Command::Delete(0));
    assert!(!changed);
    assert_eq!(replies, vec!["Ok:)".to_string()]);
}

#[test]
fn unknown_id_replies() {
    let mut repo = Notes::new();
    let (r, c) = handle_command(&mut repo, 1, Command::SetState(9, "done".to_string()));
    assert!(!c);
    assert_eq!(r, vec!["Unknown id".to_string()]);
    let (r, _) = handle_command(&mut repo, 1, Command::Edit(9, "text".to_string()));
    assert_eq!(r, vec!["Unknown id".to_string()]);
    let (r, _) = handle_command(&mut repo, 1, Command::EditName(9, "name".to_string()));
    assert_eq!(r, vec!["Unknown id".to_string()]);
    let (r, _) = handle_command(&mut repo, 1, Command::Show(9));
    assert_eq!(r, vec!["Unknown id".to_string()]);
}

#[test]
fn invalid_date_is_rejected_before_the_repository() {
    let mut repo = Notes::new();
    handle_command(&mut repo, 1, Command::Create("a".to_string()));
    let (r, c) = handle_command(&mut repo, 1, Command::SetDead(0, "June 1st".to_string()));
    assert!(!c);
    assert_eq!(r, vec!["Invalid date format".to_string()]);
    assert!(repo.note_by_id(0).unwrap().deadline().is_none());
    let (r, c) = handle_command(&mut repo, 1, Command::SetDead(0, "2024-06-01".to_string()));
    assert!(c);
    assert_eq!(r, vec!["Deadline changed".to_string()]);
    assert_eq!(
        repo.note_by_id(0).unwrap().deadline().map(|d| d.as_str()),
        Some("2024-06-01")
    );
}

#[test]
fn edits_change_text_and_name() {
    let mut repo = Notes::new();
    handle_command(&mut repo, 1, Command::Create("old name".to_string()));
    let (r, _) = handle_command(&mut repo, 1, Command::Edit(0, "new text".to_string()));
    assert_eq!(r, vec!["Text changed".to_string()]);
    let (r, _) = handle_command(&mut repo, 1, Command::EditName(0, "new name".to_string()));
    assert_eq!(r, vec!["Name changed".to_string()]);
    let n = repo.note_by_id(0).unwrap();
    assert_eq!(n.text(), "new text");
    assert_eq!(n.header(), "new name");
}

#[test]
fn listing_replies_end_with_the_marker() {
    let mut repo = Notes::new();
    handle_command(&mut repo, 1, Command::Create("a".to_string()));
    handle_command(&mut repo, 1, Command::Create("b".to_string()));
    handle_command(&mut repo, 1, Command::SetState(1, "done".to_string()));
    let (r, c) = handle_command(&mut repo, 1, Command::List);
    assert!(!c);
    assert_eq!(r.len(), 2);
    assert!(r[0].starts_with("a\n"));
    assert_eq!(r[1], "Ok:)");
    let (r, _) = handle_command(&mut repo, 1, Command::ListAll);
    assert_eq!(r.len(), 3);
    assert_eq!(r[2], "Ok:)");
    // show prints the same block the listing does
    let (shown, _) = handle_command(&mut repo, 1, Command::Show(0));
    assert_eq!(shown[0], r[0]);
}

#[test]
fn start_and_help_do_not_touch_the_repository() {
    let mut repo = Notes::new();
    let (r, c) = handle_command(&mut repo, 1, Command::Start);
    assert!(!c);
    assert_eq!(r.len(), 1);
    assert!(r[0].contains("/help"));
    let (r, c) = handle_command(&mut repo, 1, Command::Help);
    assert!(!c);
    assert!(r[0].contains("/create"));
    assert_eq!(repo.notes_by_chat_all(1).len(), 0);
}

#[test]
fn agenda_command_replies() {
    let mut repo = Notes::new();
    handle_command(&mut repo, 1, Command::Create("undated".to_string()));
    let (r, c) = handle_command(&mut repo, 1, Command::Agenda);
    assert!(!c);
    // an undated task never enters the agenda, whatever the current date
    assert_eq!(r, vec!["Ok:)".to_string()]);
}

#[test]
fn create_replies_with_cap_message_when_ids_run_out() {
    let mut repo = Notes::new();
    repo.add(Note::dry_new().with_id(u64::MAX).with_chat(1));
    let (r, c) = handle_command(&mut repo, 1, Command::Create("late".to_string()));
    assert!(!c);
    assert_eq!(r, vec!["Cannot allocate a task id".to_string()]);
}

#[test]
fn text_parser_splits_id_and_text() {
    assert_eq!(
        text_parser("12 hello world".to_string()),
        Some((12, "hello world".to_string()))
    );
    assert_eq!(text_parser("12".to_string()), Some((12, "".to_string())));
    assert_eq!(text_parser("12  spaced".to_string()), Some((12, " spaced".to_string())));
    assert_eq!(text_parser("abc 12".to_string()), None);
    assert_eq!(text_parser("".to_string()), None);
    assert_eq!(text_parser(" 12".to_string()), None);
    assert_eq!(text_parser("18446744073709551615 max".to_string()), Some((u64::MAX, "max".to_string())));
    assert_eq!(text_parser("18446744073709551616 over".to_string()), None);
}

#[test]
fn one_line_parser_keeps_the_text() {
    assert_eq!(one_line_parser("whole line".to_string()), "whole line");
}
