use todo_repo::date::{parse_date_str, Date};
use todo_repo::note::Note;
use todo_repo::notes::Notes;

fn note(id: u64, chat: u64, header: &str) -> Note {
    Note::dry_new().with_id(id).with_chat(chat).with_header(header.to_string())
}

#[test]
fn parse_date_accepts_the_iso_form() {
    assert_eq!(
        parse_date_str("2024-06-15"),
        Some(Date { year: 2024, month: 6, day: 15 })
    );
    assert_eq!(
        parse_date_str("2024-02-29"),
        Some(Date { year: 2024, month: 2, day: 29 })
    );
    assert_eq!(
        parse_date_str("0000-01-01"),
        Some(Date { year: 0, month: 1, day: 1 })
    );
    assert_eq!(
        parse_date_str("9999-12-31"),
        Some(Date { year: 9999, month: 12, day: 31 })
    );
}

#[test]
fn parse_date_rejects_bad_input() {
    assert_eq!(parse_date_str("2023-02-29"), None); // not a leap year
    assert_eq!(parse_date_str("2024-13-01"), None);
    assert_eq!(parse_date_str("2024-00-10"), None);
    assert_eq!(parse_date_str("2024-04-31"), None);
    assert_eq!(parse_date_str("2024-6-15"), None); // two digits required
    assert_eq!(parse_date_str("2024/06/15"), None);
    assert_eq!(parse_date_str("15-06-2024"), None);
    assert_eq!(parse_date_str(""), None);
    assert_eq!(parse_date_str("2024-06-15 "), None);
}

#[test]
fn day_numbers_count_single_days() {
    let a = Date { year: 2024, month: 6, day: 15 };
    let b = Date { year: 2024, month: 6, day: 9 };
    assert_eq!(a.day_number() - b.day_number(), 6);
    let c = Date { year: 2024, month: 1, day: 1 };
    let d = Date { year: 2023, month: 12, day: 31 };
    assert_eq!(c.day_number() - d.day_number(), 1);
    // a leap day in between
    let e = Date { year: 2024, month: 3, day: 1 };
    let f = Date { year: 2024, month: 2, day: 28 };
    assert_eq!(e.day_number() - f.day_number(), 2);
    let g = Date { year: 2023, month: 3, day: 1 };
    let h = Date { year: 2023, month: 2, day: 28 };
    assert_eq!(g.day_number() - h.day_number(), 1);
}

#[test]
fn agenda_window_is_seven_days_back_and_unbounded_forward() {
    let today = Date { year: 2024, month: 6, day: 15 };
    let mut repo = Notes::new();
    repo.add(note(1, 5, "six days overdue").with_deadline("2024-06-09".to_string()));
    repo.add(note(2, 5, "eight days overdue").with_deadline("2024-06-07".to_string()));
    repo.add(note(3, 5, "far future").with_deadline("2024-12-01".to_string()));
    repo.add(note(4, 5, "no deadline"));
    repo.add(
        note(5, 5, "done but due")
            .with_deadline("2024-06-15".to_string())
            .with_state_done(),
    );
    let mut ids: Vec<u64> = repo.notes_agenda_on(5, today).iter().map(|n| n.id()).collect();
    ids.sort();
    assert_eq!(ids, vec![1, 3]);
}

#[test]
fn agenda_boundary_is_exactly_seven_days() {
    let today = Date { year: 2024, month: 6, day: 15 };
    let mut repo = Notes::new();
    repo.add(note(1, 5, "exactly seven").with_deadline("2024-06-08".to_string()));
    repo.add(note(2, 5, "one past").with_deadline("2024-06-07".to_string()));
    let ids: Vec<u64> = repo.notes_agenda_on(5, today).iter().map(|n| n.id()).collect();
    assert_eq!(ids, vec![1]);
}

#[test]
fn agenda_skips_undated_and_unparseable_deadlines() {
    let today = Date { year: 2024, month: 6, day: 15 };
    let mut repo = Notes::new();
    repo.add(note(1, 5, "no date"));
    repo.add(note(2, 5, "bad date").with_deadline("soonish".to_string()));
    assert_eq!(repo.notes_agenda_on(5, today).len(), 0);
}

#[test]
fn agenda_for_the_current_day_runs() {
    // Whatever today is, a repository whose notes carry no deadline has an
    // empty agenda, and one with a Done note only as well.
    let mut repo = Notes::new();
    repo.add(note(1, 5, "no date"));
    repo.add(note(2, 5, "done").with_deadline("2024-01-01".to_string()).with_state_done());
    assert_eq!(repo.notes_agenda(5).len(), 0);
}

#[test]
fn todo_list_agenda_uses_the_same_window() {
    let today = Date { year: 2024, month: 6, day: 15 };
    let mut repo = todo_repo::todo_list::ToDoList::new();
    repo.add(
        todo_repo::task::Task::dry_new()
            .with_id(1)
            .with_chat(5)
            .with_header("kept".to_string())
            .with_deadline("2024-06-09".to_string()),
    );
    repo.add(
        todo_repo::task::Task::dry_new()
            .with_id(2)
            .with_chat(5)
            .with_header("dropped".to_string())
            .with_deadline("2024-06-07".to_string()),
    );
    let ids: Vec<u64> = repo.notes_agenda_on(5, today).iter().map(|t| t.id()).collect();
    assert_eq!(ids, vec![1]);
}
