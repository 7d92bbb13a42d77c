use todo_repo::note::{Note, State};
use todo_repo::notes::Notes;
use todo_repo::task::Task;
use todo_repo::todo_list::ToDoList;

fn note(id: u64, chat: u64, header: &str) -> Note {
    Note::dry_new().with_id(id).with_chat(chat).with_header(header.to_string())
}

#[test]
fn size_counts_distinct_ids() {
    let mut repo = Notes::new();
    repo.add(note(1, 0, "a"));
    repo.add(note(2, 0, "b"));
    repo.add(note(7, 0, "c"));
    assert_eq!(repo.notes_by_chat_all(0).len(), 3);
    // re-adding an existing id overwrites and does not grow the store
    repo.add(note(2, 0, "b2"));
    assert_eq!(repo.notes_by_chat_all(0).len(), 3);
    assert_eq!(repo.note_by_id(2).unwrap().header(), "b2");
}

#[test]
fn delete_absent_is_a_noop() {
    let mut repo = Notes::new();
    repo.add(note(1, 0, "a"));
    repo.delete(99);
    assert_eq!(repo.notes_by_chat_all(0).len(), 1);
    assert_eq!(repo.note_by_id(1).unwrap().header(), "a");
    repo.delete(1);
    assert!(repo.note_by_id(1).is_none());
    assert_eq!(repo.notes_by_chat_all(0).len(), 0);
    // a second delete of the same id changes nothing and raises no error
    repo.delete(1);
    assert_eq!(repo.notes_by_chat_all(0).len(), 0);
}

#[test]
fn active_listing_excludes_done_full_listing_keeps_it() {
    let mut repo = Notes::new();
    repo.add(note(1, 5, "open"));
    repo.add(note(2, 5, "closed").with_state_done());
    repo.add(note(3, 6, "other chat"));
    let active: Vec<u64> = repo.notes_by_chat(5).iter().map(|n| n.id()).collect();
    assert_eq!(active, vec![1]);
    let mut all: Vec<u64> = repo.notes_by_chat_all(5).iter().map(|n| n.id()).collect();
    all.sort();
    assert_eq!(all, vec![1, 2]);
}

#[test]
fn owner_partitions_are_disjoint() {
    let mut repo = Notes::new();
    repo.add(note(1, 5, "mine"));
    repo.add(note(2, 6, "yours"));
    let mine = repo.notes_by_chat_all(5);
    assert_eq!(mine.len(), 1);
    assert_eq!(mine[0].chat_id(), 5);
    let yours = repo.notes_by_chat_all(6);
    assert_eq!(yours.len(), 1);
    assert_eq!(yours[0].chat_id(), 6);
    assert_eq!(repo.notes_by_chat_all(7).len(), 0);
}

#[test]
fn create_allocates_monotonically() {
    let mut repo = Notes::new();
    let a = repo.create(5);
    let b = repo.create(5);
    assert_eq!(a, 0);
    assert_eq!(b, 1);
    repo.delete(1);
    // identifiers are never reused after a deletion
    let c = repo.create(5);
    assert_eq!(c, 2);
}

#[test]
fn fresh_id_exceeds_restored_ids() {
    let mut repo = Notes::new();
    repo.add(note(3, 1, "x"));
    repo.add(note(7, 1, "y"));
    repo.add(note(9, 1, "z"));
    let text = repo.to_json();
    let mut restored = Notes::from_json(text).unwrap();
    let id = restored.create(1);
    assert!(id > 9);
    assert_eq!(id, 10);
}

#[test]
fn add_raises_allocator_past_inserted_id() {
    let mut repo = Notes::new();
    repo.add(note(41, 2, "late"));
    let id = repo.create(2);
    assert_eq!(id, 42);
}

#[test]
fn allocator_exhaustion_is_detected() {
    let mut repo = Notes::new();
    assert!(repo.can_allocate());
    repo.add(note(u64::MAX, 0, "edge"));
    assert!(!repo.can_allocate());
}

#[test]
fn mutation_goes_through_note_as_mut() {
    let mut repo = Notes::new();
    repo.add(note(1, 5, "before"));
    match repo.note_as_mut(1) {
        Some(m) => m.set_header("after".to_string()),
        None => panic!("id 1 must be present"),
    }
    assert_eq!(repo.note_by_id(1).unwrap().header(), "after");
    assert!(repo.note_as_mut(99).is_none());
}

#[test]
fn todo_list_behaves_like_notes() {
    let mut repo = ToDoList::new();
    let t = Task::dry_new().with_id(4).with_chat(8).with_header("t".to_string());
    repo.add(t);
    assert_eq!(repo.note_by_id(4).unwrap().header(), "t");
    assert_eq!(repo.notes_by_chat(8).len(), 1);
    match repo.note_as_mut(4) {
        Some(m) => m.set_state(State::Done),
        None => panic!("id 4 must be present"),
    }
    assert_eq!(repo.notes_by_chat(8).len(), 0);
    assert_eq!(repo.notes_by_chat_all(8).len(), 1);
    repo.delete(4);
    assert!(repo.note_by_id(4).is_none());
    let id = repo.create(8);
    assert_eq!(id, 5);
}
