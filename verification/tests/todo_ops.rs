use study_todo::error::{OpError, TodoError};
use study_todo::registry::{AddTodo, DeleteTodo, InitializeUser, MarkTodo, Registry};
use study_todo::states::OwnerKey;

fn key(tag: u8) -> OwnerKey {
    OwnerKey::new(vec![tag; 32])
}

fn init(reg: &mut Registry, tag: u8) {
    let r = reg.initialize_user(InitializeUser { authority: key(tag) });
    assert_eq!(r, Ok(()));
}

fn add(reg: &mut Registry, tag: u8, content: &str) -> Result<(), OpError> {
    reg.add_todo(
        AddTodo { authority: key(tag), profile_owner: key(tag) },
        String::from(content),
    )
}

#[test]
fn second_profile_for_same_owner_fails() {
    let mut reg = Registry::new();
    init(&mut reg, 1);
    let again = reg.initialize_user(InitializeUser { authority: key(1) });
    assert_eq!(again, Err(OpError::AlreadyExists));
    // the first profile is untouched
    assert_eq!(reg.last_index(&key(1)), Some(0));
    assert_eq!(reg.item_count(&key(1)), Some(0));
}

#[test]
fn fresh_profile_starts_at_zero() {
    let mut reg = Registry::new();
    assert!(!reg.profile_exists(&key(7)));
    init(&mut reg, 7);
    assert!(reg.profile_exists(&key(7)));
    assert_eq!(reg.last_index(&key(7)), Some(0));
    assert_eq!(reg.item_count(&key(7)), Some(0));
}

#[test]
fn create_item_assigns_next_index() {
    let mut reg = Registry::new();
    init(&mut reg, 2);
    for expected in 0u8..4 {
        let before = reg.last_index(&key(2)).unwrap();
        assert_eq!(before, expected);
        assert_eq!(add(&mut reg, 2, "task"), Ok(()));
        // the new item sits at the previous last_index, which advanced by one
        assert_eq!(reg.last_index(&key(2)).unwrap(), before + 1);
        assert_eq!(reg.item_marked(&key(2), before), Some(false));
    }
    assert_eq!(reg.item_count(&key(2)), Some(4));
}

#[test]
fn counts_stay_bounded_by_last_index() {
    let mut reg = Registry::new();
    init(&mut reg, 3);
    for _ in 0..5 {
        assert_eq!(add(&mut reg, 3, "x"), Ok(()));
    }
    for idx in [0u8, 2, 4] {
        let r = reg.delete_todo(
            DeleteTodo { authority: key(3), item_owner: key(3) },
            idx,
        );
        assert_eq!(r, Ok(()));
        let count = reg.item_count(&key(3)).unwrap();
        let last = reg.last_index(&key(3)).unwrap();
        assert!(count <= last);
    }
    assert_eq!(reg.item_count(&key(3)), Some(2));
    assert_eq!(reg.last_index(&key(3)), Some(5));
}

#[test]
fn mark_item_is_not_idempotent() {
    let mut reg = Registry::new();
    init(&mut reg, 4);
    assert_eq!(add(&mut reg, 4, "once"), Ok(()));
    let first = reg.mark_todo(MarkTodo { authority: key(4), item_owner: key(4) }, 0);
    assert_eq!(first, Ok(()));
    assert_eq!(reg.item_marked(&key(4), 0), Some(true));
    let second = reg.mark_todo(MarkTodo { authority: key(4), item_owner: key(4) }, 0);
    assert_eq!(second, Err(OpError::Program(TodoError::AlreadyMarked)));
    assert_eq!(reg.item_marked(&key(4), 0), Some(true));
}

#[test]
fn delete_item_removes_storage() {
    let mut reg = Registry::new();
    init(&mut reg, 5);
    assert_eq!(add(&mut reg, 5, "gone"), Ok(()));
    assert_eq!(add(&mut reg, 5, "stays"), Ok(()));
    let r = reg.delete_todo(DeleteTodo { authority: key(5), item_owner: key(5) }, 0);
    assert_eq!(r, Ok(()));
    // the count dropped by exactly one and the record is gone for good
    assert_eq!(reg.item_count(&key(5)), Some(1));
    assert_eq!(reg.item_marked(&key(5), 0), None);
    let mark = reg.mark_todo(MarkTodo { authority: key(5), item_owner: key(5) }, 0);
    assert_eq!(mark, Err(OpError::NotFound));
    let delete = reg.delete_todo(DeleteTodo { authority: key(5), item_owner: key(5) }, 0);
    assert_eq!(delete, Err(OpError::NotFound));
    // the other item is untouched
    assert_eq!(reg.item_content(&key(5), 1).unwrap().as_str(), "stays");
}

#[test]
fn foreign_caller_is_unauthorized() {
    let mut reg = Registry::new();
    init(&mut reg, 10);
    assert_eq!(add(&mut reg, 10, "mine"), Ok(()));
    // another principal presents owner 10's records with its own identity
    let add_r = reg.add_todo(
        AddTodo { authority: key(11), profile_owner: key(10) },
        String::from("theirs"),
    );
    assert_eq!(add_r, Err(OpError::Program(TodoError::Unauthorized)));
    let mark_r = reg.mark_todo(MarkTodo { authority: key(11), item_owner: key(10) }, 0);
    assert_eq!(mark_r, Err(OpError::Program(TodoError::Unauthorized)));
    let del_r = reg.delete_todo(DeleteTodo { authority: key(11), item_owner: key(10) }, 0);
    assert_eq!(del_r, Err(OpError::Program(TodoError::Unauthorized)));
    // no state change was produced by any of the rejected calls
    assert_eq!(reg.last_index(&key(10)), Some(1));
    assert_eq!(reg.item_count(&key(10)), Some(1));
    assert_eq!(reg.item_marked(&key(10), 0), Some(false));
}

#[test]
fn owner_lifecycle_scenario() {
    let mut reg = Registry::new();
    init(&mut reg, 20);
    assert_eq!(add(&mut reg, 20, "buy milk"), Ok(()));
    assert_eq!(reg.item_marked(&key(20), 0), Some(false));
    assert_eq!(reg.item_content(&key(20), 0).unwrap().as_str(), "buy milk");
    let mark = reg.mark_todo(MarkTodo { authority: key(20), item_owner: key(20) }, 0);
    assert_eq!(mark, Ok(()));
    assert_eq!(reg.item_marked(&key(20), 0), Some(true));
    assert_eq!(reg.item_count(&key(20)), Some(1));
    let del = reg.delete_todo(DeleteTodo { authority: key(20), item_owner: key(20) }, 0);
    assert_eq!(del, Ok(()));
    assert_eq!(reg.item_count(&key(20)), Some(0));
    assert_eq!(reg.last_index(&key(20)), Some(1));
    // index 0 is never reused: the next item takes index 1
    assert_eq!(add(&mut reg, 20, "walk dog"), Ok(()));
    assert_eq!(reg.item_marked(&key(20), 1), Some(false));
    assert_eq!(reg.item_marked(&key(20), 0), None);
}

#[test]
fn foreign_mark_on_existing_item_is_unauthorized() {
    let mut reg = Registry::new();
    init(&mut reg, 30);
    assert_eq!(add(&mut reg, 30, "a's item"), Ok(()));
    // owner 31 names owner 30's item index with its own identity
    let r = reg.mark_todo(MarkTodo { authority: key(31), item_owner: key(30) }, 0);
    assert_eq!(r, Err(OpError::Program(TodoError::Unauthorized)));
    assert_eq!(reg.item_marked(&key(30), 0), Some(false));
}

#[test]
fn index_range_boundary_is_rejected_deterministically() {
    let mut reg = Registry::new();
    init(&mut reg, 40);
    for i in 0u16..255 {
        let r = add(&mut reg, 40, "bulk");
        assert_eq!(r, Ok(()), "create at index {} should succeed", i);
    }
    assert_eq!(reg.last_index(&key(40)), Some(255));
    assert_eq!(reg.item_count(&key(40)), Some(255));
    // the next unused index can no longer advance: rejected, never wrapped
    let overflow = add(&mut reg, 40, "one too many");
    assert_eq!(overflow, Err(OpError::Program(TodoError::MathOverflow)));
    assert_eq!(reg.last_index(&key(40)), Some(255));
    assert_eq!(reg.item_count(&key(40)), Some(255));
    assert_eq!(reg.item_marked(&key(40), 255), None);
}

#[test]
fn operations_on_missing_records_report_not_found() {
    let mut reg = Registry::new();
    let r = reg.add_todo(
        AddTodo { authority: key(50), profile_owner: key(50) },
        String::from("early"),
    );
    assert_eq!(r, Err(OpError::NotFound));
    init(&mut reg, 50);
    let mark = reg.mark_todo(MarkTodo { authority: key(50), item_owner: key(50) }, 9);
    assert_eq!(mark, Err(OpError::NotFound));
    let del = reg.delete_todo(DeleteTodo { authority: key(50), item_owner: key(50) }, 9);
    assert_eq!(del, Err(OpError::NotFound));
    assert_eq!(reg.last_index(&key(50)), Some(0));
}

#[test]
fn error_messages_match_the_taxonomy() {
    assert_eq!(
        TodoError::Unauthorized.message(),
        "You are not authorized to perform this action."
    );
    assert_eq!(TodoError::NotAllowed.message(), "Not Allowed");
    assert_eq!(TodoError::MathOverflow.message(), "Math operation overflow");
    assert_eq!(TodoError::AlreadyMarked.message(), "Already Marked");
}
