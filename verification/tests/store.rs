use todo_store::{Contract, TodoError, TodoStatus, TodoWithId};

fn entry_with_id(listing: &[TodoWithId], todo_id: u64) -> Option<&TodoWithId> {
    let mut found: Option<&TodoWithId> = None;
    for entry in listing {
        if entry.todo_id == todo_id {
            assert!(found.is_none(), "identifier listed twice");
            found = Some(entry);
        }
    }
    found
}

#[test]
fn can_add_new_todo() {
    let mut contract = Contract::new();
    let new_todo_id = contract.add_todo("Write todo app".to_string());
    let listing = contract.list_todos();
    assert!(
        listing.len() == 1
            && listing[0].todo_id == new_todo_id
            && new_todo_id == 0
            && listing[0].todo.text == "Write todo app"
            && listing[0].todo.status == TodoStatus::Pending
    );
}

#[test]
fn ids_strictly_increase_even_across_deletes() {
    let mut contract = Contract::new();
    let mut issued: Vec<u64> = Vec::new();
    issued.push(contract.add_todo("first".to_string()));
    issued.push(contract.add_todo("second".to_string()));
    contract.delete_todo(issued[0]);
    contract.delete_todo(issued[1]);
    issued.push(contract.add_todo("third".to_string()));
    issued.push(contract.add_todo("fourth".to_string()));
    for window in issued.windows(2) {
        assert!(window[0] < window[1]);
    }
    assert_eq!(issued, vec![0, 1, 2, 3]);
}

#[test]
fn create_then_list_round_trips() {
    let mut contract = Contract::new();
    contract.add_todo("other".to_string());
    let k = contract.add_todo("X".to_string());
    let listing = contract.list_todos();
    let entry = entry_with_id(&listing, k).expect("created record is listed");
    assert_eq!(entry.todo.text, "X");
    assert_eq!(entry.todo.status, TodoStatus::Pending);
}

#[test]
fn status_update_is_visible_and_keeps_text() {
    let mut contract = Contract::new();
    let k = contract.add_todo("X".to_string());
    contract.complete_todo_status(k, TodoStatus::Completed);
    let listing = contract.list_todos();
    let entry = entry_with_id(&listing, k).expect("record is still listed");
    assert_eq!(entry.todo.status, TodoStatus::Completed);
    assert_eq!(entry.todo.text, "X");
}

#[test]
fn status_can_be_set_back_to_pending() {
    let mut contract = Contract::new();
    let k = contract.add_todo("X".to_string());
    contract.complete_todo_status(k, TodoStatus::Completed);
    contract.complete_todo_status(k, TodoStatus::Pending);
    let listing = contract.list_todos();
    let entry = entry_with_id(&listing, k).expect("record is still listed");
    assert_eq!(entry.todo.status, TodoStatus::Pending);
}

#[test]
fn unknown_id_update_and_delete_are_tolerated() {
    let mut contract = Contract::new();
    contract.complete_todo_status(999, TodoStatus::Completed);
    contract.delete_todo(999);
    assert!(contract.list_todos().is_empty());
}

#[test]
fn edit_of_unknown_id_fails_without_mutation() {
    let mut contract = Contract::new();
    let result = contract.edit_todo_text(999, "Y".to_string());
    assert_eq!(result, Err(TodoError::NotFound));
    let listing = contract.list_todos();
    assert!(listing.is_empty());
    assert!(entry_with_id(&listing, 999).is_none());
}

#[test]
fn edit_overwrites_text_and_keeps_status() {
    let mut contract = Contract::new();
    let k = contract.add_todo("before".to_string());
    contract.complete_todo_status(k, TodoStatus::Completed);
    let result = contract.edit_todo_text(k, "after".to_string());
    assert_eq!(result, Ok(()));
    let listing = contract.list_todos();
    let entry = entry_with_id(&listing, k).expect("record is still listed");
    assert_eq!(entry.todo.text, "after");
    assert_eq!(entry.todo.status, TodoStatus::Completed);
}

#[test]
fn delete_removes_and_is_idempotent() {
    let mut contract = Contract::new();
    let k = contract.add_todo("X".to_string());
    contract.delete_todo(k);
    assert!(entry_with_id(&contract.list_todos(), k).is_none());
    contract.delete_todo(k);
    assert!(entry_with_id(&contract.list_todos(), k).is_none());
}

#[test]
fn empty_text_is_accepted() {
    let mut contract = Contract::new();
    let k = contract.add_todo(String::new());
    let listing = contract.list_todos();
    let entry = entry_with_id(&listing, k).expect("record is listed");
    assert_eq!(entry.todo.text, "");
}

#[test]
fn scenario_create_complete_delete_list() {
    let mut contract = Contract::new();
    assert_eq!(contract.add_todo("a".to_string()), 0);
    assert_eq!(contract.add_todo("b".to_string()), 1);
    contract.complete_todo_status(0, TodoStatus::Completed);
    contract.delete_todo(1);
    let listing = contract.list_todos();
    assert_eq!(listing.len(), 1);
    assert_eq!(listing[0].todo_id, 0);
    assert_eq!(listing[0].todo.text, "a");
    assert_eq!(listing[0].todo.status, TodoStatus::Completed);
}
