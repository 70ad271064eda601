use todo_list::store::Todo;

#[test]
fn test_new_todo() {
    let todo = Todo::new();
    assert_eq!(todo.tasks.len(), 0);
}

#[test]
fn test_add_todo() {
    let mut todo = Todo::new();
    todo.add_todo("Test task".to_string());
    assert_eq!(todo.tasks.len(), 1);
    assert_eq!(todo.tasks[0].name, "Test task");
    assert!(!todo.tasks[0].completed);
}

#[test]
fn test_add_duplicate_todo() {
    let mut todo = Todo::new();
    todo.add_todo("Test task".to_string());
    todo.add_todo("Test task".to_string());
    assert_eq!(todo.tasks.len(), 1); // Should not add duplicate
}

#[test]
fn test_get_status() {
    let mut todo = Todo::new();
    todo.add_todo("Test task".to_string());
    assert_eq!(todo.get_status("Test task"), Some(false));
    assert_eq!(todo.get_status("Non-existent"), None);
}

#[test]
fn test_toggle() {
    let mut todo = Todo::new();
    todo.add_todo("Test task".to_string());
    todo.toggle("Test task");
    assert!(todo.tasks[0].completed);
    todo.toggle("Test task");
    assert!(!todo.tasks[0].completed);
}

#[test]
fn test_delete() {
    let mut todo = Todo::new();
    todo.add_todo("Test task 1".to_string());
    todo.add_todo("Test task 2".to_string());
    assert_eq!(todo.tasks.len(), 2);
    todo.delete("Test task 1");
    assert_eq!(todo.tasks.len(), 1);
    assert_eq!(todo.tasks[0].name, "Test task 2");
}

#[test]
fn test_clear() {
    let mut todo = Todo::new();
    todo.add_todo("Task 1".to_string());
    todo.add_todo("Task 2".to_string());
    todo.add_todo("Task 3".to_string());
    todo.toggle("Task 1");
    todo.toggle("Task 3");
    todo.clear();
    assert_eq!(todo.tasks.len(), 1);
    assert_eq!(todo.tasks[0].name, "Task 2");
}

#[test]
fn test_reset() {
    let mut todo = Todo::new();
    todo.add_todo("Task 1".to_string());
    todo.add_todo("Task 2".to_string());
    assert_eq!(todo.tasks.len(), 2);
    todo.reset();
    assert_eq!(todo.tasks.len(), 0);
}

#[test]
fn add_reports_outcome() {
    let mut todo = Todo::new();
    assert!(todo.add_todo("a".to_string()));
    assert!(!todo.add_todo("a".to_string()));
    assert!(todo.add_todo("b".to_string()));
    assert_eq!(todo.len(), 2);
}

#[test]
fn toggle_reports_new_state_or_not_found() {
    let mut todo = Todo::new();
    todo.add_todo("a".to_string());
    assert_eq!(todo.toggle("a"), Some(true));
    assert_eq!(todo.toggle("a"), Some(false));
    assert_eq!(todo.toggle("missing"), None);
}

#[test]
fn delete_reports_outcome() {
    let mut todo = Todo::new();
    todo.add_todo("a".to_string());
    assert!(todo.delete("a"));
    assert!(!todo.delete("a"));
    assert_eq!(todo.len(), 0);
}

#[test]
fn clear_counts_removed_tasks() {
    let mut todo = Todo::new();
    todo.add_todo("a".to_string());
    todo.add_todo("b".to_string());
    assert_eq!(todo.clear(), 0);
    todo.toggle("a");
    todo.toggle("b");
    assert_eq!(todo.clear(), 2);
    assert_eq!(todo.len(), 0);
}

#[test]
fn clear_keeps_relative_order() {
    let mut todo = Todo::new();
    todo.add_todo("a".to_string());
    todo.add_todo("b".to_string());
    todo.add_todo("c".to_string());
    todo.add_todo("d".to_string());
    todo.toggle("b");
    assert_eq!(todo.clear(), 1);
    let pairs = todo.list();
    assert_eq!(
        pairs,
        vec![
            ("a".to_string(), false),
            ("c".to_string(), false),
            ("d".to_string(), false)
        ]
    );
}

#[test]
fn list_follows_creation_order() {
    let mut todo = Todo::new();
    todo.add_todo("first".to_string());
    todo.add_todo("second".to_string());
    todo.toggle("first");
    let pairs = todo.list();
    assert_eq!(
        pairs,
        vec![("first".to_string(), true), ("second".to_string(), false)]
    );
}

#[test]
fn list_matches_query_after_removals() {
    let mut todo = Todo::new();
    todo.add_todo("a".to_string());
    todo.add_todo("b".to_string());
    todo.add_todo("c".to_string());
    todo.toggle("b");
    todo.delete("a");
    let pairs = todo.list();
    assert_eq!(pairs.len(), todo.len());
    assert_eq!(
        pairs,
        vec![("b".to_string(), true), ("c".to_string(), false)]
    );
    for (name, completed) in &pairs {
        assert_eq!(todo.get_status(name), Some(*completed));
    }
    assert_eq!(todo.get_status("a"), None);
}
