use todo_list::cli::UpdateTaskArgs;
use todo_list::error::TodoError;
use todo_list::task::Task;
use todo_list::todo_list::TodoList;

fn task(name: &str, description: &str, date: &str, completed: bool) -> Task {
    Task::new(
        name.to_string(),
        description.to_string(),
        date.to_string(),
        Some(completed),
    )
}

#[test]
fn add_then_find_returns_matching_fields() {
    let mut list = TodoList::new();
    list.add(task("groceries", "weekly shop", "2024-05-01", false))
        .unwrap();
    let found = list.find("groceries").expect("task should be present");
    assert_eq!(found.name, "groceries");
    assert_eq!(found.description, "weekly shop");
    assert_eq!(found.date, "2024-05-01");
    assert!(!found.completed);
}

#[test]
fn add_with_empty_date_assigns_today() {
    let mut list = TodoList::new();
    list.add(task("walk", "", "", false)).unwrap();
    let found = list.find("walk").expect("task should be present");
    assert!(found.date.len() >= 10);
    assert!(found
        .date
        .chars()
        .all(|c| c.is_ascii_digit() || c == '-' || c == '+'));
}

#[test]
fn add_duplicate_fails_and_leaves_store_unchanged() {
    let mut list = TodoList::new();
    list.add(task("a", "first", "2024-01-01", false)).unwrap();
    let err = list
        .add(task("a", "second", "2024-02-02", true))
        .unwrap_err();
    assert_eq!(err, TodoError::DuplicateTask);
    assert_eq!(list.tasks.len(), 1);
    let found = list.find("a").unwrap();
    assert_eq!(found.description, "first");
    assert_eq!(found.date, "2024-01-01");
    assert!(!found.completed);
}

#[test]
fn remove_absent_fails_and_leaves_store_unchanged() {
    let mut list = TodoList::new();
    list.add(task("a", "", "2024-01-01", false)).unwrap();
    let err = list.remove("b").unwrap_err();
    assert_eq!(err, TodoError::TaskNotFound);
    assert_eq!(list.tasks.len(), 1);
    assert!(list.find("a").is_some());
}

#[test]
fn remove_present_shrinks_by_one_and_find_is_absent() {
    let mut list = TodoList::new();
    list.add(task("a", "", "2024-01-01", false)).unwrap();
    list.add(task("b", "", "2024-01-02", false)).unwrap();
    list.remove("a").unwrap();
    assert_eq!(list.tasks.len(), 1);
    assert!(list.find("a").is_none());
    assert!(list.find("b").is_some());
}

#[test]
fn complete_sets_flag_and_uncomplete_restores_it() {
    let mut list = TodoList::new();
    list.add(task("a", "desc", "2024-01-01", false)).unwrap();
    list.add(task("b", "", "2024-01-02", false)).unwrap();
    list.complete("a").unwrap();
    let done = list.find("a").unwrap();
    assert!(done.completed);
    assert_eq!(done.description, "desc");
    list.uncomplete("a").unwrap();
    let back = list.find("a").unwrap();
    assert!(!back.completed);
    assert_eq!(back.name, "a");
    assert_eq!(back.description, "desc");
    assert_eq!(back.date, "2024-01-01");
    assert_eq!(list.tasks.len(), 2);
}

#[test]
fn complete_absent_fails() {
    let mut list = TodoList::new();
    let err = list.complete("nope").unwrap_err();
    assert_eq!(err, TodoError::TaskNotFound);
    let err = list.uncomplete("nope").unwrap_err();
    assert_eq!(err, TodoError::TaskNotFound);
}

fn empty_patch(name: &str) -> UpdateTaskArgs {
    UpdateTaskArgs {
        name: name.to_string(),
        new_name: None,
        description: None,
        date: None,
        completed: None,
    }
}

#[test]
fn update_with_no_fields_fails_with_invalid_state() {
    let mut list = TodoList::new();
    list.add(task("a", "", "2024-01-01", false)).unwrap();
    let err = list.update("a", empty_patch("a")).unwrap_err();
    assert_eq!(err, TodoError::InvalidTaskState);
    assert_eq!(list.tasks.len(), 1);
}

#[test]
fn update_changes_exactly_the_given_field() {
    let mut list = TodoList::new();
    list.add(task("a", "old", "2024-01-01", false)).unwrap();
    let mut patch = empty_patch("a");
    patch.description = Some("new".to_string());
    list.update("a", patch).unwrap();
    let found = list.find("a").unwrap();
    assert_eq!(found.name, "a");
    assert_eq!(found.description, "new");
    assert_eq!(found.date, "2024-01-01");
    assert!(!found.completed);
}

#[test]
fn update_absent_fails_with_task_not_found() {
    let mut list = TodoList::new();
    let mut patch = empty_patch("ghost");
    patch.completed = Some(true);
    let err = list.update("ghost", patch).unwrap_err();
    assert_eq!(err, TodoError::TaskNotFound);
}

#[test]
fn update_rename_collision_is_rejected() {
    let mut list = TodoList::new();
    list.add(task("a", "", "2024-01-01", false)).unwrap();
    list.add(task("b", "", "2024-01-02", false)).unwrap();
    let mut patch = empty_patch("a");
    patch.new_name = Some("b".to_string());
    let err = list.update("a", patch).unwrap_err();
    assert_eq!(err, TodoError::DuplicateTask);
    assert_eq!(list.tasks.len(), 2);
    assert_eq!(list.find("a").unwrap().date, "2024-01-01");
}

#[test]
fn update_rename_to_fresh_name_moves_the_record() {
    let mut list = TodoList::new();
    list.add(task("a", "text", "2024-01-01", false)).unwrap();
    let mut patch = empty_patch("a");
    patch.new_name = Some("c".to_string());
    let returned = list.update("a", patch).unwrap();
    assert!(list.find("a").is_none());
    let found = list.find("c").unwrap();
    assert_eq!(found.description, "text");
    assert_eq!(returned.tasks.len(), list.tasks.len());
}

#[test]
fn clear_completed_keeps_only_active_tasks() {
    let mut list = TodoList::new();
    list.add(task("a", "", "2024-01-01", true)).unwrap();
    list.add(task("b", "", "2024-01-02", false)).unwrap();
    list.add(task("c", "", "2024-01-03", true)).unwrap();
    list.clear_completed();
    assert_eq!(list.tasks.len(), 1);
    assert!(list.find("b").is_some());
}

#[test]
fn clear_all_empties_the_store() {
    let mut list = TodoList::new();
    list.add(task("a", "", "2024-01-01", false)).unwrap();
    list.add(task("b", "", "2024-01-02", false)).unwrap();
    list.clear_all();
    assert_eq!(list.tasks.len(), 0);
    assert!(list.find("a").is_none());
}

#[test]
fn push_and_retain_follow_their_contracts() {
    let mut list = TodoList::new();
    list.push(task("a", "", "2024-01-01", false));
    list.push(task("a", "", "2024-02-02", false));
    list.push(task("b", "", "2024-03-03", false));
    assert_eq!(list.tasks.len(), 3);
    list.retain("a");
    assert_eq!(list.tasks.len(), 1);
    assert_eq!(list.tasks[0].name, "b");
}

#[test]
fn render_matches_the_canonical_line_format() {
    let open = task("buy milk", "", "2024-05-01", false);
    assert_eq!(open.render(), "[ ] buy milk -  - 2024-05-01");
    let done = task("buy milk", "2%", "2024-05-01", true);
    assert_eq!(done.render(), "[x] buy milk - 2% - 2024-05-01");
}

#[test]
fn status_text_names_the_task_and_its_state() {
    let open = task("a", "", "2024-05-01", false);
    assert_eq!(open.status_text(), "Task \"a\" is uncompleted");
    let done = task("a", "", "2024-05-01", true);
    assert_eq!(done.status_text(), "Task \"a\" is completed");
}

#[test]
fn render_lines_lists_tasks_in_store_order() {
    let mut list = TodoList::new();
    list.add(task("z", "", "2024-09-09", false)).unwrap();
    list.add(task("a", "", "2024-01-01", true)).unwrap();
    let lines = list.render_lines();
    assert_eq!(lines.len(), 2);
    assert_eq!(lines[0], "[ ] z -  - 2024-09-09");
    assert_eq!(lines[1], "[x] a -  - 2024-01-01");
}

#[test]
fn error_messages_match_their_taxonomy() {
    assert_eq!(TodoError::TaskNotFound.message(), "Task not found");
    assert_eq!(TodoError::InvalidTaskState.message(), "Invalid task state");
    assert_eq!(TodoError::DuplicateTask.message(), "Duplicate task");
    assert_eq!(
        TodoError::Io("denied".to_string()).message(),
        "IO error: denied"
    );
    assert_eq!(
        TodoError::Serialization("bad json".to_string()).message(),
        "JSON serialization/deserialization error: bad json"
    );
}

#[test]
fn view_scenario_prints_the_new_task_line() {
    // Starting from an empty store, adding "buy milk" with no description
    // and no date, then viewing, shows the line with today's date.
    let mut list = TodoList::new();
    list.add(Task::new(
        "buy milk".to_string(),
        String::new(),
        String::new(),
        None,
    ))
    .unwrap();
    let today = list.find("buy milk").unwrap().date.clone();
    let lines = list.render_lines();
    assert_eq!(lines.len(), 1);
    assert_eq!(lines[0], format!("[ ] buy milk -  - {}", today));
}
