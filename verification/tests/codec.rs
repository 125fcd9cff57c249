use todo_list::codec::{from_json, to_json};
use todo_list::sort::sort_by_date;
use todo_list::task::Task;
use todo_list::todo_list::TodoList;

fn task(name: &str, description: &str, date: &str, completed: bool) -> Task {
    Task::new(
        name.to_string(),
        description.to_string(),
        date.to_string(),
        Some(completed),
    )
}

#[test]
fn empty_store_encodes_as_empty_array() {
    let tasks: Vec<Task> = Vec::new();
    assert_eq!(to_json(&tasks), "[]");
}

#[test]
fn one_task_encodes_as_pretty_printed_object() {
    let tasks = vec![task("a", "text", "2024-01-01", false)];
    let expected = "[\n  {\n    \"name\": \"a\",\n    \"description\": \"text\",\n    \"date\": \"2024-01-01\",\n    \"completed\": false\n  }\n]";
    assert_eq!(to_json(&tasks), expected);
}

#[test]
fn encoding_matches_serde_json_pretty_printing() {
    let tasks = vec![
        task("a", "text", "2024-01-01", false),
        task("b \"quoted\"", "back\\slash", "2024-02-02", true),
    ];
    let ours = to_json(&tasks);
    let value: serde_json::Value = serde_json::from_str(&ours).expect("output must be valid JSON");
    let arr = value.as_array().expect("output must be an array");
    assert_eq!(arr.len(), 2);
    assert_eq!(arr[0].get("name").unwrap().as_str().unwrap(), "a");
    assert_eq!(
        arr[1].get("name").unwrap().as_str().unwrap(),
        "b \"quoted\""
    );
    assert_eq!(
        arr[1].get("description").unwrap().as_str().unwrap(),
        "back\\slash"
    );
    assert_eq!(arr[1].get("completed").unwrap().as_bool().unwrap(), true);
    assert_eq!(arr[0].get("date").unwrap().as_str().unwrap(), "2024-01-01");
}

#[test]
fn parsing_undoes_encoding() {
    let tasks = vec![
        task("plain", "words", "2024-01-01", false),
        task("quo\"te", "esc\\ape", "2024-02-02", true),
        task("", "", "", false),
    ];
    let text = to_json(&tasks);
    let list = from_json(&text).expect("own encoding must parse");
    assert_eq!(list.tasks.len(), 3);
    for (a, b) in tasks.iter().zip(list.tasks.iter()) {
        assert_eq!(a.name, b.name);
        assert_eq!(a.description, b.description);
        assert_eq!(a.date, b.date);
        assert_eq!(a.completed, b.completed);
    }
}

#[test]
fn empty_array_parses_as_empty_store() {
    let list = from_json("[]").expect("the empty array is well-formed");
    assert_eq!(list.tasks.len(), 0);
}

#[test]
fn corrupt_text_is_rejected() {
    assert!(from_json("").is_none());
    assert!(from_json("{}").is_none());
    assert!(from_json("[").is_none());
    assert!(from_json("not json at all").is_none());
    assert!(from_json("[\n  {\n    \"name\": \"a\"\n  }\n]").is_none());
}

#[test]
fn save_string_sorts_ascending_by_date() {
    let mut list = TodoList::new();
    list.add(task("late", "", "2024-09-09", false)).unwrap();
    list.add(task("early", "", "2024-01-01", false)).unwrap();
    list.add(task("middle", "", "2024-05-05", true)).unwrap();
    let text = list.save_string();
    let reloaded = from_json(&text).expect("saved text must parse");
    let names: Vec<&str> = reloaded.tasks.iter().map(|t| t.name.as_str()).collect();
    assert_eq!(names, vec!["early", "middle", "late"]);
    let mut dates: Vec<String> = reloaded.tasks.iter().map(|t| t.date.clone()).collect();
    let original = dates.clone();
    dates.sort();
    assert_eq!(dates, original);
}

#[test]
fn sort_by_date_is_stable_on_equal_dates() {
    let tasks = vec![
        task("second", "", "2024-01-02", false),
        task("first-tie", "", "2024-01-01", false),
        task("second-tie", "", "2024-01-01", false),
    ];
    let sorted = sort_by_date(tasks);
    let names: Vec<&str> = sorted.iter().map(|t| t.name.as_str()).collect();
    assert_eq!(names, vec!["first-tie", "second-tie", "second"]);
}

#[test]
fn saving_after_duplicate_add_keeps_one_record() {
    // Adding "a" twice leaves the saved file with exactly one task named "a".
    let mut list = TodoList::new();
    list.add(task("a", "first", "2024-01-01", false)).unwrap();
    assert!(list.add(task("a", "second", "2024-02-02", false)).is_err());
    let text = list.save_string();
    let reloaded = from_json(&text).unwrap();
    let matching: Vec<&Task> = reloaded.tasks.iter().filter(|t| t.name == "a").collect();
    assert_eq!(matching.len(), 1);
    assert_eq!(matching[0].description, "first");
}

#[test]
fn clear_all_saves_an_empty_array() {
    // Clearing a three-task store leaves the backing text as "[]".
    let mut list = TodoList::new();
    list.add(task("a", "", "2024-01-01", false)).unwrap();
    list.add(task("b", "", "2024-01-02", false)).unwrap();
    list.add(task("c", "", "2024-01-03", true)).unwrap();
    list.clear_all();
    assert_eq!(list.save_string(), "[]");
}

#[test]
fn round_trip_after_save_preserves_the_task_set() {
    let mut list = TodoList::new();
    list.add(task("b", "two", "2024-02-02", true)).unwrap();
    list.add(task("a", "one", "2024-01-01", false)).unwrap();
    let reloaded = from_json(&list.save_string()).unwrap();
    assert_eq!(reloaded.tasks.len(), 2);
    for t in list.tasks.iter() {
        let found = reloaded.find(&t.name).expect("every task survives");
        assert_eq!(found.description, t.description);
        assert_eq!(found.date, t.date);
        assert_eq!(found.completed, t.completed);
    }
}
