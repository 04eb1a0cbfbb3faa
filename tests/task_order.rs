use synthia_core::tasks::{numeric_id_of, sort_tasks_by_id, Task};

fn task(id: &str, subject: &str) -> Task {
    Task {
        id: id.to_string(),
        subject: subject.to_string(),
        status: "pending".to_string(),
        active_form: None,
        blocked_by: Vec::new(),
    }
}

fn ids(ts: &[Task]) -> Vec<String> {
    ts.iter().map(|t| t.id.clone()).collect()
}

#[test]
fn tasks_sort_numerically_not_lexically() {
    let sorted = sort_tasks_by_id(vec![task("10", "a"), task("1", "b"), task("2", "c")]);
    assert_eq!(ids(&sorted), vec!["1", "2", "10"]);
}

#[test]
fn non_numeric_ids_sort_as_zero_and_keep_their_order() {
    let sorted = sort_tasks_by_id(vec![task("3", "a"), task("abc", "b"), task("0", "c"), task("x", "d")]);
    assert_eq!(ids(&sorted), vec!["abc", "0", "x", "3"]);
}

#[test]
fn sorting_keeps_every_task() {
    let sorted = sort_tasks_by_id(vec![task("5", "five"), task("5", "again"), task("4", "four")]);
    let subjects: Vec<String> = sorted.iter().map(|t| t.subject.clone()).collect();
    assert_eq!(subjects, vec!["four", "five", "again"]);
    assert!(sort_tasks_by_id(Vec::new()).is_empty());
}

#[test]
fn numeric_id_values() {
    assert_eq!(numeric_id_of("42"), 42);
    assert_eq!(numeric_id_of("007"), 7);
    assert_eq!(numeric_id_of(""), 0);
    assert_eq!(numeric_id_of("4a"), 0);
    assert_eq!(numeric_id_of("-1"), 0);
    assert_eq!(numeric_id_of("4294967296"), 0);
    assert_eq!(numeric_id_of("4294967295"), 4294967295);
}
