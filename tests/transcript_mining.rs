use synthia_core::transcript::{classify_line, mine_completed_tasks, LineEvent};

const CREATE: &str = r#"{"type":"assistant","message":{"content":[{"type":"tool_use","name":"TaskCreate","input":{"subject": "write tests","description":"cover the parser"}}]}}"#;
const RESULT_7: &str = r#"{"type":"user","message":{"content":[{"type":"tool_result","content":"created"}]},"toolUseResult":{"task":{"id": "7"}}}"#;
const UPDATE_7: &str = r#"{"type":"assistant","message":{"content":[{"type":"tool_use","name":"TaskUpdate","input":{"taskId": "7", "status": "completed"}}]}}"#;

#[test]
fn created_result_and_update_give_one_completed_task() {
    let text = [CREATE, RESULT_7, UPDATE_7].join("\n");
    let tasks = mine_completed_tasks(&text);
    assert_eq!(tasks.len(), 1);
    assert_eq!(tasks[0].id, "7");
    assert_eq!(tasks[0].subject, "write tests");
    assert_eq!(tasks[0].status, "completed");
    assert!(tasks[0].active_form.is_none());
    assert!(tasks[0].blocked_by.is_empty());
}

#[test]
fn empty_transcript_gives_no_task() {
    assert!(mine_completed_tasks("").is_empty());
    assert!(mine_completed_tasks("\n\n").is_empty());
}

#[test]
fn unfinished_tasks_are_left_out() {
    let text = [CREATE, RESULT_7].join("\n");
    assert!(mine_completed_tasks(&text).is_empty());
}

#[test]
fn later_status_supersedes_earlier() {
    let back = r#"{"name":"TaskUpdate","input":{"taskId":"7","status":"in_progress"}}"#;
    let text = [CREATE, RESULT_7, UPDATE_7, back].join("\n");
    assert!(mine_completed_tasks(&text).is_empty());
}

#[test]
fn id_goes_to_the_latest_task_without_one() {
    let a = r#"{"name":"TaskCreate","input":{"subject":"first"}}"#;
    let b = r#"{"name":"TaskCreate","input":{"subject":"second"}}"#;
    let r = r#"{"type":"tool_result","id":"3"}"#;
    let done = r#"{"name":"TaskUpdate","input":{"taskId":"3","status":"completed"}}"#;
    let done0 = r#"{"name":"TaskUpdate","input":{"taskId":"new_0","status":"completed"}}"#;
    let text = [a, b, r, done, done0].join("\n");
    let tasks = mine_completed_tasks(&text);
    assert_eq!(tasks.len(), 2);
    assert_eq!(tasks[0].id, "new_0");
    assert_eq!(tasks[0].subject, "first");
    assert_eq!(tasks[1].id, "3");
    assert_eq!(tasks[1].subject, "second");
}

#[test]
fn creation_with_an_id_needs_no_result() {
    let a = r#"{"name":"TaskCreate","input":{"subject":"ten"},"id":"10"}"#;
    let b = r#"{"name":"TaskCreate","input":{"subject":"two"},"id":"2"}"#;
    let d10 = r#"{"name":"TaskUpdate","input":{"taskId":"10","status":"completed"}}"#;
    let d2 = r#"{"name":"TaskUpdate","input":{"taskId":"2","status":"completed"}}"#;
    let text = [a, b, d10, d2].join("\n");
    let tasks = mine_completed_tasks(&text);
    let ids: Vec<&str> = tasks.iter().map(|t| t.id.as_str()).collect();
    assert_eq!(ids, vec!["2", "10"]);
}

#[test]
fn update_of_unknown_task_is_ignored() {
    let text = [UPDATE_7].join("\n");
    assert!(mine_completed_tasks(&text).is_empty());
}

#[test]
fn lines_are_classified() {
    match classify_line(CREATE) {
        LineEvent::Created { subject, id } => {
            assert_eq!(subject, "write tests");
            assert!(id.is_none());
        }
        _ => panic!("expected a creation"),
    }
    match classify_line(UPDATE_7) {
        LineEvent::Updated { task_id, status } => {
            assert_eq!(task_id, "7");
            assert_eq!(status, "completed");
        }
        _ => panic!("expected an update"),
    }
    match classify_line(RESULT_7) {
        LineEvent::IdAssigned { permanent_id } => assert_eq!(permanent_id, "7"),
        _ => panic!("expected an id"),
    }
    assert!(matches!(classify_line("plain text"), LineEvent::Other));
    assert!(matches!(classify_line(r#"{"name":"TaskCreate"}"#), LineEvent::Other));
    assert!(matches!(classify_line(r#"{"name":"TaskUpdate","input":{"taskId":"1"}}"#), LineEvent::Other));
}
