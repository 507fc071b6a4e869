use minipaw::sql::{
    delete_fact, insert_message, insert_task, insert_tool_run, select_fact, select_messages,
    select_task, sql_quote, status_from_db, transcript, update_status, upsert_fact,
};
use minipaw::types::{Task, TaskId, TaskStatus, ToolResult};

#[test]
fn literals_double_their_quotes() {
    assert_eq!(sql_quote("it's"), "'it''s'");
    assert_eq!(sql_quote(""), "''");
}

#[test]
fn statuses_read_back() {
    for status in [
        TaskStatus::New,
        TaskStatus::Running,
        TaskStatus::Waiting,
        TaskStatus::Done,
        TaskStatus::Failed,
    ] {
        assert_eq!(status_from_db(status.label()), status);
    }
    assert_eq!(status_from_db("other"), TaskStatus::New);
}

#[test]
fn statements_quote_their_texts() {
    let task = Task {
        id: TaskId(7),
        title: "a'b".into(),
        status: TaskStatus::New,
        created_at: 1,
        updated_at: 2,
    };
    assert!(insert_task(&task).contains("'a''b'"));
    assert!(update_status(TaskId(7), TaskStatus::Done, 3).contains("'done'"));
    assert!(select_task(TaskId(7)).contains('7'));
    assert!(insert_message(TaskId(7), "user", "x'y", 3).contains("'x''y'"));
    let run = ToolResult { name: "n".into(), ok: true, output: "o'o".into() };
    assert!(insert_tool_run(TaskId(7), &run, 3).contains("'o''o'"));
    assert!(upsert_fact("k'", "v'", 3).contains("'k'''"));
    assert!(delete_fact("k'").contains("'k'''"));
    assert!(select_fact("k'").contains("'k'''"));
    assert!(select_messages(TaskId(7)).contains('7'));
}

#[test]
fn transcripts_are_capped() {
    let rows = vec![("user".to_owned(), "x".to_owned()), ("exec".to_owned(), "y".to_owned())];
    assert_eq!(transcript(&rows, 100), "user: x\nexec: y");
    assert_eq!(transcript(&rows, 5), "user:...");
}
