use minipaw::memory::{cap_bytes, cap_chars, relevance, InMemoryStore, MemoryStore};
use minipaw::types::{TaskId, TaskStatus, ToolResult};

#[test]
fn progressive_memory_loads_index_then_relevant_details() {
    let mut store = InMemoryStore::new(16);
    let task = store.create_task("remember sqlite setup for durable memory");
    store.append_message(task.id, "user", "sqlite needs libsqlite3-dev on Debian");
    store.append_message(task.id, "assistant", "install libsqlite3-dev and build");
    store.set_fact("model", "qwen9b");

    let memory = store.progressive_memory("sqlite durable memory", 4, 2, 64);

    assert!(!memory.index.is_empty());
    assert!(memory.index[0].summary.contains("sqlite"));
    assert!(memory.details.len() <= 2);
    assert!(memory.render().contains("Memory index:"));
    assert!(memory.render().contains("Selected memory details:"));
}

#[test]
fn memory_detail_respects_byte_budget() {
    let mut store = InMemoryStore::new(4);
    let task = store.create_task("long task");
    store.append_message(task.id, "assistant", "abcdefghijklmnopqrstuvwxyz");

    let detail = store.memory_detail("msg:1:0", 8).unwrap();

    assert!(detail.body.len() <= 11);
    assert!(detail.body.ends_with("..."));
}

#[test]
fn facts_read_back_until_deleted() {
    let mut store = InMemoryStore::new(4);
    assert_eq!(store.get_fact("k"), None);
    store.set_fact("k", "v");
    store.set_fact("l", "w");
    assert_eq!(store.get_fact("k").as_deref(), Some("v"));
    store.set_fact("k", "x");
    assert_eq!(store.get_fact("k").as_deref(), Some("x"));
    store.delete_fact("k");
    assert_eq!(store.get_fact("k"), None);
    assert_eq!(store.get_fact("l").as_deref(), Some("w"));
    assert_eq!(store.memory_detail("fact:l", 99).unwrap().body, "l=w");
    assert!(store.memory_detail("fact:k", 99).is_none());
    assert!(store.memory_detail("nothing", 99).is_none());
}

#[test]
fn records_are_limited() {
    let mut store = InMemoryStore::new(2);
    let task = store.create_task("t");
    for body in ["a", "b", "c"] {
        store.append_message(task.id, "user", body);
        store.append_tool_result(
            task.id,
            &ToolResult { name: "n".into(), ok: true, output: body.into() },
        );
    }
    assert_eq!(store.message_count(), 2);
    assert_eq!(store.tool_result_count(), 2);
    assert_eq!(store.last_message(), Some((task.id, "user", "c")));
    assert_eq!(store.last_tool_result().unwrap().1.output, "c");
    assert_eq!(store.memory_detail("msg:1:0", 19).unwrap().body, "t1 user: b");
}

#[test]
fn tasks_are_numbered_and_updated() {
    let mut store = InMemoryStore::new(2);
    let first = store.create_task("one");
    let second = store.create_task("two");
    assert_eq!((first.id, second.id), (TaskId(1), TaskId(2)));
    assert_eq!(second.status, TaskStatus::New);
    store.update_task_status(first.id, TaskStatus::Done);
    assert_eq!(store.get_task(first.id).unwrap().status, TaskStatus::Done);
    assert_eq!(store.get_task(second.id).unwrap().status, TaskStatus::New);
    assert!(store.get_task(TaskId(3)).is_none());
    assert_eq!(store.list_tasks().len(), 2);
}

#[test]
fn context_is_the_transcript_of_a_task() {
    let mut store = InMemoryStore::new(8);
    let a = store.create_task("a");
    let b = store.create_task("b");
    store.append_message(a.id, "user", "x");
    store.append_message(b.id, "user", "y");
    store.append_message(a.id, "assistant", "z");
    let context = store.task_context(a.id, 100);
    assert_eq!(context, "user: x\nassistant: z");
    assert_eq!(store.task_context(a.id, 7), "user: x...");
}

#[test]
fn relevance_counts_query_words() {
    assert_eq!(relevance("sqlite durable memory", "no such thing"), 1);
    assert_eq!(relevance("SQLite memory, an", "an sqlite"), 10);
    assert_eq!(relevance("sqlite memory", "sqlitememory"), 20);
}

#[test]
fn caps_keep_whole_characters() {
    assert_eq!(cap_bytes("aéb", 2), "a...");
    assert_eq!(cap_bytes("aéb", 4), "aéb");
    assert_eq!(cap_chars("aéb", 3), "aéb");
    assert_eq!(cap_chars("aéb", 2), "aé...");
}

#[test]
fn index_is_ranked_by_score_and_then_by_name() {
    let mut store = InMemoryStore::new(8);
    let first = store.create_task("sqlite setup");
    store.create_task("other");
    store.append_message(first.id, "user", "sqlite durable");
    store.set_fact("a", "nothing");
    let index = store.memory_index("sqlite durable", 3);
    let ranked: Vec<(u16, &str)> = index.iter().map(|e| (e.score, e.id.as_str())).collect();
    assert_eq!(ranked, vec![(20, "msg:1:0"), (10, "task:1"), (1, "task:2")]);
    assert_eq!(index[0].kind, "message/user");
    assert_eq!(index[1].summary, "sqlite setup [new]");
    assert_eq!(index[1].bytes, 12);
}
