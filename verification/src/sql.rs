//! The statements of a store that is kept in SQLite.
use vstd::prelude::*;

use crate::chars;
use crate::memory::cap_bytes;
use crate::numbers;
use crate::text;
use crate::types::{Task, TaskId, TaskStatus, ToolResult};

verus! {

/// The tables.
pub const SCHEMA: &'static str = "CREATE TABLE IF NOT EXISTS tasks(
                    id INTEGER PRIMARY KEY,
                    status TEXT NOT NULL,
                    created_at INTEGER NOT NULL,
                    updated_at INTEGER NOT NULL,
                    title TEXT NOT NULL
                );
                CREATE TABLE IF NOT EXISTS messages(
                    id INTEGER PRIMARY KEY AUTOINCREMENT,
                    task_id INTEGER NOT NULL,
                    role TEXT NOT NULL,
                    body TEXT NOT NULL,
                    created_at INTEGER NOT NULL
                );
                CREATE TABLE IF NOT EXISTS tool_runs(
                    id INTEGER PRIMARY KEY AUTOINCREMENT,
                    task_id INTEGER NOT NULL,
                    tool TEXT NOT NULL,
                    ok INTEGER NOT NULL,
                    output TEXT NOT NULL,
                    created_at INTEGER NOT NULL
                );
                CREATE TABLE IF NOT EXISTS facts(
                    key TEXT PRIMARY KEY,
                    value TEXT NOT NULL,
                    updated_at INTEGER NOT NULL
                );";

/// The task with the greatest number.
pub const LAST_TASK: &'static str =
    "SELECT id, status, created_at, updated_at, title FROM tasks ORDER BY id DESC LIMIT 1";

/// All tasks in the order of their numbers.
pub const ALL_TASKS: &'static str =
    "SELECT id, status, created_at, updated_at, title FROM tasks ORDER BY id ASC";

/// A text without its NUL characters and with its quotes doubled.
pub open spec fn doubled(s: Seq<char>) -> Seq<char> {
    chars::replace_char(chars::replace_char(s, '\0', ""@), '\'', "''"@)
}

/// A text as an SQL literal.
pub open spec fn literal(s: Seq<char>) -> Seq<char> {
    "'"@ + doubled(s) + "'"@
}

/// A text as an SQL literal.
pub fn sql_quote(value: &str) -> (r: String)
    ensures
        r@ == literal(value@),
{
    let clean = text::replace_char(value, '\0', "");
    let escaped = text::replace_char(clean.as_str(), '\'', "''");
    let mut out = "'".to_owned();
    out.append(escaped.as_str());
    out.append("'");
    out
}

/// The status under a name in the database, `New` for any other.
pub open spec fn status_named(v: Seq<char>) -> TaskStatus {
    if v == "running"@ {
        TaskStatus::Running
    } else if v == "waiting"@ {
        TaskStatus::Waiting
    } else if v == "done"@ {
        TaskStatus::Done
    } else if v == "failed"@ {
        TaskStatus::Failed
    } else {
        TaskStatus::New
    }
}

pub fn status_from_db(v: &str) -> (r: TaskStatus)
    ensures
        r == status_named(v@),
{
    if text::same(v, "running") {
        TaskStatus::Running
    } else if text::same(v, "waiting") {
        TaskStatus::Waiting
    } else if text::same(v, "done") {
        TaskStatus::Done
    } else if text::same(v, "failed") {
        TaskStatus::Failed
    } else {
        TaskStatus::New
    }
}

/// The statement that keeps a new task.
pub fn insert_task(task: &Task) -> (r: String)
    ensures
        r@ == "INSERT INTO tasks(id, status, created_at, updated_at, title)\n                 VALUES("@
            + numbers::decimal(task.id.0 as nat) + ", 'new', "@ + numbers::decimal(
            task.created_at as nat,
        ) + ", "@ + numbers::decimal(task.updated_at as nat) + ", "@ + literal(task.title@)
            + ");"@,
{
    let mut out =
        "INSERT INTO tasks(id, status, created_at, updated_at, title)\n                 VALUES(".to_owned();
    out.append(numbers::decimal_of(task.id.0).as_str());
    out.append(", 'new', ");
    out.append(numbers::decimal_of(task.created_at).as_str());
    out.append(", ");
    out.append(numbers::decimal_of(task.updated_at).as_str());
    out.append(", ");
    out.append(sql_quote(task.title.as_str()).as_str());
    out.append(");");
    out
}

/// The statement that sets a task's status.
pub fn update_status(id: TaskId, status: TaskStatus, now: u64) -> (r: String)
    ensures
        r@ == "UPDATE tasks SET status="@ + literal(status.name()) + ", updated_at="@
            + numbers::decimal(now as nat) + " WHERE id="@ + numbers::decimal(id.0 as nat) + ";"@,
{
    let mut out = "UPDATE tasks SET status=".to_owned();
    out.append(sql_quote(status.label()).as_str());
    out.append(", updated_at=");
    out.append(numbers::decimal_of(now).as_str());
    out.append(" WHERE id=");
    out.append(numbers::decimal_of(id.0).as_str());
    out.append(";");
    out
}

/// The statement that reads a task.
pub fn select_task(id: TaskId) -> (r: String)
    ensures
        r@ == "SELECT id, status, created_at, updated_at, title FROM tasks WHERE id="@
            + numbers::decimal(id.0 as nat) + " LIMIT 1"@,
{
    let mut out =
        "SELECT id, status, created_at, updated_at, title FROM tasks WHERE id=".to_owned();
    out.append(numbers::decimal_of(id.0).as_str());
    out.append(" LIMIT 1");
    out
}

/// The statement that keeps a message.
pub fn insert_message(task_id: TaskId, role: &str, body: &str, now: u64) -> (r: String)
    ensures
        r@ == "INSERT INTO messages(task_id, role, body, created_at) VALUES("@
            + numbers::decimal(task_id.0 as nat) + ", "@ + literal(role@) + ", "@ + literal(body@)
            + ", "@ + numbers::decimal(now as nat) + ");"@,
{
    let mut out = "INSERT INTO messages(task_id, role, body, created_at) VALUES(".to_owned();
    out.append(numbers::decimal_of(task_id.0).as_str());
    out.append(", ");
    out.append(sql_quote(role).as_str());
    out.append(", ");
    out.append(sql_quote(body).as_str());
    out.append(", ");
    out.append(numbers::decimal_of(now).as_str());
    out.append(");");
    out
}

/// The statement that keeps a tool result.
pub fn insert_tool_run(task_id: TaskId, result: &ToolResult, now: u64) -> (r: String)
    ensures
        r@ == "INSERT INTO tool_runs(task_id, tool, ok, output, created_at)\n                 VALUES("@
            + numbers::decimal(task_id.0 as nat) + ", "@ + literal(result@.name) + ", "@ + (
        if result@.ok {
            "1"@
        } else {
            "0"@
        }) + ", "@ + literal(result@.output) + ", "@ + numbers::decimal(now as nat) + ");"@,
{
    let mut out =
        "INSERT INTO tool_runs(task_id, tool, ok, output, created_at)\n                 VALUES(".to_owned();
    out.append(numbers::decimal_of(task_id.0).as_str());
    out.append(", ");
    out.append(sql_quote(result.name.as_str()).as_str());
    out.append(", ");
    if result.ok {
        out.append("1");
    } else {
        out.append("0");
    }
    out.append(", ");
    out.append(sql_quote(result.output.as_str()).as_str());
    out.append(", ");
    out.append(numbers::decimal_of(now).as_str());
    out.append(");");
    out
}

/// The statement that sets a fact.
pub fn upsert_fact(key: &str, value: &str, now: u64) -> (r: String)
    ensures
        r@ == "INSERT INTO facts(key, value, updated_at) VALUES("@ + literal(key@) + ", "@
            + literal(value@) + ", "@ + numbers::decimal(now as nat)
            + ")\n                 ON CONFLICT(key) DO UPDATE SET value=excluded.value, updated_at=excluded.updated_at;"@,
{
    let mut out = "INSERT INTO facts(key, value, updated_at) VALUES(".to_owned();
    out.append(sql_quote(key).as_str());
    out.append(", ");
    out.append(sql_quote(value).as_str());
    out.append(", ");
    out.append(numbers::decimal_of(now).as_str());
    out.append(
        ")\n                 ON CONFLICT(key) DO UPDATE SET value=excluded.value, updated_at=excluded.updated_at;",
    );
    out
}

/// The statement that deletes a fact.
pub fn delete_fact(key: &str) -> (r: String)
    ensures
        r@ == "DELETE FROM facts WHERE key="@ + literal(key@) + ";"@,
{
    let mut out = "DELETE FROM facts WHERE key=".to_owned();
    out.append(sql_quote(key).as_str());
    out.append(";");
    out
}

/// The statement that reads a fact.
pub fn select_fact(key: &str) -> (r: String)
    ensures
        r@ == "SELECT value FROM facts WHERE key="@ + literal(key@) + " LIMIT 1"@,
{
    let mut out = "SELECT value FROM facts WHERE key=".to_owned();
    out.append(sql_quote(key).as_str());
    out.append(" LIMIT 1");
    out
}

/// The statement that reads the messages of a task.
pub fn select_messages(task_id: TaskId) -> (r: String)
    ensures
        r@ == "SELECT role, body FROM messages WHERE task_id="@ + numbers::decimal(
            task_id.0 as nat,
        ) + " ORDER BY id ASC"@,
{
    let mut out = "SELECT role, body FROM messages WHERE task_id=".to_owned();
    out.append(numbers::decimal_of(task_id.0).as_str());
    out.append(" ORDER BY id ASC");
    out
}

/// Rows of messages as lines `role: body`.
pub open spec fn row_lines(rows: Seq<(String, String)>) -> Seq<Seq<char>> {
    rows.map_values(|r: (String, String)| r.0@ + ": "@ + r.1@)
}

/// The transcript of rows of messages under a byte budget.
pub fn transcript(rows: &Vec<(String, String)>, max_bytes: usize) -> (r: String)
    ensures
        r@ == chars::capped(chars::join(row_lines(rows@), "\n"@), max_bytes as nat, "..."@),
{
    let ghost want = row_lines(rows@);
    let mut lines: Vec<String> = Vec::new();
    let mut i: usize = 0;
    assert(chars::owned_texts(lines@) =~= want.take(0));
    while i < rows.len()
        invariant
            i <= rows.len(),
            want == row_lines(rows@),
            chars::owned_texts(lines@) == want.take(i as int),
        decreases rows.len() - i,
    {
        let ghost before = chars::owned_texts(lines@);
        let mut line = rows[i].0.clone();
        line.append(": ");
        line.append(rows[i].1.as_str());
        lines.push(line);
        assert(chars::owned_texts(lines@) =~= before.push(want[i as int]));
        assert(want.take(i + 1) =~= before.push(want[i as int]));
        i += 1;
    }
    assert(want.take(i as int) =~= want);
    cap_bytes(text::join_owned(&lines, "\n").as_str(), max_bytes)
}

// ---------------------------------------------------------------------------
// Laws
// ---------------------------------------------------------------------------

/// The value of a literal that was entered behind its opening quote, and what
/// follows its closing quote: a doubled quote stands for one, and a single one
/// closes the literal.
pub open spec fn literal_value(s: Seq<char>) -> Option<(Seq<char>, Seq<char>)>
    decreases s.len(),
{
    if s.len() == 0 {
        None
    } else if s[0] == '\'' {
        if s.len() > 1 && s[1] == '\'' {
            match literal_value(s.skip(2)) {
                Some((v, rest)) => Some((seq!['\''] + v, rest)),
                None => None,
            }
        } else {
            Some((seq![], s.skip(1)))
        }
    } else {
        match literal_value(s.skip(1)) {
            Some((v, rest)) => Some((seq![s[0]] + v, rest)),
            None => None,
        }
    }
}

/// A text without its NUL characters.
pub open spec fn without_nul(s: Seq<char>) -> Seq<char> {
    chars::replace_char(s, '\0', ""@)
}

proof fn lemma_doubled_cons(c: char, s: Seq<char>)
    ensures
        chars::replace_char(seq![c] + s, '\'', "''"@) == (if c == '\'' {
            "''"@
        } else {
            seq![c]
        }) + chars::replace_char(s, '\'', "''"@),
    decreases s.len(),
{
    let t = seq![c] + s;
    let head = if c == '\'' {
        "''"@
    } else {
        seq![c]
    };
    if s.len() == 0 {
        assert(t.drop_last() =~= seq![]);
        assert(s =~= seq![]);
        assert(chars::replace_char(t.drop_last(), '\'', "''"@) =~= seq![]);
        assert(chars::replace_char(t, '\'', "''"@) =~= head + chars::replace_char(s, '\'', "''"@));
    } else {
        lemma_doubled_cons(c, s.drop_last());
        assert(t.drop_last() =~= seq![c] + s.drop_last());
        assert(t.last() == s.last());
        assert(chars::replace_char(t, '\'', "''"@) =~= head + chars::replace_char(s, '\'', "''"@));
    }
}

proof fn lemma_literal(s: Seq<char>, rest: Seq<char>)
    requires
        rest.len() == 0 || rest[0] != '\'',
    ensures
        literal_value(chars::replace_char(s, '\'', "''"@) + "'"@ + rest) == Some((s, rest)),
    decreases s.len(),
{
    reveal_strlit("'");
    reveal_strlit("''");
    let body = chars::replace_char(s, '\'', "''"@);
    let whole = body + "'"@ + rest;
    if s.len() == 0 {
        assert(body =~= seq![]);
        assert(whole[0] == '\'');
        assert(whole.skip(1) =~= rest);
        if whole.len() > 1 {
            assert(whole[1] == rest[0]);
        }
        assert(s =~= seq![]);
    } else {
        let tail = s.skip(1);
        assert(s =~= seq![s[0]] + tail);
        lemma_doubled_cons(s[0], tail);
        lemma_literal(tail, rest);
        let after = chars::replace_char(tail, '\'', "''"@) + "'"@ + rest;
        if s[0] == '\'' {
            assert(whole[0] == '\'' && whole[1] == '\'');
            assert(whole.skip(2) =~= after);
        } else {
            assert(whole[0] == s[0]);
            assert(whole.skip(1) =~= after);
        }
    }
}

/// A literal reads back as the text that was quoted, without NUL characters, and
/// whatever the text holds, the literal ends where it was meant to.
pub proof fn law_literal_reads_back(s: Seq<char>, rest: Seq<char>)
    requires
        rest.len() == 0 || rest[0] != '\'',
    ensures
        literal(s) + rest == "'"@ + (doubled(s) + "'"@ + rest),
        literal_value(doubled(s) + "'"@ + rest) == Some((without_nul(s), rest)),
{
    lemma_literal(without_nul(s), rest);
    assert(literal(s) + rest =~= "'"@ + (doubled(s) + "'"@ + rest));
}

/// The status that is kept for a task reads back.
pub proof fn law_status_reads_back(status: TaskStatus)
    ensures
        status_named(status.name()) == status,
{
    reveal_strlit("new");
    reveal_strlit("running");
    reveal_strlit("waiting");
    reveal_strlit("done");
    reveal_strlit("failed");
    assert("new"@[0] == 'n' && "running"@[0] == 'r' && "waiting"@[0] == 'w' && "done"@[0] == 'd'
        && "failed"@[0] == 'f');
}

}
