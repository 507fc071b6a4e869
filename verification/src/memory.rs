//! Bounded working memory: tasks, messages, tool results and facts, with a
//! ranked index of them and details under a byte budget.
use std::collections::VecDeque;

use vstd::prelude::*;

use crate::chars;
use crate::chars::CharSet;
use crate::numbers;
use crate::table;
use crate::table::{Row, Table};
use crate::text;
use crate::types::{now_epoch_secs, Task, TaskId, TaskModel, TaskStatus, ToolModel, ToolResult};

verus! {

#[derive(Debug)]
pub struct MemoryIndexEntry {
    pub id: String,
    pub task_id: Option<TaskId>,
    pub kind: String,
    pub summary: String,
    pub bytes: usize,
    pub score: u16,
}

/// The contents of an index entry.
pub ghost struct EntryModel {
    pub id: Seq<char>,
    pub task_id: Option<TaskId>,
    pub kind: Seq<char>,
    pub summary: Seq<char>,
    pub bytes: nat,
    pub score: nat,
}

impl View for MemoryIndexEntry {
    type V = EntryModel;

    open spec fn view(&self) -> EntryModel {
        EntryModel {
            id: self.id@,
            task_id: self.task_id,
            kind: self.kind@,
            summary: self.summary@,
            bytes: self.bytes as nat,
            score: self.score as nat,
        }
    }
}

#[derive(Debug)]
pub struct MemoryDetail {
    pub id: String,
    pub body: String,
}

/// The contents of a detail.
pub ghost struct DetailModel {
    pub id: Seq<char>,
    pub body: Seq<char>,
}

impl View for MemoryDetail {
    type V = DetailModel;

    open spec fn view(&self) -> DetailModel {
        DetailModel { id: self.id@, body: self.body@ }
    }
}

#[derive(Debug)]
pub struct ProgressiveMemory {
    pub index: Vec<MemoryIndexEntry>,
    pub details: Vec<MemoryDetail>,
}

/// The contents of a two-level recall: index first, then selected details.
pub ghost struct ProgressiveModel {
    pub index: Seq<EntryModel>,
    pub details: Seq<DetailModel>,
}

pub open spec fn entry_models(v: Seq<MemoryIndexEntry>) -> Seq<EntryModel> {
    v.map_values(|e: MemoryIndexEntry| e@)
}

pub open spec fn detail_models(v: Seq<MemoryDetail>) -> Seq<DetailModel> {
    v.map_values(|e: MemoryDetail| e@)
}

impl View for ProgressiveMemory {
    type V = ProgressiveModel;

    open spec fn view(&self) -> ProgressiveModel {
        ProgressiveModel {
            index: entry_models(self.index@),
            details: detail_models(self.details@),
        }
    }
}

/// One line of the rendered index.
pub open spec fn entry_line(e: EntryModel) -> Seq<char> {
    "- "@ + e.id + " ["@ + e.kind + " score="@ + numbers::decimal(e.score) + "] "@ + e.summary
        + "\n"@
}

/// One line of the rendered details.
pub open spec fn detail_line(d: DetailModel) -> Seq<char> {
    "- "@ + d.id + ": "@ + d.body + "\n"@
}

impl ProgressiveModel {
    /// The text that a model is shown of the memory.
    pub open spec fn rendered(self) -> Seq<char> {
        if self.index.len() == 0 && self.details.len() == 0 {
            "Memory: none"@
        } else {
            let head = "Memory index:\n"@ + chars::concat(
                self.index.map_values(|e: EntryModel| entry_line(e)),
            );
            if self.details.len() == 0 {
                head
            } else {
                head + "Selected memory details:\n"@ + chars::concat(
                    self.details.map_values(|d: DetailModel| detail_line(d)),
                )
            }
        }
    }
}

impl ProgressiveMemory {
    pub fn render(&self) -> (r: String)
        ensures
            r@ == self@.rendered(),
    {
        if self.index.is_empty() && self.details.is_empty() {
            return "Memory: none".to_owned();
        }
        let mut out = "Memory index:\n".to_owned();
        let ghost head = "Memory index:\n"@;
        let ghost lines = self@.index.map_values(|e: EntryModel| entry_line(e));
        let mut i: usize = 0;
        assert(lines.take(0) =~= Seq::empty());
        assert(out@ =~= head + chars::concat(lines.take(0)));
        while i < self.index.len()
            invariant
                i <= self.index.len(),
                lines == self@.index.map_values(|e: EntryModel| entry_line(e)),
                out@ == head + chars::concat(lines.take(i as int)),
            decreases self.index.len() - i,
        {
            let ghost before = out@;
            let entry = &self.index[i];
            out.append("- ");
            out.append(entry.id.as_str());
            out.append(" [");
            out.append(entry.kind.as_str());
            out.append(" score=");
            out.append(numbers::decimal_of(entry.score as u64).as_str());
            out.append("] ");
            out.append(entry.summary.as_str());
            out.append("\n");
            assert(out@ =~= before + entry_line(entry@));
            assert(lines.take(i + 1).drop_last() =~= lines.take(i as int));
            assert(lines.take(i + 1).last() == entry_line(entry@));
            assert(out@ =~= head + chars::concat(lines.take(i + 1)));
            i += 1;
        }
        assert(lines.take(i as int) =~= lines);
        if !self.details.is_empty() {
            out.append("Selected memory details:\n");
            let ghost head = out@;
            let ghost lines = self@.details.map_values(|d: DetailModel| detail_line(d));
            let mut k: usize = 0;
            assert(lines.take(0) =~= Seq::empty());
            assert(out@ =~= head + chars::concat(lines.take(0)));
            while k < self.details.len()
                invariant
                    k <= self.details.len(),
                    lines == self@.details.map_values(|d: DetailModel| detail_line(d)),
                    out@ == head + chars::concat(lines.take(k as int)),
                decreases self.details.len() - k,
            {
                let ghost before = out@;
                let detail = &self.details[k];
                out.append("- ");
                out.append(detail.id.as_str());
                out.append(": ");
                out.append(detail.body.as_str());
                out.append("\n");
                assert(out@ =~= before + detail_line(detail@));
                assert(lines.take(k + 1).drop_last() =~= lines.take(k as int));
                assert(lines.take(k + 1).last() == detail_line(detail@));
                assert(out@ =~= head + chars::concat(lines.take(k + 1)));
                k += 1;
            }
            assert(lines.take(k as int) =~= lines);
        }
        out
    }
}

// ---------------------------------------------------------------------------
// Ranking
// ---------------------------------------------------------------------------

/// How many of the terms occur in the text.
pub open spec fn hits(terms: Seq<Seq<char>>, body: Seq<char>) -> nat
    decreases terms.len(),
{
    if terms.len() == 0 {
        0
    } else {
        hits(terms.drop_last(), body) + (if chars::contains(body, terms.last()) {
            1nat
        } else {
            0nat
        })
    }
}

/// The search terms of a query: its alphanumeric runs of three characters or
/// more, in lower case.
pub open spec fn terms(query: Seq<char>) -> Seq<Seq<char>> {
    chars::pieces(chars::lower(query), CharSet::NotAlphanumeric).filter(chars::at_least(3))
}

/// Ten points for each term of the query that occurs in the text, at most
/// 65535, and one point where none does.
pub open spec fn relevance_score(query: Seq<char>, body: Seq<char>) -> nat {
    let n = hits(terms(query), chars::lower(body));
    if n == 0 {
        1
    } else if 10 * n > 65535 {
        65535
    } else {
        10 * n
    }
}

/// The first `max` characters, with an ellipsis where something was cut, on
/// one line.
pub open spec fn on_one_line(s: Seq<char>, max: nat) -> Seq<char> {
    chars::replace_char(
        if s.len() > max {
            s.take(max as int) + "..."@
        } else {
            s
        },
        '\n',
        " "@,
    )
}

/// `a` ranks strictly before `b`: a higher score, or the same score and a
/// greater identifier.
pub open spec fn ranks_before(a: EntryModel, b: EntryModel) -> bool {
    a.score > b.score || (a.score == b.score && chars::precedes(b.id, a.id))
}

/// `e` put into a ranked list, behind the entries that it does not rank before.
pub open spec fn insert_ranked(list: Seq<EntryModel>, e: EntryModel) -> Seq<EntryModel>
    decreases list.len(),
{
    if list.len() == 0 || ranks_before(e, list[0]) {
        seq![e] + list
    } else {
        seq![list[0]] + insert_ranked(list.skip(1), e)
    }
}

/// The entries in rank order.
pub open spec fn ranked(entries: Seq<EntryModel>) -> Seq<EntryModel>
    decreases entries.len(),
{
    if entries.len() == 0 {
        seq![]
    } else {
        insert_ranked(ranked(entries.drop_last()), entries.last())
    }
}

/// The first `limit` of a list.
pub open spec fn top<T>(list: Seq<T>, limit: nat) -> Seq<T> {
    if list.len() <= limit {
        list
    } else {
        list.take(limit as int)
    }
}

pub fn relevance(query: &str, body: &str) -> (r: u16)
    ensures
        r == relevance_score(query@, body@),
{
    let q = text::lower(query);
    let b = text::lower(body);
    let parts = text::pieces(q.as_str(), CharSet::NotAlphanumeric);
    let ghost all = chars::texts(parts@);
    let mut score: u16 = 0;
    let mut i: usize = 0;
    let ghost mut n: nat = 0;
    proof {
        reveal(Seq::filter);
        assert(all.take(0) =~= Seq::empty());
    }
    while i < parts.len()
        invariant
            i <= parts.len(),
            all == chars::texts(parts@),
            b@ == chars::lower(body@),
            n == hits(all.take(i as int).filter(chars::at_least(3)), b@),
            score == (if 10 * n > 65535 {
                65535
            } else {
                10 * n
            }),
        decreases parts.len() - i,
    {
        proof {
            reveal(Seq::filter);
            assert(all.take(i + 1).drop_last() =~= all.take(i as int));
            let kept = all.take(i as int).filter(chars::at_least(3));
            assert(kept.push(all[i as int]).drop_last() =~= kept);
        }
        let len: usize = parts[i].unicode_len();
        if len >= 3 {
            if text::contains(b.as_str(), parts[i]) {
                score = if score > 65525 {
                    65535
                } else {
                    score + 10
                };
                proof {
                    n = n + 1;
                }
            }
        }
        i += 1;
    }
    assert(all.take(i as int) =~= all);
    if score == 0 {
        1
    } else {
        score
    }
}

/// The first `max` characters on one line, with an ellipsis where something
/// was cut.
pub fn cap_chars(s: &str, max_chars: usize) -> (r: String)
    ensures
        r@ == on_one_line(s@, max_chars as nat),
{
    let mut out = text::take(s, max_chars).to_owned();
    if s.unicode_len() > max_chars {
        out.append("...");
    }
    text::replace_char(out.as_str(), '\n', " ")
}

/// The text, or its longest prefix within the byte limit and an ellipsis.
pub fn cap_bytes(s: &str, max_bytes: usize) -> (r: String)
    ensures
        r@ == chars::capped(s@, max_bytes as nat, "..."@),
{
    text::capped(s, max_bytes, "...")
}

/// Puts an entry into a ranked list, behind the entries that it does not rank
/// before.
fn place(list: &mut Vec<MemoryIndexEntry>, entry: MemoryIndexEntry)
    ensures
        entry_models(final(list)@) == insert_ranked(entry_models(old(list)@), entry@),
{
    let ghost all = entry_models(list@);
    let mut i: usize = 0;
    assert(all.skip(0) =~= all);
    assert(all.take(0) + insert_ranked(all, entry@) =~= insert_ranked(all, entry@));
    while i < list.len() && !(entry.score > list[i].score || (entry.score == list[i].score
        && text::precedes(list[i].id.as_str(), entry.id.as_str())))
        invariant
            i <= list.len(),
            all == entry_models(list@),
            all == entry_models(old(list)@),
            insert_ranked(all, entry@) == all.take(i as int) + insert_ranked(
                all.skip(i as int),
                entry@,
            ),
        decreases list.len() - i,
    {
        let ghost rest = all.skip(i as int);
        assert(rest.skip(1) =~= all.skip(i + 1));
        assert(all.take(i as int) + (seq![rest[0]] + insert_ranked(rest.skip(1), entry@))
            =~= all.take(i + 1) + insert_ranked(rest.skip(1), entry@));
        i += 1;
    }
    let ghost rest = all.skip(i as int);
    let ghost e = entry@;
    list.insert(i, entry);
    assert(entry_models(list@) =~= all.take(i as int) + (seq![e] + rest));
}

/// The entries in rank order, at most `limit` of them.
pub fn rank(entries: Vec<MemoryIndexEntry>, limit: usize) -> (r: Vec<MemoryIndexEntry>)
    ensures
        entry_models(r@) == top(ranked(entry_models(entries@)), limit as nat),
{
    let ghost all = entry_models(entries@);
    let mut rest = entries;
    let mut reversed: Vec<MemoryIndexEntry> = Vec::new();
    while rest.len() > 0
        invariant
            entry_models(rest@) + entry_models(reversed@).reverse() == all,
        decreases rest.len(),
    {
        let ghost before = entry_models(rest@);
        let ghost done = entry_models(reversed@);
        match rest.pop() {
            Some(e) => {
                let ghost m = e@;
                reversed.push(e);
                assert(entry_models(reversed@) =~= done.push(m));
                assert(entry_models(rest@) =~= before.drop_last());
                assert(before.last() == m);
                assert(entry_models(rest@) + entry_models(reversed@).reverse() =~= before
                    + done.reverse());
            },
            None => {},
        }
    }
    assert(entry_models(reversed@).reverse() =~= all);
    let mut out: Vec<MemoryIndexEntry> = Vec::new();
    assert(entry_models(out@) =~= ranked(all.take(0)));
    while reversed.len() > 0
        invariant
            reversed.len() <= all.len(),
            all.skip(all.len() - reversed.len()) == entry_models(reversed@).reverse(),
            entry_models(out@) == ranked(all.take(all.len() - reversed.len())),
        decreases reversed.len(),
    {
        let ghost k = all.len() - reversed.len();
        let ghost before = entry_models(reversed@);
        match reversed.pop() {
            Some(e) => {
                assert(before.reverse()[0] == e@);
                assert(all.skip(k)[0] == e@);
                assert(all.take(k + 1).drop_last() =~= all.take(k));
                assert(all.skip(k + 1) =~= all.skip(k).skip(1));
                assert(entry_models(reversed@).reverse() =~= before.reverse().skip(1));
                place(&mut out, e);
            },
            None => {},
        }
    }
    assert(all.take(all.len() as int) =~= all);
    let ghost full = entry_models(out@);
    if out.len() > limit {
        out.truncate(limit);
        assert(entry_models(out@) =~= full.take(limit as int));
    }
    out
}

/// Ranking loses no entry, adds none, and puts no entry before one that ranks
/// before it.
pub proof fn law_ranked_sorts(entries: Seq<EntryModel>)
    ensures
        ranked(entries).to_multiset() == entries.to_multiset(),
        forall|i: int, j: int| #![auto]
            0 <= i < j < ranked(entries).len() ==> !ranks_before(
                ranked(entries)[j],
                ranked(entries)[i],
            ),
    decreases entries.len(),
{
    if entries.len() == 0 {
        assert(ranked(entries) =~= entries);
    } else {
        let init = entries.drop_last();
        law_ranked_sorts(init);
        lemma_insert_ranked(ranked(init), entries.last());
        assert(entries =~= init.push(entries.last()));
        init.to_multiset_ensures();
    }
}

proof fn lemma_insert_ranked(list: Seq<EntryModel>, e: EntryModel)
    requires
        forall|i: int, j: int| #![auto]
            0 <= i < j < list.len() ==> !ranks_before(list[j], list[i]),
    ensures
        insert_ranked(list, e).to_multiset() == list.to_multiset().insert(e),
        forall|i: int, j: int| #![auto]
            0 <= i < j < insert_ranked(list, e).len() ==> !ranks_before(
                insert_ranked(list, e)[j],
                insert_ranked(list, e)[i],
            ),
        forall|i: int| #![auto]
            0 <= i < insert_ranked(list, e).len() ==> insert_ranked(list, e)[i] == e
                || list.contains(insert_ranked(list, e)[i]),
    decreases list.len(),
{
    let r = insert_ranked(list, e);
    if list.len() == 0 || ranks_before(e, list[0]) {
        vstd::seq_lib::lemma_multiset_commutative(seq![e], list);
        seq![e].to_multiset_ensures();
        assert(seq![e] =~= Seq::<EntryModel>::empty().push(e));
        Seq::<EntryModel>::empty().to_multiset_ensures();
        assert(r.to_multiset() =~= list.to_multiset().insert(e));
        assert forall|i: int, j: int| #![auto] 0 <= i < j < r.len() implies !ranks_before(
            r[j],
            r[i],
        ) by {
            assert(r[j] == list[j - 1]);
            if i == 0 {
                lemma_ranks(e, list[0], list[j - 1]);
            } else {
                assert(r[i] == list[i - 1]);
            }
        }
        assert forall|i: int| #![auto] 0 <= i < r.len() implies r[i] == e || list.contains(r[i]) by {
            if i > 0 {
                assert(list[i - 1] == r[i]);
            }
        }
    } else {
        let rest = list.skip(1);
        let tail = insert_ranked(rest, e);
        lemma_insert_ranked(rest, e);
        vstd::seq_lib::lemma_multiset_commutative(seq![list[0]], tail);
        vstd::seq_lib::lemma_multiset_commutative(seq![list[0]], rest);
        assert(list =~= seq![list[0]] + rest);
        assert(r.to_multiset() =~= list.to_multiset().insert(e));
        assert forall|i: int, j: int| #![auto] 0 <= i < j < r.len() implies !ranks_before(
            r[j],
            r[i],
        ) by {
            assert(r[j] == tail[j - 1]);
            if i == 0 {
                if tail[j - 1] != e {
                    let k = choose|k: int| 0 <= k < rest.len() && rest[k] == tail[j - 1];
                    assert(rest[k] == list[k + 1]);
                }
            } else {
                assert(r[i] == tail[i - 1]);
            }
        }
        assert forall|i: int| #![auto] 0 <= i < r.len() implies r[i] == e || list.contains(r[i]) by {
            if i == 0 {
                assert(list[0] == r[i]);
            } else {
                assert(r[i] == tail[i - 1]);
                if tail[i - 1] != e {
                    let k = choose|k: int| 0 <= k < rest.len() && rest[k] == tail[i - 1];
                    assert(list[k + 1] == r[i]);
                }
            }
        }
    }
}

proof fn lemma_ranks(a: EntryModel, b: EntryModel, c: EntryModel)
    requires
        ranks_before(a, b),
        b == c || !ranks_before(c, b),
    ensures
        !ranks_before(c, a),
{
    if ranks_before(c, a) {
        if c.score == a.score {
            if a.score == b.score {
                chars::lemma_precedes_transitive(b.id, a.id, c.id);
                chars::lemma_precedes_irreflexive(b.id);
            }
        }
    }
}

// ---------------------------------------------------------------------------
// Stores
// ---------------------------------------------------------------------------

/// The details that were found, in the order in which they were asked for.
pub open spec fn found(answers: Seq<Option<DetailModel>>) -> Seq<DetailModel>
    decreases answers.len(),
{
    if answers.len() == 0 {
        seq![]
    } else {
        match answers.last() {
            Some(d) => found(answers.drop_last()).push(d),
            None => found(answers.drop_last()),
        }
    }
}

/// A store of tasks, messages, tool results and facts. What a store does is
/// described by relations that each implementation defines: between the store
/// before and after a write, and between the store and the answer of a read.
pub trait MemoryStore: Sized {
    /// A task was created under the title.
    open spec fn created(pre: Self, post: Self, title: Seq<char>, task: Task) -> bool {
        true
    }

    /// The status of a task was set.
    open spec fn status_set(pre: Self, post: Self, id: TaskId, status: TaskStatus) -> bool {
        true
    }

    /// What a task identifier gives.
    open spec fn task_found(store: Self, id: TaskId, task: Option<Task>) -> bool {
        true
    }

    /// What the list of tasks gives.
    open spec fn tasks_listed(store: Self, tasks: Seq<Task>) -> bool {
        true
    }

    /// A message was recorded for a task.
    open spec fn message_added(
        pre: Self,
        post: Self,
        task_id: TaskId,
        role: Seq<char>,
        body: Seq<char>,
    ) -> bool {
        true
    }

    /// A tool result was recorded for a task.
    open spec fn tool_added(pre: Self, post: Self, task_id: TaskId, result: ToolModel) -> bool {
        true
    }

    /// A fact was set.
    open spec fn fact_set(pre: Self, post: Self, key: Seq<char>, value: Seq<char>) -> bool {
        true
    }

    /// A fact was deleted.
    open spec fn fact_deleted(pre: Self, post: Self, key: Seq<char>) -> bool {
        true
    }

    /// What a key gives.
    open spec fn fact_found(store: Self, key: Seq<char>, value: Option<Seq<char>>) -> bool {
        true
    }

    /// What the index gives for a query.
    open spec fn indexed(store: Self, query: Seq<char>, limit: nat, entries: Seq<EntryModel>) -> bool {
        true
    }

    /// What an index identifier gives under a byte budget.
    open spec fn detailed(
        store: Self,
        id: Seq<char>,
        max_bytes: nat,
        detail: Option<DetailModel>,
    ) -> bool {
        true
    }

    /// What the transcript of a task gives under a byte budget.
    open spec fn transcript(store: Self, task_id: TaskId, max_bytes: nat, body: Seq<char>) -> bool {
        true
    }

    fn create_task(&mut self, title: &str) -> (task: Task)
        ensures
            Self::created(*old(self), *final(self), title@, task),
    ;

    fn update_task_status(&mut self, id: TaskId, status: TaskStatus)
        ensures
            Self::status_set(*old(self), *final(self), id, status),
    ;

    fn get_task(&self, id: TaskId) -> (task: Option<Task>)
        ensures
            Self::task_found(*self, id, task),
    ;

    fn list_tasks(&self) -> (tasks: Vec<Task>)
        ensures
            Self::tasks_listed(*self, tasks@),
    ;

    fn append_message(&mut self, task_id: TaskId, role: &str, body: &str)
        ensures
            Self::message_added(*old(self), *final(self), task_id, role@, body@),
    ;

    fn append_tool_result(&mut self, task_id: TaskId, result: &ToolResult)
        ensures
            Self::tool_added(*old(self), *final(self), task_id, result@),
    ;

    fn set_fact(&mut self, key: &str, value: &str)
        ensures
            Self::fact_set(*old(self), *final(self), key@, value@),
    ;

    fn delete_fact(&mut self, key: &str)
        ensures
            Self::fact_deleted(*old(self), *final(self), key@),
    ;

    fn get_fact(&self, key: &str) -> (value: Option<String>)
        ensures
            Self::fact_found(*self, key@, chars::opt_text(value)),
    ;

    fn memory_index(&self, query: &str, limit: usize) -> (entries: Vec<MemoryIndexEntry>)
        ensures
            Self::indexed(*self, query@, limit as nat, entry_models(entries@)),
    ;

    fn memory_detail(&self, id: &str, max_bytes: usize) -> (detail: Option<MemoryDetail>)
        ensures
            Self::detailed(*self, id@, max_bytes as nat, opt_detail(detail)),
    ;

    fn task_context(&self, task_id: TaskId, max_bytes: usize) -> (body: String)
        ensures
            Self::transcript(*self, task_id, max_bytes as nat, body@),
    ;

    /// The index of a query, and the details of its first `detail_limit`
    /// entries as far as the store has them.
    fn progressive_memory(
        &self,
        query: &str,
        index_limit: usize,
        detail_limit: usize,
        detail_bytes: usize,
    ) -> (r: ProgressiveMemory)
        ensures
            Self::indexed(*self, query@, index_limit as nat, r@.index),
            exists|answers: Seq<Option<DetailModel>>|
                {
                    &&& answers.len() == top(r@.index, detail_limit as nat).len()
                    &&& forall|k: int|
                        0 <= k < answers.len() ==> Self::detailed(
                            *self,
                            r@.index[k].id,
                            detail_bytes as nat,
                            #[trigger] answers[k],
                        )
                    &&& r@.details == #[trigger] found(answers)
                },
    {
        let index = self.memory_index(query, index_limit);
        let ghost entries = entry_models(index@);
        let mut details: Vec<MemoryDetail> = Vec::new();
        let ghost mut answers: Seq<Option<DetailModel>> = Seq::empty();
        assert(detail_models(details@) =~= found(answers));
        let mut i: usize = 0;
        while i < index.len() && i < detail_limit
            invariant
                i <= index.len(),
                i <= detail_limit,
                entries == entry_models(index@),
                answers.len() == i,
                forall|k: int|
                    0 <= k < i ==> Self::detailed(
                        *self,
                        entries[k].id,
                        detail_bytes as nat,
                        #[trigger] answers[k],
                    ),
                detail_models(details@) == found(answers),
            decreases index.len() - i,
        {
            let answer = self.memory_detail(index[i].id.as_str(), detail_bytes);
            let ghost before = answers;
            let ghost a = opt_detail(answer);
            proof {
                answers = answers.push(a);
                assert(answers.drop_last() =~= before);
            }
            match answer {
                Some(detail) => {
                    let ghost listed = detail_models(details@);
                    let ghost d = detail@;
                    details.push(detail);
                    assert(detail_models(details@) =~= listed.push(d));
                },
                None => {},
            }
            i += 1;
        }
        let r = ProgressiveMemory { index, details };
        assert(r@.index == entries);
        assert(answers.len() == top(entries, detail_limit as nat).len());
        r
    }
}

/// The contents of an optional detail.
pub open spec fn opt_detail(d: Option<MemoryDetail>) -> Option<DetailModel> {
    match d {
        Some(x) => Some(x@),
        None => None,
    }
}

/// What a two-level recall gives: the index, and the details of its first
/// entries as far as the store has them.
pub open spec fn recalled<M: MemoryStore>(
    store: M,
    query: Seq<char>,
    index_limit: nat,
    detail_limit: nat,
    detail_bytes: nat,
    r: ProgressiveModel,
) -> bool {
    &&& M::indexed(store, query, index_limit, r.index)
    &&& exists|answers: Seq<Option<DetailModel>>|
        {
            &&& answers.len() == top(r.index, detail_limit).len()
            &&& forall|k: int|
                0 <= k < answers.len() ==> M::detailed(
                    store,
                    r.index[k].id,
                    detail_bytes,
                    #[trigger] answers[k],
                )
            &&& r.details == #[trigger] found(answers)
        }
}

#[derive(Debug)]
struct MessageRecord {
    task_id: TaskId,
    role: String,
    body: String,
}

#[derive(Debug)]
struct ToolRecord {
    task_id: TaskId,
    result: ToolResult,
}

/// A recorded message.
pub ghost struct MessageModel {
    pub task_id: TaskId,
    pub role: Seq<char>,
    pub body: Seq<char>,
}

/// A recorded tool result.
pub ghost struct ToolRunModel {
    pub task_id: TaskId,
    pub result: ToolModel,
}

/// What a store in memory holds.
pub ghost struct MemoryModel {
    pub max_records: nat,
    pub tasks: Seq<TaskModel>,
    pub messages: Seq<MessageModel>,
    pub tool_results: Seq<ToolRunModel>,
    pub facts: Seq<Row>,
}

impl MemoryModel {
    /// Tasks are numbered from 1 in the order of their creation, messages and
    /// tool results keep to the limit, and each fact has one key.
    pub open spec fn wf(self) -> bool {
        &&& forall|i: int| 0 <= i < self.tasks.len() ==> (#[trigger] self.tasks[i]).id.0 == i + 1
        &&& self.messages.len() <= self.max_records
        &&& self.tool_results.len() <= self.max_records
        &&& table::ordered(self.facts)
    }
}

/// The last `max` of a list.
pub open spec fn latest<T>(list: Seq<T>, max: nat) -> Seq<T> {
    if list.len() <= max {
        list
    } else {
        list.skip(list.len() - max)
    }
}

/// The tasks with a new status for the task of that identifier.
pub open spec fn with_status(
    tasks: Seq<TaskModel>,
    id: TaskId,
    status: TaskStatus,
    now: u64,
) -> Seq<TaskModel> {
    tasks.map_values(
        |t: TaskModel|
            if t.id == id {
                TaskModel { status, updated_at: now, ..t }
            } else {
                t
            },
    )
}

/// The task of an identifier.
pub open spec fn task_of(tasks: Seq<TaskModel>, id: TaskId) -> Option<TaskModel>
    decreases tasks.len(),
{
    if tasks.len() == 0 {
        None
    } else if tasks[0].id == id {
        Some(tasks[0])
    } else {
        task_of(tasks.skip(1), id)
    }
}

/// The index entry of a task.
pub open spec fn task_entry(t: TaskModel, query: Seq<char>) -> EntryModel {
    EntryModel {
        id: "task:"@ + numbers::decimal(t.id.0 as nat),
        task_id: Some(t.id),
        kind: "task"@,
        summary: on_one_line(t.title + " ["@ + t.status.name() + "]"@, 160),
        bytes: chars::byte_len(t.title),
        score: relevance_score(query, t.title),
    }
}

/// The index entry of a message.
pub open spec fn message_entry(m: MessageModel, i: nat, query: Seq<char>) -> EntryModel {
    EntryModel {
        id: "msg:"@ + numbers::decimal(m.task_id.0 as nat) + ":"@ + numbers::decimal(i),
        task_id: Some(m.task_id),
        kind: "message/"@ + m.role,
        summary: on_one_line(m.body, 160),
        bytes: chars::byte_len(m.body),
        score: relevance_score(query, m.body),
    }
}

/// The index entry of a tool result.
pub open spec fn tool_entry(t: ToolRunModel, i: nat, query: Seq<char>) -> EntryModel {
    EntryModel {
        id: "tool:"@ + numbers::decimal(t.task_id.0 as nat) + ":"@ + numbers::decimal(i),
        task_id: Some(t.task_id),
        kind: "tool/"@ + t.result.name,
        summary: on_one_line(t.result.output, 160),
        bytes: chars::byte_len(t.result.output),
        score: relevance_score(query, t.result.output),
    }
}

/// The index entry of a fact.
pub open spec fn fact_entry(f: Row, query: Seq<char>) -> EntryModel {
    EntryModel {
        id: "fact:"@ + f.0,
        task_id: None,
        kind: "fact"@,
        summary: on_one_line(f.0 + "="@ + f.1, 160),
        bytes: chars::byte_len(f.1),
        score: relevance_score(query, f.0 + " "@ + f.1),
    }
}

/// The index entries of a list of tasks.
pub open spec fn task_entries(tasks: Seq<TaskModel>, query: Seq<char>) -> Seq<EntryModel> {
    Seq::new(tasks.len(), |i: int| task_entry(tasks[i], query))
}

/// All index entries of a store: tasks, messages, tool results and facts.
pub open spec fn all_entries(m: MemoryModel, query: Seq<char>) -> Seq<EntryModel> {
    task_entries(m.tasks, query) + Seq::new(
        m.messages.len(),
        |i: int| message_entry(m.messages[i], i as nat, query),
    ) + Seq::new(m.tool_results.len(), |i: int| tool_entry(m.tool_results[i], i as nat, query))
        + Seq::new(m.facts.len(), |i: int| fact_entry(m.facts[i], query))
}

/// The text of a task's detail.
pub open spec fn task_body(t: TaskModel) -> Seq<char> {
    "task="@ + t.id.name() + " status="@ + t.status.name() + " created="@ + numbers::decimal(
        t.created_at as nat,
    ) + " updated="@ + numbers::decimal(t.updated_at as nat) + " title="@ + t.title
}

/// The record number that an identifier ends in, after its task number.
pub open spec fn record_number(rest: Seq<char>) -> Option<nat> {
    match chars::around(rest, ":"@) {
        Some((_, raw)) => match numbers::unsigned_value(raw, 10, usize::MAX as nat) {
            Ok(i) => Some(i),
            Err(_) => None,
        },
        None => None,
    }
}

/// The uncut text that an index identifier stands for.
pub open spec fn body_of(m: MemoryModel, id: Seq<char>) -> Option<Seq<char>> {
    match chars::after_prefix(id, "task:"@) {
        Some(raw) => task_body_of(m.tasks, raw),
        None => match chars::after_prefix(id, "msg:"@) {
            Some(rest) => match record_number(rest) {
                Some(i) => if i < m.messages.len() {
                    let r = m.messages[i as int];
                    Some(r.task_id.name() + " "@ + r.role + ": "@ + r.body)
                } else {
                    None
                },
                None => None,
            },
            None => match chars::after_prefix(id, "tool:"@) {
                Some(rest) => match record_number(rest) {
                    Some(i) => if i < m.tool_results.len() {
                        let r = m.tool_results[i as int];
                        Some(
                            r.task_id.name() + " "@ + r.result.name + " ok="@ + chars::bool_text(
                                r.result.ok,
                            ) + ": "@ + r.result.output,
                        )
                    } else {
                        None
                    },
                    None => None,
                },
                None => match chars::after_prefix(id, "fact:"@) {
                    Some(key) => match table::lookup(m.facts, key) {
                        Some(value) => Some(key + "="@ + value),
                        None => None,
                    },
                    None => None,
                },
            },
        },
    }
}

/// The uncut text of the task with the number that `raw` writes.
pub open spec fn task_body_of(tasks: Seq<TaskModel>, raw: Seq<char>) -> Option<Seq<char>> {
    match numbers::unsigned_value(raw, 10, u64::MAX as nat) {
        Ok(n) => match task_of(tasks, TaskId(n as u64)) {
            Some(t) => Some(task_body(t)),
            None => None,
        },
        Err(_) => None,
    }
}

/// The detail that an index identifier gives under a byte budget.
pub open spec fn detail_under(
    body: Option<Seq<char>>,
    id: Seq<char>,
    max_bytes: nat,
) -> Option<DetailModel> {
    match body {
        Some(b) => Some(DetailModel { id, body: chars::capped(b, max_bytes, "..."@) }),
        None => None,
    }
}

/// The messages of one task as lines `role: body`.
pub open spec fn transcript_lines(messages: Seq<MessageModel>, id: TaskId) -> Seq<Seq<char>>
    decreases messages.len(),
{
    if messages.len() == 0 {
        seq![]
    } else {
        let m = messages.last();
        let before = transcript_lines(messages.drop_last(), id);
        if m.task_id == id {
            before.push(m.role + ": "@ + m.body)
        } else {
            before
        }
    }
}

/// A store that lives in memory and keeps the latest records only.
#[derive(Debug)]
pub struct InMemoryStore {
    max_records: usize,
    tasks: Vec<Task>,
    messages: VecDeque<MessageRecord>,
    tool_results: VecDeque<ToolRecord>,
    facts: Table,
}

impl MessageRecord {
    spec fn model(self) -> MessageModel {
        MessageModel { task_id: self.task_id, role: self.role@, body: self.body@ }
    }
}

impl ToolRecord {
    spec fn model(self) -> ToolRunModel {
        ToolRunModel { task_id: self.task_id, result: self.result@ }
    }
}

/// The contents of a list of tasks.
pub open spec fn task_models(tasks: Seq<Task>) -> Seq<TaskModel> {
    tasks.map_values(|t: Task| t@)
}

impl View for InMemoryStore {
    type V = MemoryModel;

    closed spec fn view(&self) -> MemoryModel {
        MemoryModel {
            max_records: self.max_records as nat,
            tasks: task_models(self.tasks@),
            messages: self.messages@.map_values(|m: MessageRecord| m.model()),
            tool_results: self.tool_results@.map_values(|t: ToolRecord| t.model()),
            facts: self.facts@,
        }
    }
}

/// Index entry of one task.
fn index_task(task: &Task, query: &str) -> (e: MemoryIndexEntry)
    ensures
        e@ == task_entry(task@, query@),
{
    let id = "task:".to_owned().concat(numbers::decimal_of(task.id.0).as_str());
    let mut line = task.title.clone();
    line.append(" [");
    line.append(task.status.label());
    line.append("]");
    MemoryIndexEntry {
        id,
        task_id: Some(task.id),
        kind: "task".to_owned(),
        summary: cap_chars(line.as_str(), 160),
        bytes: text::byte_len(task.title.as_str()),
        score: relevance(query, task.title.as_str()),
    }
}

/// Index entries of a list of tasks.
fn index_tasks(tasks: &Vec<Task>, query: &str) -> (r: Vec<MemoryIndexEntry>)
    ensures
        entry_models(r@) == task_entries(task_models(tasks@), query@),
{
    let mut out: Vec<MemoryIndexEntry> = Vec::new();
    let mut i: usize = 0;
    let ghost want = task_entries(task_models(tasks@), query@);
    while i < tasks.len()
        invariant
            i <= tasks.len(),
            want == task_entries(task_models(tasks@), query@),
            entry_models(out@) == want.take(i as int),
        decreases tasks.len() - i,
    {
        let ghost before = entry_models(out@);
        out.push(index_task(&tasks[i], query));
        assert(entry_models(out@) =~= before.push(task_entry(tasks@[i as int]@, query@)));
        assert(want.take(i + 1) =~= before.push(want[i as int]));
        i += 1;
    }
    assert(want.take(i as int) =~= want);
    out
}

/// The ranked index of a store that indexes its tasks only.
pub fn task_index(tasks: &Vec<Task>, query: &str, limit: usize) -> (r: Vec<MemoryIndexEntry>)
    ensures
        entry_models(r@) == top(
            ranked(task_entries(task_models(tasks@), query@)),
            limit as nat,
        ),
{
    rank(index_tasks(tasks, query), limit)
}

/// The uncut detail text of a task.
pub fn task_text(task: &Task) -> (r: String)
    ensures
        r@ == task_body(task@),
{
    let mut out = "task=".to_owned();
    out.append(task.id.label().as_str());
    out.append(" status=");
    out.append(task.status.label());
    out.append(" created=");
    out.append(numbers::decimal_of(task.created_at).as_str());
    out.append(" updated=");
    out.append(numbers::decimal_of(task.updated_at).as_str());
    out.append(" title=");
    out.append(task.title.as_str());
    out
}

fn tag_number(tag: &str, task_id: TaskId, i: usize) -> (r: String)
    ensures
        r@ == tag@ + numbers::decimal(task_id.0 as nat) + ":"@ + numbers::decimal(i as nat),
{
    let mut id = tag.to_owned();
    id.append(numbers::decimal_of(task_id.0).as_str());
    id.append(":");
    id.append(numbers::usize_text(i).as_str());
    id
}

fn number_at_end(rest: &str) -> (r: Option<usize>)
    ensures
        match r {
            Some(i) => record_number(rest@) == Some(i as nat),
            None => record_number(rest@) is None,
        },
{
    match text::around(rest, ":") {
        Some((_, raw)) => numbers::parse_usize(raw),
        None => None,
    }
}

impl InMemoryStore {
    pub open spec fn wf(&self) -> bool {
        self@.wf()
    }

    pub fn new(max_records: usize) -> (r: Self)
        ensures
            r@ == (MemoryModel {
                max_records: max_records as nat,
                tasks: seq![],
                messages: seq![],
                tool_results: seq![],
                facts: seq![],
            }),
            r.wf(),
    {
        let r = InMemoryStore {
            max_records,
            tasks: Vec::new(),
            messages: VecDeque::new(),
            tool_results: VecDeque::new(),
            facts: Table::new(),
        };
        assert(r@.tasks =~= seq![]);
        assert(r@.messages =~= seq![]);
        assert(r@.tool_results =~= seq![]);
        r
    }

    /// Drops the oldest messages and tool results beyond the limit.
    fn trim(&mut self)
        ensures
            final(self)@ == (MemoryModel {
                messages: latest(old(self)@.messages, old(self)@.max_records),
                tool_results: latest(old(self)@.tool_results, old(self)@.max_records),
                ..old(self)@
            }),
    {
        let ghost messages = self@.messages;
        let ghost tools = self@.tool_results;
        let ghost start = self@;
        assert(messages.skip(0) =~= messages);
        while self.messages.len() > self.max_records
            invariant
                self.messages.len() <= messages.len(),
                messages.len() > start.max_records ==> self.messages.len() >= start.max_records,
                messages.len() <= start.max_records ==> self.messages.len() == messages.len(),
                self@ == (MemoryModel {
                    messages: messages.skip(messages.len() - self.messages.len()),
                    ..start
                }),
                start.tool_results == tools,
            decreases self.messages.len(),
        {
            let ghost before = self@.messages;
            let _ = self.messages.pop_front();
            assert(self@.messages =~= before.skip(1));
            assert(self@.messages =~= messages.skip(messages.len() - self.messages.len()));
        }
        let ghost kept = self@;
        assert(kept.messages == latest(messages, start.max_records));
        assert(tools.skip(0) =~= tools);
        while self.tool_results.len() > self.max_records
            invariant
                self.tool_results.len() <= tools.len(),
                tools.len() > start.max_records ==> self.tool_results.len() >= start.max_records,
                tools.len() <= start.max_records ==> self.tool_results.len() == tools.len(),
                kept.max_records == start.max_records,
                self@ == (MemoryModel {
                    tool_results: tools.skip(tools.len() - self.tool_results.len()),
                    ..kept
                }),
            decreases self.tool_results.len(),
        {
            let ghost before = self@.tool_results;
            let _ = self.tool_results.pop_front();
            assert(self@.tool_results =~= before.skip(1));
            assert(self@.tool_results =~= tools.skip(tools.len() - self.tool_results.len()));
        }
        assert(self@.tool_results == latest(tools, start.max_records));
    }

    pub fn message_count(&self) -> (r: usize)
        ensures
            r == self@.messages.len(),
    {
        self.messages.len()
    }

    pub fn tool_result_count(&self) -> (r: usize)
        ensures
            r == self@.tool_results.len(),
    {
        self.tool_results.len()
    }

    pub fn last_message(&self) -> (r: Option<(TaskId, &str, &str)>)
        ensures
            match r {
                Some((id, role, body)) => self@.messages.len() > 0 && self@.messages.last()
                    == (MessageModel { task_id: id, role: role@, body: body@ }),
                None => self@.messages.len() == 0,
            },
    {
        let n: usize = self.messages.len();
        if n == 0 {
            return None;
        }
        let m = &self.messages[n - 1];
        assert(self@.messages.last() == m.model());
        Some((m.task_id, m.role.as_str(), m.body.as_str()))
    }

    pub fn last_tool_result(&self) -> (r: Option<(TaskId, &ToolResult)>)
        ensures
            match r {
                Some((id, result)) => self@.tool_results.len() > 0 && self@.tool_results.last()
                    == (ToolRunModel { task_id: id, result: result@ }),
                None => self@.tool_results.len() == 0,
            },
    {
        let n: usize = self.tool_results.len();
        if n == 0 {
            return None;
        }
        let t = &self.tool_results[n - 1];
        assert(self@.tool_results.last() == t.model());
        Some((t.task_id, &t.result))
    }

    /// The position of the task with an identifier.
    fn position(&self, id: TaskId) -> (r: Option<usize>)
        ensures
            match r {
                Some(i) => i < self.tasks.len() && task_of(self@.tasks, id) == Some(
                    self.tasks@[i as int]@,
                ),
                None => task_of(self@.tasks, id) is None,
            },
    {
        let mut i: usize = 0;
        let ghost all = self@.tasks;
        assert(all.skip(0) =~= all);
        while i < self.tasks.len()
            invariant
                i <= self.tasks.len(),
                all == task_models(self.tasks@),
                task_of(all, id) == task_of(all.skip(i as int), id),
            decreases self.tasks.len() - i,
        {
            assert(all.skip(i as int).skip(1) =~= all.skip(i + 1));
            if self.tasks[i].id.0 == id.0 {
                return Some(i);
            }
            i += 1;
        }
        None
    }
}

impl MemoryStore for InMemoryStore {
    open spec fn created(pre: Self, post: Self, title: Seq<char>, task: Task) -> bool {
        &&& task.id.0 == pre@.tasks.len() + 1
        &&& task.title@ == chars::trim(title)
        &&& task.status == TaskStatus::New
        &&& task.created_at == task.updated_at
        &&& post@ == (MemoryModel { tasks: pre@.tasks.push(task@), ..pre@ })
    }

    open spec fn status_set(pre: Self, post: Self, id: TaskId, status: TaskStatus) -> bool {
        exists|now: u64|
            post@ == (MemoryModel {
                tasks: #[trigger] with_status(pre@.tasks, id, status, now),
                ..pre@
            })
    }

    open spec fn task_found(store: Self, id: TaskId, task: Option<Task>) -> bool {
        match task {
            Some(t) => task_of(store@.tasks, id) == Some(t@),
            None => task_of(store@.tasks, id) is None,
        }
    }

    open spec fn tasks_listed(store: Self, tasks: Seq<Task>) -> bool {
        task_models(tasks) == store@.tasks
    }

    open spec fn message_added(
        pre: Self,
        post: Self,
        task_id: TaskId,
        role: Seq<char>,
        body: Seq<char>,
    ) -> bool {
        post@ == (MemoryModel {
            messages: latest(
                pre@.messages.push(MessageModel { task_id, role, body }),
                pre@.max_records,
            ),
            tool_results: latest(pre@.tool_results, pre@.max_records),
            ..pre@
        })
    }

    open spec fn tool_added(pre: Self, post: Self, task_id: TaskId, result: ToolModel) -> bool {
        post@ == (MemoryModel {
            messages: latest(pre@.messages, pre@.max_records),
            tool_results: latest(
                pre@.tool_results.push(ToolRunModel { task_id, result }),
                pre@.max_records,
            ),
            ..pre@
        })
    }

    open spec fn fact_set(pre: Self, post: Self, key: Seq<char>, value: Seq<char>) -> bool {
        post@ == (MemoryModel { facts: table::put(pre@.facts, key, value), ..pre@ })
    }

    open spec fn fact_deleted(pre: Self, post: Self, key: Seq<char>) -> bool {
        post@ == (MemoryModel { facts: table::without(pre@.facts, key), ..pre@ })
    }

    open spec fn fact_found(store: Self, key: Seq<char>, value: Option<Seq<char>>) -> bool {
        value == table::lookup(store@.facts, key)
    }

    open spec fn indexed(
        store: Self,
        query: Seq<char>,
        limit: nat,
        entries: Seq<EntryModel>,
    ) -> bool {
        entries == top(ranked(all_entries(store@, query)), limit)
    }

    open spec fn detailed(
        store: Self,
        id: Seq<char>,
        max_bytes: nat,
        detail: Option<DetailModel>,
    ) -> bool {
        detail == detail_under(body_of(store@, id), id, max_bytes)
    }

    open spec fn transcript(store: Self, task_id: TaskId, max_bytes: nat, body: Seq<char>) -> bool {
        body == chars::capped(
            chars::join(transcript_lines(store@.messages, task_id), "\n"@),
            max_bytes,
            "..."@,
        )
    }

    fn create_task(&mut self, title: &str) -> (task: Task) {
        let now: u64 = now_epoch_secs();
        let n: usize = self.tasks.len();
        let task = Task {
            id: TaskId((n as u64).wrapping_add(1)),
            title: text::trim(title).to_owned(),
            status: TaskStatus::New,
            created_at: now,
            updated_at: now,
        };
        let ghost before = self@;
        self.tasks.push(task.clone());
        assert(self.tasks.len() == n + 1);
        assert(self@.tasks =~= before.tasks.push(task@));
        task
    }

    fn update_task_status(&mut self, id: TaskId, status: TaskStatus) {
        let now: u64 = now_epoch_secs();
        let ghost start = self@;
        let ghost want = with_status(start.tasks, id, status, now);
        let mut i: usize = 0;
        assert(self@.tasks =~= want.take(0) + start.tasks.skip(0));
        while i < self.tasks.len()
            invariant
                i <= self.tasks.len(),
                self.tasks.len() == start.tasks.len(),
                want == with_status(start.tasks, id, status, now),
                self@ == (MemoryModel {
                    tasks: want.take(i as int) + start.tasks.skip(i as int),
                    ..start
                }),
            decreases self.tasks.len() - i,
        {
            let ghost before = self@.tasks;
            assert(before[i as int] == start.tasks[i as int]);
            if self.tasks[i].id.0 == id.0 {
                let old_task = self.tasks[i].clone();
                let ghost t = old_task@;
                self.tasks.set(i, Task { status, updated_at: now, ..old_task });
                assert(self@.tasks =~= before.update(i as int, want[i as int]));
            }
            assert(self@.tasks =~= want.take(i + 1) + start.tasks.skip(i + 1));
            i += 1;
        }
        assert(self@.tasks =~= want);
    }

    fn get_task(&self, id: TaskId) -> (task: Option<Task>) {
        match self.position(id) {
            Some(i) => Some(self.tasks[i].clone()),
            None => None,
        }
    }

    fn list_tasks(&self) -> (tasks: Vec<Task>) {
        let mut out: Vec<Task> = Vec::new();
        let mut i: usize = 0;
        while i < self.tasks.len()
            invariant
                i <= self.tasks.len(),
                out@ == self.tasks@.take(i as int),
            decreases self.tasks.len() - i,
        {
            out.push(self.tasks[i].clone());
            assert(out@ =~= self.tasks@.take(i + 1));
            i += 1;
        }
        assert(self.tasks@.take(i as int) =~= self.tasks@);
        out
    }

    fn append_message(&mut self, task_id: TaskId, role: &str, body: &str) {
        let ghost before = self@;
        self.messages.push_back(
            MessageRecord { task_id, role: role.to_owned(), body: body.to_owned() },
        );
        assert(self@.messages =~= before.messages.push(
            MessageModel { task_id, role: role@, body: body@ },
        ));
        self.trim();
    }

    fn append_tool_result(&mut self, task_id: TaskId, result: &ToolResult) {
        let ghost before = self@;
        self.tool_results.push_back(ToolRecord { task_id, result: result.clone() });
        assert(self@.tool_results =~= before.tool_results.push(
            ToolRunModel { task_id, result: result@ },
        ));
        self.trim();
    }

    fn set_fact(&mut self, key: &str, value: &str) {
        self.facts.insert(key, value);
    }

    fn delete_fact(&mut self, key: &str) {
        self.facts.remove(key);
    }

    fn get_fact(&self, key: &str) -> (value: Option<String>) {
        match self.facts.get(key) {
            Some(v) => Some(v.to_owned()),
            None => None,
        }
    }

    fn memory_index(&self, query: &str, limit: usize) -> (entries: Vec<MemoryIndexEntry>) {
        let mut out = index_tasks(&self.tasks, query);
        let ghost head = entry_models(out@);
        let ghost want = Seq::new(
            self@.messages.len(),
            |i: int| message_entry(self@.messages[i], i as nat, query@),
        );
        let mut i: usize = 0;
        assert(entry_models(out@) =~= head + want.take(0));
        while i < self.messages.len()
            invariant
                i <= self.messages.len(),
                want == Seq::new(
                    self@.messages.len(),
                    |i: int| message_entry(self@.messages[i], i as nat, query@),
                ),
                entry_models(out@) == head + want.take(i as int),
            decreases self.messages.len() - i,
        {
            let ghost before = entry_models(out@);
            let m = &self.messages[i];
            assert(self@.messages[i as int] == m.model());
            let e = MemoryIndexEntry {
                id: tag_number("msg:", m.task_id, i),
                task_id: Some(m.task_id),
                kind: "message/".to_owned().concat(m.role.as_str()),
                summary: cap_chars(m.body.as_str(), 160),
                bytes: text::byte_len(m.body.as_str()),
                score: relevance(query, m.body.as_str()),
            };
            assert(e@ == want[i as int]);
            out.push(e);
            assert(entry_models(out@) =~= before.push(want[i as int]));
            assert(before.push(want[i as int]) =~= head + want.take(i + 1));
            i += 1;
        }
        assert(want.take(i as int) =~= want);
        let ghost head = entry_models(out@);
        let ghost want = Seq::new(
            self@.tool_results.len(),
            |i: int| tool_entry(self@.tool_results[i], i as nat, query@),
        );
        let mut i: usize = 0;
        assert(entry_models(out@) =~= head + want.take(0));
        while i < self.tool_results.len()
            invariant
                i <= self.tool_results.len(),
                want == Seq::new(
                    self@.tool_results.len(),
                    |i: int| tool_entry(self@.tool_results[i], i as nat, query@),
                ),
                entry_models(out@) == head + want.take(i as int),
            decreases self.tool_results.len() - i,
        {
            let ghost before = entry_models(out@);
            let t = &self.tool_results[i];
            assert(self@.tool_results[i as int] == t.model());
            let e = MemoryIndexEntry {
                id: tag_number("tool:", t.task_id, i),
                task_id: Some(t.task_id),
                kind: "tool/".to_owned().concat(t.result.name.as_str()),
                summary: cap_chars(t.result.output.as_str(), 160),
                bytes: text::byte_len(t.result.output.as_str()),
                score: relevance(query, t.result.output.as_str()),
            };
            assert(e@ == want[i as int]);
            out.push(e);
            assert(entry_models(out@) =~= before.push(want[i as int]));
            assert(before.push(want[i as int]) =~= head + want.take(i + 1));
            i += 1;
        }
        assert(want.take(i as int) =~= want);
        let ghost head = entry_models(out@);
        let ghost want = Seq::new(self@.facts.len(), |i: int| fact_entry(self@.facts[i], query@));
        let mut i: usize = 0;
        assert(entry_models(out@) =~= head + want.take(0));
        while i < self.facts.len()
            invariant
                i <= self@.facts.len(),
                self@.facts == self.facts@,
                want == Seq::new(
                    self@.facts.len(),
                    |i: int| fact_entry(self@.facts[i], query@),
                ),
                entry_models(out@) == head + want.take(i as int),
            decreases self@.facts.len() - i,
        {
            let ghost before = entry_models(out@);
            let key = self.facts.key(i);
            let value = self.facts.value(i);
            let mut line = key.to_owned();
            line.append("=");
            line.append(value);
            let mut searched = key.to_owned();
            searched.append(" ");
            searched.append(value);
            let e = MemoryIndexEntry {
                id: "fact:".to_owned().concat(key),
                task_id: None,
                kind: "fact".to_owned(),
                summary: cap_chars(line.as_str(), 160),
                bytes: text::byte_len(value),
                score: relevance(query, searched.as_str()),
            };
            assert(e@ == want[i as int]);
            out.push(e);
            assert(entry_models(out@) =~= before.push(want[i as int]));
            assert(before.push(want[i as int]) =~= head + want.take(i + 1));
            i += 1;
        }
        assert(want.take(i as int) =~= want);
        assert(entry_models(out@) == all_entries(self@, query@));
        rank(out, limit)
    }

    fn memory_detail(&self, id: &str, max_bytes: usize) -> (detail: Option<MemoryDetail>) {
        let mut body: Option<String> = None;
        if let Some(raw) = text::after_prefix(id, "task:") {
            if let Some(n) = numbers::parse_u64(raw) {
                if let Some(i) = self.position(TaskId(n)) {
                    body = Some(task_text(&self.tasks[i]));
                }
            }
        } else if let Some(rest) = text::after_prefix(id, "msg:") {
            if let Some(i) = number_at_end(rest) {
                if i < self.messages.len() {
                    let m = &self.messages[i];
                    assert(self@.messages[i as int] == m.model());
                    let mut out = m.task_id.label();
                    out.append(" ");
                    out.append(m.role.as_str());
                    out.append(": ");
                    out.append(m.body.as_str());
                    body = Some(out);
                }
            }
        } else if let Some(rest) = text::after_prefix(id, "tool:") {
            if let Some(i) = number_at_end(rest) {
                if i < self.tool_results.len() {
                    let t = &self.tool_results[i];
                    assert(self@.tool_results[i as int] == t.model());
                    let mut out = t.task_id.label();
                    out.append(" ");
                    out.append(t.result.name.as_str());
                    out.append(" ok=");
                    out.append(text::bool_text(t.result.ok));
                    out.append(": ");
                    out.append(t.result.output.as_str());
                    body = Some(out);
                }
            }
        } else if let Some(key) = text::after_prefix(id, "fact:") {
            if let Some(value) = self.facts.get(key) {
                let mut out = key.to_owned();
                out.append("=");
                out.append(value);
                body = Some(out);
            }
        }
        match body {
            Some(b) => Some(
                MemoryDetail { id: id.to_owned(), body: cap_bytes(b.as_str(), max_bytes) },
            ),
            None => None,
        }
    }

    fn task_context(&self, task_id: TaskId, max_bytes: usize) -> (body: String) {
        let mut parts: Vec<String> = Vec::new();
        let mut i: usize = 0;
        let ghost all = self@.messages;
        assert(all.take(0) =~= Seq::empty());
        assert(chars::owned_texts(parts@) =~= Seq::empty());
        while i < self.messages.len()
            invariant
                i <= self.messages.len(),
                all == self@.messages,
                chars::owned_texts(parts@) == transcript_lines(all.take(i as int), task_id),
            decreases self.messages.len() - i,
        {
            let m = &self.messages[i];
            assert(all[i as int] == m.model());
            assert(all.take(i + 1).drop_last() =~= all.take(i as int));
            if m.task_id.0 == task_id.0 {
                let ghost before = parts@;
                let mut line = m.role.clone();
                line.append(": ");
                line.append(m.body.as_str());
                let ghost l = line@;
                parts.push(line);
                assert(chars::owned_texts(parts@) =~= chars::owned_texts(before).push(l));
            }
            i += 1;
        }
        assert(all.take(i as int) =~= all);
        cap_bytes(text::join_owned(&parts, "\n").as_str(), max_bytes)
    }
}

// ---------------------------------------------------------------------------
// Sequences of operations
// ---------------------------------------------------------------------------

/// One operation on a store, with the answer of a read.
pub ghost enum MemoryOp {
    Create { title: Seq<char>, task: Task },
    Status { id: TaskId, status: TaskStatus },
    Message { task_id: TaskId, role: Seq<char>, body: Seq<char> },
    Tool { task_id: TaskId, result: ToolModel },
    SetFact { key: Seq<char>, value: Seq<char> },
    DeleteFact { key: Seq<char> },
    Fact { key: Seq<char>, answer: Option<Seq<char>> },
    Transcript { task_id: TaskId, max_bytes: nat, body: Seq<char> },
    Recall {
        query: Seq<char>,
        index_limit: nat,
        detail_limit: nat,
        detail_bytes: nat,
        memory: ProgressiveModel,
    },
}

/// The operation takes the store from `pre` to `post`; a read leaves it alone.
pub open spec fn performs<M: MemoryStore>(pre: M, op: MemoryOp, post: M) -> bool {
    match op {
        MemoryOp::Create { title, task } => M::created(pre, post, title, task),
        MemoryOp::Status { id, status } => M::status_set(pre, post, id, status),
        MemoryOp::Message { task_id, role, body } => M::message_added(
            pre,
            post,
            task_id,
            role,
            body,
        ),
        MemoryOp::Tool { task_id, result } => M::tool_added(pre, post, task_id, result),
        MemoryOp::SetFact { key, value } => M::fact_set(pre, post, key, value),
        MemoryOp::DeleteFact { key } => M::fact_deleted(pre, post, key),
        MemoryOp::Fact { key, answer } => pre == post && M::fact_found(pre, key, answer),
        MemoryOp::Transcript { task_id, max_bytes, body } => pre == post && M::transcript(
            pre,
            task_id,
            max_bytes,
            body,
        ),
        MemoryOp::Recall { query, index_limit, detail_limit, detail_bytes, memory } => pre == post
            && recalled(pre, query, index_limit, detail_limit, detail_bytes, memory),
    }
}

/// The operations, one after the other, take the store from `pre` to `post`.
pub open spec fn performed<M: MemoryStore>(pre: M, ops: Seq<MemoryOp>, post: M) -> bool
    decreases ops.len(),
{
    if ops.len() == 0 {
        pre == post
    } else {
        exists|mid: M|
            performed(pre, ops.drop_last(), mid) && #[trigger] performs(mid, ops.last(), post)
    }
}

pub proof fn lemma_performed_push<M: MemoryStore>(
    pre: M,
    ops: Seq<MemoryOp>,
    mid: M,
    op: MemoryOp,
    post: M,
)
    requires
        performed(pre, ops, mid),
        performs(mid, op, post),
    ensures
        performed(pre, ops.push(op), post),
{
    let all = ops.push(op);
    assert(all.drop_last() =~= ops);
    assert(performed(pre, all.drop_last(), mid) && performs(mid, all.last(), post));
}

pub proof fn lemma_performed_concat<M: MemoryStore>(
    pre: M,
    first: Seq<MemoryOp>,
    mid: M,
    second: Seq<MemoryOp>,
    post: M,
)
    requires
        performed(pre, first, mid),
        performed(mid, second, post),
    ensures
        performed(pre, first + second, post),
    decreases second.len(),
{
    if second.len() == 0 {
        assert(first + second =~= first);
    } else {
        let last = choose|last: M|
            performed(mid, second.drop_last(), last) && #[trigger] performs(last, second.last(), post);
        lemma_performed_concat(pre, first, mid, second.drop_last(), last);
        lemma_performed_push(pre, first + second.drop_last(), last, second.last(), post);
        assert((first + second.drop_last()).push(second.last()) =~= first + second);
    }
}

// ---------------------------------------------------------------------------
// Laws
// ---------------------------------------------------------------------------

/// Every operation keeps a store in memory well formed: the number of messages
/// and of tool results never passes the limit, task numbers stay consecutive,
/// and no fact is kept twice.
pub proof fn law_operations_keep_bounds(
    pre: InMemoryStore,
    ops: Seq<MemoryOp>,
    post: InMemoryStore,
)
    requires
        pre.wf(),
        performed(pre, ops, post),
    ensures
        post.wf(),
        post@.max_records == pre@.max_records,
    decreases ops.len(),
{
    if ops.len() > 0 {
        let mid = choose|mid: InMemoryStore|
            performed(pre, ops.drop_last(), mid) && #[trigger] performs(mid, ops.last(), post);
        law_operations_keep_bounds(pre, ops.drop_last(), mid);
        match ops.last() {
            MemoryOp::SetFact { key, value } => {
                table::lemma_put_ordered(mid@.facts, key, value);
            },
            MemoryOp::DeleteFact { key } => {
                table::lemma_without_ordered(mid@.facts, key);
            },
            MemoryOp::Status { id, status } => {
                let now = choose|now: u64|
                    post@ == (MemoryModel {
                        tasks: #[trigger] with_status(mid@.tasks, id, status, now),
                        ..mid@
                    });
                assert forall|i: int| 0 <= i < post@.tasks.len() implies (
                #[trigger] post@.tasks[i]).id.0 == i + 1 by {
                    assert(mid@.tasks[i].id.0 == i + 1);
                }
            },
            _ => {},
        }
    }
}

/// A message that was recorded is the last one, unless the store keeps none.
pub proof fn law_message_is_last(
    pre: InMemoryStore,
    post: InMemoryStore,
    task_id: TaskId,
    role: Seq<char>,
    body: Seq<char>,
)
    requires
        <InMemoryStore as MemoryStore>::message_added(pre, post, task_id, role, body),
        pre@.max_records > 0,
    ensures
        post@.messages.len() > 0,
        post@.messages.last() == (MessageModel { task_id, role, body }),
{
}

/// A fact reads back as it was set, and setting it leaves the other facts alone.
pub proof fn law_fact_reads_back(
    pre: InMemoryStore,
    post: InMemoryStore,
    key: Seq<char>,
    value: Seq<char>,
    other: Seq<char>,
    answer: Option<Seq<char>>,
)
    requires
        pre.wf(),
        <InMemoryStore as MemoryStore>::fact_set(pre, post, key, value),
        <InMemoryStore as MemoryStore>::fact_found(post, other, answer),
    ensures
        other == key ==> answer == Some(value),
        other != key ==> <InMemoryStore as MemoryStore>::fact_found(pre, other, answer),
{
    table::law_put_then_lookup(pre@.facts, key, value, other);
}

/// A deleted fact is gone, and deleting it leaves the other facts alone.
pub proof fn law_fact_deleted(
    pre: InMemoryStore,
    post: InMemoryStore,
    key: Seq<char>,
    other: Seq<char>,
    answer: Option<Seq<char>>,
)
    requires
        pre.wf(),
        <InMemoryStore as MemoryStore>::fact_deleted(pre, post, key),
        <InMemoryStore as MemoryStore>::fact_found(post, other, answer),
    ensures
        other == key ==> answer is None,
        other != key ==> <InMemoryStore as MemoryStore>::fact_found(pre, other, answer),
{
    table::law_without_then_lookup(pre@.facts, key, other);
}

/// A created task is found under its identifier, and no task was before it.
pub proof fn law_created_task_is_found(
    pre: InMemoryStore,
    post: InMemoryStore,
    title: Seq<char>,
    task: Task,
)
    requires
        pre.wf(),
        <InMemoryStore as MemoryStore>::created(pre, post, title, task),
    ensures
        task_of(pre@.tasks, task.id) is None,
        task_of(post@.tasks, task.id) == Some(task@),
{
    lemma_task_absent(pre@.tasks, task.id);
    lemma_task_appended(pre@.tasks, task@);
}

proof fn lemma_task_absent(tasks: Seq<TaskModel>, id: TaskId)
    requires
        forall|i: int| 0 <= i < tasks.len() ==> (#[trigger] tasks[i]).id != id,
    ensures
        task_of(tasks, id) is None,
    decreases tasks.len(),
{
    if tasks.len() > 0 {
        lemma_task_absent(tasks.skip(1), id);
    }
}

proof fn lemma_task_appended(tasks: Seq<TaskModel>, t: TaskModel)
    requires
        forall|i: int| 0 <= i < tasks.len() ==> (#[trigger] tasks[i]).id != t.id,
    ensures
        task_of(tasks.push(t), t.id) == Some(t),
    decreases tasks.len(),
{
    if tasks.len() > 0 {
        lemma_task_appended(tasks.skip(1), t);
        assert(tasks.push(t).skip(1) =~= tasks.skip(1).push(t));
    }
}

/// A detail never takes more than its byte budget and the ellipsis.
pub proof fn law_detail_keeps_budget(
    store: InMemoryStore,
    id: Seq<char>,
    max_bytes: nat,
    detail: DetailModel,
)
    requires
        <InMemoryStore as MemoryStore>::detailed(store, id, max_bytes, Some(detail)),
    ensures
        chars::byte_len(detail.body) <= max_bytes + 3,
        detail.id == id,
{
    match body_of(store@, id) {
        Some(b) => {
            chars::law_capped_keeps_limit(b, max_bytes, "..."@);
            reveal_strlit("...");
            chars::lemma_ascii_byte_len("..."@);
        },
        None => {},
    }
}

}
