//! Promises of the memory: what it keeps, finds, ranks and shows.
use vstd::prelude::*;

use crate::chars;
use crate::chars::CharSet;
use crate::laws::texts::{
    law_find_is_first_occurrence, law_lower_of_parts, law_occurrence_carries_over,
    lemma_concat_part, lemma_filter_all, lemma_filter_concat, lemma_filter_has, lemma_filter_none,
    lemma_part, lemma_pieces_break, lemma_within, occurs, stands_at,
};
use crate::memory::{
    all_entries, body_of, fact_entry, found, hits, law_ranked_sorts, message_entry, performed,
    performs, ranked, record_number, relevance_score, task_entry, task_of, terms, tool_entry,
    transcript_lines, with_status, DetailModel, EntryModel, InMemoryStore, MemoryModel, MemoryOp,
    MemoryStore, MessageModel, ProgressiveModel, ToolRunModel,
};
use crate::numbers;
use crate::table;
use crate::types::{TaskId, TaskModel, TaskStatus, ToolModel};

verus! {

// ---------------------------------------------------------------------------
// Scores
// ---------------------------------------------------------------------------

/// A run of three or more letters and digits.
pub open spec fn is_term(w: Seq<char>) -> bool {
    &&& w.len() >= 3
    &&& forall|i: int| 0 <= i < w.len() ==> chars::is_alphanumeric(#[trigger] w[i])
}

/// The run stands in the query between `a` and `b`, and is not part of a longer
/// run.
pub open spec fn is_run(query: Seq<char>, a: Seq<char>, w: Seq<char>, b: Seq<char>) -> bool {
    &&& query == a + w + b
    &&& a.len() > 0 ==> !chars::is_alphanumeric(a.last())
    &&& b.len() > 0 ==> !chars::is_alphanumeric(b[0])
}

proof fn lemma_terms_break(a: Seq<char>, c: char, b: Seq<char>)
    requires
        !chars::is_alphanumeric(c),
    ensures
        terms(a + seq![c] + b) == terms(a) + terms(b),
{
    let set = CharSet::NotAlphanumeric;
    law_lower_of_parts(a + seq![c], b);
    law_lower_of_parts(a, seq![c]);
    assert(chars::lower_char(c) == c);
    assert(chars::lower(seq![c]) =~= seq![c]);
    lemma_pieces_break(chars::lower(a), c, chars::lower(b), set);
    lemma_filter_concat(
        chars::pieces(chars::lower(a), set),
        chars::pieces(chars::lower(b), set),
        chars::at_least(3),
    );
}

proof fn lemma_hits_concat(a: Seq<Seq<char>>, b: Seq<Seq<char>>, body: Seq<char>)
    ensures
        hits(a + b, body) == hits(a, body) + hits(b, body),
    decreases b.len(),
{
    if b.len() == 0 {
        assert(a + b =~= a);
    } else {
        lemma_hits_concat(a, b.drop_last(), body);
        assert((a + b).drop_last() =~= a + b.drop_last());
        assert((a + b).last() == b.last());
    }
}

proof fn lemma_hits_more(ts: Seq<Seq<char>>, a: Seq<char>, body: Seq<char>, b: Seq<char>)
    ensures
        hits(ts, body) <= hits(ts, a + body + b),
    decreases ts.len(),
{
    if ts.len() > 0 {
        lemma_hits_more(ts.drop_last(), a, body, b);
        law_find_is_first_occurrence(body, ts.last());
        if chars::contains(body, ts.last()) {
            law_occurrence_carries_over(a, body, b, ts.last());
        }
    }
}

proof fn lemma_lower_alnum(c: char)
    ensures
        chars::is_alphanumeric(chars::lower_char(c)) == chars::is_alphanumeric(c),
{
}

/// The terms of a single run of letters and digits: itself in lower case, where
/// it is long enough.
proof fn lemma_terms_of_run(w: Seq<char>)
    requires
        forall|i: int| 0 <= i < w.len() ==> chars::is_alphanumeric(#[trigger] w[i]),
    ensures
        w.len() >= 3 ==> terms(w) == seq![chars::lower(w)],
        w.len() < 3 ==> terms(w).len() == 0,
{
    let set = CharSet::NotAlphanumeric;
    let l = chars::lower(w);
    assert forall|j: int| 0 <= j < l.len() implies !set.has(#[trigger] l[j]) by {
        lemma_lower_alnum(w[j]);
        assert(chars::is_alphanumeric(w[j]));
    }
    chars::lemma_until_is(l, set, l.len() as int);
    assert(chars::pieces(l, set) =~= seq![l]);
    if w.len() >= 3 {
        lemma_filter_all(seq![l], chars::at_least(3));
    } else {
        lemma_filter_none(seq![l], chars::at_least(3));
    }
}

/// Ten points at least for a text that holds, up to case, a run of three or more
/// letters and digits of the query.
pub proof fn law_matching_term_scores(
    query: Seq<char>,
    a: Seq<char>,
    w: Seq<char>,
    b: Seq<char>,
    body: Seq<char>,
)
    requires
        is_run(query, a, w, b),
        is_term(w),
        occurs(chars::lower(body), chars::lower(w)),
    ensures
        relevance_score(query, body) >= 10,
{
    let low = chars::lower(body);
    lemma_terms_of_run(w);
    law_find_is_first_occurrence(low, chars::lower(w));
    let one = seq![chars::lower(w)];
    assert(one.drop_last() =~= seq![]);
    assert(hits(one.drop_last(), low) == 0);
    assert(hits(one, low) == 1);
    let left = if a.len() > 0 {
        terms(a.drop_last())
    } else {
        seq![]
    };
    let right = if b.len() > 0 {
        terms(b.skip(1))
    } else {
        seq![]
    };
    let mid = w + b;
    if b.len() > 0 {
        assert(mid =~= w + seq![b[0]] + b.skip(1));
        lemma_terms_break(w, b[0], b.skip(1));
    } else {
        assert(mid =~= w);
        assert(terms(w) + right =~= terms(w));
    }
    assert(terms(mid) == terms(w) + right);
    if a.len() > 0 {
        assert(query =~= a.drop_last() + seq![a.last()] + mid);
        lemma_terms_break(a.drop_last(), a.last(), mid);
    } else {
        assert(query =~= mid);
        assert(left + terms(mid) =~= terms(mid));
    }
    assert(terms(query) == left + (terms(w) + right));
    lemma_hits_concat(left, terms(w) + right, low);
    lemma_hits_concat(terms(w), right, low);
}

/// Two queries one after the other score as their sum, where both match and the
/// sum is in range: each term counts ten.
pub proof fn law_scores_of_terms_add_up(a: Seq<char>, c: char, b: Seq<char>, body: Seq<char>)
    requires
        !chars::is_alphanumeric(c),
    ensures
        ({
            let x = relevance_score(a, body);
            let y = relevance_score(b, body);
            let both = relevance_score(a + seq![c] + b, body);
            &&& x >= 10 && y >= 10 && x + y <= 65535 ==> both == x + y
            &&& x >= 10 && y < 10 ==> both == x
            &&& x < 10 ==> both == y
        }),
{
    let low = chars::lower(body);
    lemma_terms_break(a, c, b);
    lemma_hits_concat(terms(a), terms(b), low);
}

/// One run of letters and digits is worth ten points where it has three
/// characters or more and the text holds it, and else the one point that every
/// text gets.
pub proof fn law_score_of_one_term(w: Seq<char>, body: Seq<char>)
    requires
        forall|i: int| 0 <= i < w.len() ==> chars::is_alphanumeric(#[trigger] w[i]),
    ensures
        w.len() >= 3 && occurs(chars::lower(body), chars::lower(w)) ==> relevance_score(w, body)
            == 10,
        w.len() < 3 || !occurs(chars::lower(body), chars::lower(w)) ==> relevance_score(w, body)
            == 1,
{
    let low = chars::lower(body);
    lemma_terms_of_run(w);
    law_find_is_first_occurrence(low, chars::lower(w));
    if w.len() >= 3 {
        let one = seq![chars::lower(w)];
        assert(one.drop_last() =~= seq![]);
        assert(hits(one.drop_last(), low) == 0);
    }
}

/// A longer text scores no less, and no score is under 1 or over 65535.
pub proof fn law_longer_texts_score_more(
    query: Seq<char>,
    a: Seq<char>,
    body: Seq<char>,
    b: Seq<char>,
)
    ensures
        1 <= relevance_score(query, body) <= relevance_score(query, a + body + b),
        relevance_score(query, a + body + b) <= 65535,
{
    law_lower_of_parts(a + body, b);
    law_lower_of_parts(a, body);
    lemma_hits_more(terms(query), chars::lower(a), chars::lower(body), chars::lower(b));
}

// ---------------------------------------------------------------------------
// The index
// ---------------------------------------------------------------------------

/// A fact is scored by its key and by its value: it gets at least what either of
/// them gets.
pub proof fn law_fact_is_scored_by_key_and_value(
    key: Seq<char>,
    value: Seq<char>,
    query: Seq<char>,
)
    ensures
        fact_entry((key, value), query).score >= relevance_score(query, key),
        fact_entry((key, value), query).score >= relevance_score(query, value),
        fact_entry((key, value), query).id == "fact:"@ + key,
        fact_entry((key, value), query).task_id is None,
        fact_entry((key, value), query).kind == "fact"@,
{
    law_longer_texts_score_more(query, seq![], key, " "@ + value);
    assert(Seq::<char>::empty() + key + (" "@ + value) =~= key + " "@ + value);
    law_longer_texts_score_more(query, key + " "@, value, seq![]);
    assert(key + " "@ + value + Seq::<char>::empty() =~= key + " "@ + value);
}

/// What an entry says of a text: its first 160 characters on one line, its length
/// in bytes, and how it matches the query.
pub open spec fn describes(e: EntryModel, shown: Seq<char>, body: Seq<char>, query: Seq<char>) -> bool {
    &&& e.bytes == chars::byte_len(body)
    &&& e.score >= relevance_score(query, body)
    &&& !e.summary.contains('\n')
    &&& shown.len() <= 160 && !shown.contains('\n') ==> e.summary == shown
    &&& shown.len() > 160 ==> e.summary.len() == 163 && forall|i: int|
        0 <= i < 160 && shown[i] != '\n' ==> #[trigger] e.summary[i] == shown[i]
}

proof fn lemma_summary(shown: Seq<char>)
    ensures
        ({
            let r = crate::memory::on_one_line(shown, 160);
            &&& !r.contains('\n')
            &&& shown.len() <= 160 && !shown.contains('\n') ==> r == shown
            &&& shown.len() > 160 ==> r.len() == 163 && forall|i: int|
                0 <= i < 160 && shown[i] != '\n' ==> #[trigger] r[i] == shown[i]
        }),
{
    reveal_strlit(" ");
    reveal_strlit("...");
    let cut = if shown.len() > 160 {
        shown.take(160) + "..."@
    } else {
        shown
    };
    assert(!" "@.contains('\n'));
    crate::laws::texts::law_replaced_character_is_gone(cut, '\n', " "@);
    if shown.len() > 160 {
        let r = crate::memory::on_one_line(shown, 160);
        assert forall|i: int| 0 <= i < 160 && shown[i] != '\n' implies #[trigger] r[i]
            == shown[i] by {
            assert(cut[i] == shown[i]);
        }
    }
}

/// The entries of tasks, messages, tool results and facts describe what they
/// stand for, and name it.
pub proof fn law_entries_describe_their_records(
    t: TaskModel,
    m: MessageModel,
    r: ToolRunModel,
    f: (Seq<char>, Seq<char>),
    i: nat,
    query: Seq<char>,
)
    ensures
        describes(task_entry(t, query), t.title + " ["@ + t.status.name() + "]"@, t.title, query),
        task_entry(t, query).id == "task:"@ + numbers::decimal(t.id.0 as nat),
        task_entry(t, query).task_id == Some(t.id),
        describes(message_entry(m, i, query), m.body, m.body, query),
        message_entry(m, i, query).id == "msg:"@ + numbers::decimal(m.task_id.0 as nat) + ":"@
            + numbers::decimal(i),
        message_entry(m, i, query).task_id == Some(m.task_id),
        describes(tool_entry(r, i, query), r.result.output, r.result.output, query),
        tool_entry(r, i, query).id == "tool:"@ + numbers::decimal(r.task_id.0 as nat) + ":"@
            + numbers::decimal(i),
        tool_entry(r, i, query).task_id == Some(r.task_id),
        describes(fact_entry(f, query), f.0 + "="@ + f.1, f.1, query),
{
    lemma_summary(t.title + " ["@ + t.status.name() + "]"@);
    lemma_summary(m.body);
    lemma_summary(r.result.output);
    lemma_summary(f.0 + "="@ + f.1);
    law_fact_is_scored_by_key_and_value(f.0, f.1, query);
}

/// Every task, message, tool result and fact has its entry in the index, and
/// there are no others.
pub proof fn law_index_covers_everything(m: MemoryModel, query: Seq<char>)
    ensures
        all_entries(m, query).len() == m.tasks.len() + m.messages.len() + m.tool_results.len()
            + m.facts.len(),
        forall|i: int|
            0 <= i < m.tasks.len() ==> all_entries(m, query).contains(
                task_entry(#[trigger] m.tasks[i], query),
            ),
        forall|i: int|
            0 <= i < m.messages.len() ==> all_entries(m, query).contains(
                message_entry(#[trigger] m.messages[i], i as nat, query),
            ),
        forall|i: int|
            0 <= i < m.tool_results.len() ==> all_entries(m, query).contains(
                tool_entry(#[trigger] m.tool_results[i], i as nat, query),
            ),
        forall|i: int|
            0 <= i < m.facts.len() ==> all_entries(m, query).contains(
                fact_entry(#[trigger] m.facts[i], query),
            ),
{
    let all = all_entries(m, query);
    let a = m.tasks.len();
    let b = m.messages.len();
    let c = m.tool_results.len();
    assert forall|i: int| 0 <= i < m.tasks.len() implies all.contains(
        task_entry(#[trigger] m.tasks[i], query),
    ) by {
        assert(all[i] == task_entry(m.tasks[i], query));
    }
    assert forall|i: int| 0 <= i < m.messages.len() implies all.contains(
        message_entry(#[trigger] m.messages[i], i as nat, query),
    ) by {
        assert(all[a + i] == message_entry(m.messages[i], i as nat, query));
    }
    assert forall|i: int| 0 <= i < m.tool_results.len() implies all.contains(
        tool_entry(#[trigger] m.tool_results[i], i as nat, query),
    ) by {
        assert(all[a + b + i] == tool_entry(m.tool_results[i], i as nat, query));
    }
    assert forall|i: int| 0 <= i < m.facts.len() implies all.contains(
        fact_entry(#[trigger] m.facts[i], query),
    ) by {
        assert(all[a + b + c + i] == fact_entry(m.facts[i], query));
    }
}

/// The index gives as many entries as it may, of those that there are, the higher
/// scores first; none that it leaves out has a higher score than one that it
/// gives.
pub proof fn law_index_gives_the_best(
    store: InMemoryStore,
    query: Seq<char>,
    limit: nat,
    entries: Seq<EntryModel>,
)
    requires
        <InMemoryStore as MemoryStore>::indexed(store, query, limit, entries),
    ensures
        entries.len() == (if all_entries(store@, query).len() <= limit {
            all_entries(store@, query).len()
        } else {
            limit
        }),
        forall|i: int|
            0 <= i < entries.len() ==> all_entries(store@, query).contains(#[trigger] entries[i]),
        forall|i: int, j: int|
            0 <= i < j < entries.len() ==> (#[trigger] entries[i]).score >= (
            #[trigger] entries[j]).score,
        forall|i: int, e: EntryModel|
            0 <= i < entries.len() && all_entries(store@, query).contains(e) && !entries.contains(e)
                ==> (#[trigger] entries[i]).score >= (#[trigger] id_of(e)).score,
{
    let all = all_entries(store@, query);
    let r = ranked(all);
    law_ranked_sorts(all);
    all.to_multiset_ensures();
    r.to_multiset_ensures();
    assert(r.len() == all.len());
    assert forall|i: int| 0 <= i < entries.len() implies all.contains(#[trigger] entries[i]) by {
        assert(entries[i] == r[i]);
        assert(r.contains(r[i]));
        assert(r.to_multiset().count(r[i]) > 0);
    }
    assert forall|i: int, j: int| 0 <= i < j < entries.len() implies (#[trigger] entries[i]).score
        >= (#[trigger] entries[j]).score by {
        assert(!crate::memory::ranks_before(r[j], r[i]));
    }
    assert forall|i: int, e: EntryModel|
        0 <= i < entries.len() && all.contains(e) && !entries.contains(e) implies (
    #[trigger] entries[i]).score >= (#[trigger] id_of(e)).score by {
        assert(all.to_multiset().count(e) > 0);
        assert(r.contains(e));
        let k = choose|k: int| 0 <= k < r.len() && r[k] == e;
        if k < entries.len() {
            assert(entries[k] == e);
        }
        assert(!crate::memory::ranks_before(r[k], r[i]));
    }
}

/// The entry itself.
pub open spec fn id_of(e: EntryModel) -> EntryModel {
    e
}

/// A fact whose value or key holds a term of the query is in the index, or only
/// entries that match the query as well are.
pub proof fn law_matching_fact_is_not_cut_off(
    store: InMemoryStore,
    query: Seq<char>,
    limit: nat,
    entries: Seq<EntryModel>,
    k: int,
)
    requires
        <InMemoryStore as MemoryStore>::indexed(store, query, limit, entries),
        0 <= k < store@.facts.len(),
        relevance_score(query, store@.facts[k].0) >= 10 || relevance_score(
            query,
            store@.facts[k].1,
        ) >= 10,
    ensures
        entries.contains(fact_entry(store@.facts[k], query)) || (entries.len() == limit
            && forall|i: int| 0 <= i < entries.len() ==> (#[trigger] entries[i]).score >= 10),
{
    let f = store@.facts[k];
    let e = fact_entry(f, query);
    law_fact_is_scored_by_key_and_value(f.0, f.1, query);
    law_index_covers_everything(store@, query);
    law_index_gives_the_best(store, query, limit, entries);
    let all = all_entries(store@, query);
    assert(all.contains(fact_entry(store@.facts[k], query)));
    if !entries.contains(e) {
        if all.len() <= limit {
            law_ranked_sorts(all);
            let r = ranked(all);
            all.to_multiset_ensures();
            r.to_multiset_ensures();
            assert(entries == r);
            assert(all.to_multiset().count(e) > 0);
            assert(r.contains(e));
        }
        assert forall|i: int| 0 <= i < entries.len() implies (#[trigger] entries[i]).score
            >= 10 by {
            assert(entries[i].score >= id_of(e).score);
        }
    }
}

// ---------------------------------------------------------------------------
// Details
// ---------------------------------------------------------------------------

proof fn lemma_after(p: Seq<char>, rest: Seq<char>)
    ensures
        chars::after_prefix(p + rest, p) == Some(rest),
{
    assert((p + rest).take(p.len() as int) =~= p);
    assert((p + rest).skip(p.len() as int) =~= rest);
}

proof fn lemma_not_after(s: Seq<char>, p: Seq<char>, i: int)
    requires
        0 <= i < p.len(),
        i < s.len(),
        s[i] != p[i],
    ensures
        chars::after_prefix(s, p) is None,
{
    if chars::starts_with(s, p) {
        assert(s.take(p.len() as int)[i] == s[i]);
    }
}

proof fn lemma_record_number(task: nat, i: nat)
    requires
        i <= usize::MAX,
    ensures
        record_number(numbers::decimal(task) + ":"@ + numbers::decimal(i)) == Some(i),
{
    let d = numbers::decimal(task);
    let e = numbers::decimal(i);
    let s = d + ":"@ + e;
    reveal_strlit(":");
    numbers::lemma_decimal_digits(task);
    law_find_is_first_occurrence(s, ":"@);
    let n = d.len() as int;
    assert(s.subrange(n, n + 1) =~= ":"@);
    assert(stands_at(s, ":"@, n));
    let k = chars::find(s, ":"@)->0 as int;
    if k < n {
        assert(s.subrange(k, k + 1)[0] == ':');
        assert(d[k] == ':');
        assert(chars::is_digit(d[k]));
    } else if k > n {
        assert(!stands_at(s, ":"@, n));
    }
    assert(s.skip(n + 1) =~= e);
    numbers::law_decimal_round_trip(i, usize::MAX as nat);
}

/// What the identifier of a message's entry gives is that message, with its task
/// and its role.
pub proof fn law_message_detail(m: MemoryModel, query: Seq<char>, i: int)
    requires
        0 <= i < m.messages.len(),
        i <= usize::MAX,
    ensures
        body_of(m, message_entry(m.messages[i], i as nat, query).id) == Some(
            m.messages[i].task_id.name() + " "@ + m.messages[i].role + ": "@ + m.messages[i].body,
        ),
{
    reveal_strlit("task:");
    reveal_strlit("msg:");
    let r = m.messages[i];
    let rest = numbers::decimal(r.task_id.0 as nat) + ":"@ + numbers::decimal(i as nat);
    let id = message_entry(r, i as nat, query).id;
    assert(id =~= "msg:"@ + rest);
    lemma_not_after(id, "task:"@, 0);
    lemma_after("msg:"@, rest);
    lemma_record_number(r.task_id.0 as nat, i as nat);
}

/// What the identifier of a tool result's entry gives holds the tool's name and
/// its output.
pub proof fn law_tool_detail(m: MemoryModel, query: Seq<char>, i: int)
    requires
        0 <= i < m.tool_results.len(),
        i <= usize::MAX,
    ensures
        body_of(m, tool_entry(m.tool_results[i], i as nat, query).id) matches Some(b) && occurs(
            b,
            m.tool_results[i].result.output,
        ) && occurs(b, m.tool_results[i].result.name),
{
    reveal_strlit("task:");
    reveal_strlit("msg:");
    reveal_strlit("tool:");
    let r = m.tool_results[i];
    let rest = numbers::decimal(r.task_id.0 as nat) + ":"@ + numbers::decimal(i as nat);
    let id = tool_entry(r, i as nat, query).id;
    assert(id =~= "tool:"@ + rest);
    lemma_not_after(id, "task:"@, 1);
    lemma_not_after(id, "msg:"@, 0);
    lemma_after("tool:"@, rest);
    lemma_record_number(r.task_id.0 as nat, i as nat);
    let head = r.task_id.name() + " "@;
    let ok = chars::bool_text(r.result.ok);
    lemma_part(head, r.result.name, " ok="@ + ok + ": "@ + r.result.output);
    lemma_part(head + r.result.name + " ok="@ + ok + ": "@, r.result.output, seq![]);
    lemma_regroup(head, r.result.name, " ok="@, ok, ": "@, r.result.output);
}

proof fn lemma_regroup(
    a: Seq<char>,
    b: Seq<char>,
    c: Seq<char>,
    d: Seq<char>,
    e: Seq<char>,
    f: Seq<char>,
)
    ensures
        a + b + (c + d + e + f) == a + b + c + d + e + f,
        a + b + c + d + e + f + Seq::<char>::empty() == a + b + c + d + e + f,
{
    assert(a + b + (c + d + e + f) =~= a + b + c + d + e + f);
    assert(a + b + c + d + e + f + Seq::<char>::empty() =~= a + b + c + d + e + f);
}

/// What the identifier of a fact's entry gives is the fact with its value.
pub proof fn law_fact_detail(m: MemoryModel, query: Seq<char>, i: int)
    requires
        m.wf(),
        0 <= i < m.facts.len(),
    ensures
        body_of(m, fact_entry(m.facts[i], query).id) == Some(m.facts[i].0 + "="@ + m.facts[i].1),
{
    reveal_strlit("task:");
    reveal_strlit("msg:");
    reveal_strlit("tool:");
    reveal_strlit("fact:");
    let f = m.facts[i];
    let id = fact_entry(f, query).id;
    lemma_not_after(id, "task:"@, 0);
    lemma_not_after(id, "msg:"@, 0);
    lemma_not_after(id, "tool:"@, 0);
    lemma_after("fact:"@, f.0);
    lemma_lookup_row(m.facts, i);
}

/// What the identifier of a task's entry gives holds its title and its status.
pub proof fn law_task_detail(m: MemoryModel, query: Seq<char>, i: int)
    requires
        m.wf(),
        0 <= i < m.tasks.len(),
    ensures
        body_of(m, task_entry(m.tasks[i], query).id) matches Some(b) && occurs(b, m.tasks[i].title)
            && occurs(b, m.tasks[i].status.name()),
{
    let t = m.tasks[i];
    let id = task_entry(t, query).id;
    lemma_after("task:"@, numbers::decimal(t.id.0 as nat));
    numbers::law_decimal_round_trip(t.id.0 as nat, u64::MAX as nat);
    lemma_task_found(m.tasks, i);
    let a = "task="@ + t.id.name() + " status="@;
    let c = " created="@;
    let d = numbers::decimal(t.created_at as nat);
    let e = " updated="@;
    let f = numbers::decimal(t.updated_at as nat);
    let g = " title="@;
    lemma_part(a, t.status.name(), c + d + e + f + g + t.title);
    lemma_part(a + t.status.name() + c + d + e + f + g, t.title, seq![]);
    lemma_regroup_task(a, t.status.name(), c, d, e, f, g, t.title);
}

proof fn lemma_regroup_task(
    a: Seq<char>,
    b: Seq<char>,
    c: Seq<char>,
    d: Seq<char>,
    e: Seq<char>,
    f: Seq<char>,
    g: Seq<char>,
    h: Seq<char>,
)
    ensures
        a + b + (c + d + e + f + g + h) == a + b + c + d + e + f + g + h,
        a + b + c + d + e + f + g + h + Seq::<char>::empty() == a + b + c + d + e + f + g + h,
{
    assert(a + b + (c + d + e + f + g + h) =~= a + b + c + d + e + f + g + h);
    assert(a + b + c + d + e + f + g + h + Seq::<char>::empty() =~= a + b + c + d + e + f + g + h);
}

proof fn lemma_lookup_row(rows: Seq<table::Row>, i: int)
    requires
        table::ordered(rows),
        0 <= i < rows.len(),
    ensures
        table::lookup(rows, rows[i].0) == Some(rows[i].1),
    decreases rows.len(),
{
    if i > 0 {
        chars::lemma_precedes_asymmetric(rows[0].0, rows[i].0);
        let rest = rows.skip(1);
        assert forall|a: int, b: int| 0 <= a < b < rest.len() implies chars::precedes(
            #[trigger] rest[a].0,
            #[trigger] rest[b].0,
        ) by {
            assert(chars::precedes(rows[a + 1].0, rows[b + 1].0));
        }
        lemma_lookup_row(rest, i - 1);
    }
}

proof fn lemma_task_found(tasks: Seq<TaskModel>, i: int)
    requires
        0 <= i < tasks.len(),
        forall|a: int, b: int|
            0 <= a < b < tasks.len() ==> (#[trigger] tasks[a]).id != (#[trigger] tasks[b]).id,
    ensures
        task_of(tasks, tasks[i].id) == Some(tasks[i]),
    decreases tasks.len(),
{
    if i > 0 {
        assert(tasks[0].id != tasks[i].id);
        let rest = tasks.skip(1);
        assert forall|a: int, b: int| 0 <= a < b < rest.len() implies (#[trigger] rest[a]).id != (
        #[trigger] rest[b]).id by {
            assert(tasks[a + 1].id != tasks[b + 1].id);
        }
        lemma_task_found(rest, i - 1);
    }
}

/// A detail that fits its budget is shown whole.
pub proof fn law_detail_within_budget_is_whole(
    store: InMemoryStore,
    id: Seq<char>,
    max_bytes: nat,
    detail: Option<DetailModel>,
)
    requires
        <InMemoryStore as MemoryStore>::detailed(store, id, max_bytes, detail),
    ensures
        detail is Some == body_of(store@, id) is Some,
        body_of(store@, id) matches Some(b) ==> (chars::byte_len(b) <= max_bytes ==> detail == Some(
            DetailModel { id, body: b },
        )),
        body_of(store@, id) matches Some(b) ==> (chars::byte_len(b) > max_bytes ==> (
        detail matches Some(d) && d.id == id && exists|n: int|
            0 <= n < b.len() && d.body == #[trigger] b.take(n) + "..."@)),
{
    match body_of(store@, id) {
        Some(b) => {
            crate::laws::texts::law_capped_marks_what_is_cut(b, max_bytes, "..."@);
        },
        None => {},
    }
}

/// The memory that a model is shown holds the identifier and the summary of every
/// entry, and the text of every detail.
pub proof fn law_shown_memory_holds_everything(p: ProgressiveModel)
    ensures
        forall|i: int|
            0 <= i < p.index.len() ==> occurs(p.rendered(), (#[trigger] p.index[i]).summary)
                && occurs(p.rendered(), p.index[i].id),
        forall|i: int|
            0 <= i < p.details.len() ==> occurs(p.rendered(), (#[trigger] p.details[i]).body)
                && occurs(p.rendered(), p.details[i].id),
{
    let lines = p.index.map_values(|e: EntryModel| crate::memory::entry_line(e));
    let more = p.details.map_values(|d: DetailModel| crate::memory::detail_line(d));
    let all = p.rendered();
    let a = "Memory index:\n"@;
    let c = chars::concat(lines);
    let d = "Selected memory details:\n"@;
    let e = chars::concat(more);
    let behind = if p.details.len() == 0 {
        seq![]
    } else {
        d + e
    };
    if p.index.len() > 0 || p.details.len() > 0 {
        assert(all =~= a + c + behind);
    }
    assert forall|i: int| 0 <= i < p.index.len() implies occurs(
        all,
        (#[trigger] p.index[i]).summary,
    ) && occurs(all, p.index[i].id) by {
        let x = p.index[i];
        let line = crate::memory::entry_line(x);
        assert(lines[i] == line);
        lemma_concat_part(lines, i);
        let head = "- "@ + x.id + " ["@ + x.kind + " score="@ + numbers::decimal(x.score) + "] "@;
        lemma_part(head, x.summary, "\n"@);
        let tail = " ["@ + x.kind + " score="@ + numbers::decimal(x.score) + "] "@ + x.summary
            + "\n"@;
        lemma_part("- "@, x.id, tail);
        assert("- "@ + x.id + tail =~= line);
        lemma_within(c, line, x.summary);
        lemma_within(c, line, x.id);
        law_occurrence_carries_over(a, c, behind, x.summary);
        law_occurrence_carries_over(a, c, behind, x.id);
    }
    assert forall|i: int| 0 <= i < p.details.len() implies occurs(
        all,
        (#[trigger] p.details[i]).body,
    ) && occurs(all, p.details[i].id) by {
        let x = p.details[i];
        let line = crate::memory::detail_line(x);
        assert(more[i] == line);
        lemma_concat_part(more, i);
        lemma_part("- "@ + x.id + ": "@, x.body, "\n"@);
        lemma_part("- "@, x.id, ": "@ + x.body + "\n"@);
        assert("- "@ + x.id + (": "@ + x.body + "\n"@) =~= line);
        lemma_within(e, line, x.body);
        lemma_within(e, line, x.id);
        law_occurrence_carries_over(a + c + d, e, seq![], x.body);
        law_occurrence_carries_over(a + c + d, e, seq![], x.id);
        assert(a + c + d + e + Seq::<char>::empty() =~= all);
    }
}

// ---------------------------------------------------------------------------
// Transcripts and records
// ---------------------------------------------------------------------------

/// The transcript of a task has one line for each of its messages, in order, with
/// the role and the text, and none for messages of other tasks.
pub proof fn law_transcript_lines_are_the_messages(messages: Seq<MessageModel>, id: TaskId)
    ensures
        transcript_lines(messages, id) == messages.filter(
            |m: MessageModel| m.task_id == id,
        ).map_values(|m: MessageModel| m.role + ": "@ + m.body),
    decreases messages.len(),
{
    reveal(Seq::filter);
    let of_task = |m: MessageModel| m.task_id == id;
    let line = |m: MessageModel| m.role + ": "@ + m.body;
    if messages.len() > 0 {
        let init = messages.drop_last();
        law_transcript_lines_are_the_messages(init, id);
        let kept = init.filter(of_task);
        assert(kept.push(messages.last()).map_values(line) =~= kept.map_values(line).push(
            line(messages.last()),
        ));
    } else {
        assert(transcript_lines(messages, id) =~= messages.filter(of_task).map_values(line));
    }
}

/// A transcript that fits its budget holds every message of its task, with its
/// role.
pub proof fn law_transcript_holds_every_message(
    store: InMemoryStore,
    id: TaskId,
    max_bytes: nat,
    body: Seq<char>,
    i: int,
)
    requires
        <InMemoryStore as MemoryStore>::transcript(store, id, max_bytes, body),
        0 <= i < store@.messages.len(),
        store@.messages[i].task_id == id,
        chars::byte_len(body) + 4 <= max_bytes,
    ensures
        occurs(body, store@.messages[i].role + ": "@ + store@.messages[i].body),
        occurs(body, store@.messages[i].body),
{
    let m = store@.messages[i];
    let messages = store@.messages;
    let lines = transcript_lines(messages, id);
    let whole = chars::join(lines, "\n"@);
    reveal_strlit("...");
    crate::laws::texts::law_capped_marks_what_is_cut(whole, max_bytes, "..."@);
    if chars::byte_len(whole) > max_bytes {
        let n = choose|n: int|
            {
                &&& 0 <= n < whole.len()
                &&& chars::capped(whole, max_bytes, "..."@) == #[trigger] whole.take(n) + "..."@
                &&& chars::byte_len(whole.take(n)) <= max_bytes
                &&& chars::byte_len(whole.take(n + 1)) > max_bytes
            };
        assert(whole.take(n + 1) =~= whole.take(n).push(whole[n]));
        chars::lemma_byte_len_push(whole.take(n), whole[n]);
        chars::lemma_width(whole[n]);
        chars::lemma_byte_len_concat(whole.take(n), "..."@);
        chars::lemma_ascii_byte_len("..."@);
    }
    assert(body == whole);
    law_transcript_lines_are_the_messages(messages, id);
    let kind = |m: MessageModel| m.task_id == id;
    let kept = messages.filter(kind);
    lemma_filter_has(messages, kind, m);
    assert(messages.contains(m));
    let k = choose|k: int| 0 <= k < kept.len() && kept[k] == m;
    assert(lines[k] == m.role + ": "@ + m.body);
    crate::laws::texts::law_joined_parts_stand_in_whole(lines, "\n"@, k);
    lemma_part(m.role + ": "@, m.body, seq![]);
    assert(m.role + ": "@ + m.body + Seq::<char>::empty() =~= lines[k]);
    lemma_within(whole, lines[k], m.body);
}

/// Recording a message keeps the ones before it, as many of the latest as the
/// store may hold, and touches neither tasks nor facts.
pub proof fn law_recorded_message_joins_the_others(
    pre: InMemoryStore,
    post: InMemoryStore,
    task_id: TaskId,
    role: Seq<char>,
    body: Seq<char>,
)
    requires
        pre.wf(),
        <InMemoryStore as MemoryStore>::message_added(pre, post, task_id, role, body),
    ensures
        post@.tasks == pre@.tasks,
        post@.facts == pre@.facts,
        post@.tool_results == pre@.tool_results,
        pre@.messages.len() < pre@.max_records ==> post@.messages == pre@.messages.push(
            MessageModel { task_id, role, body },
        ),
        pre@.messages.len() == pre@.max_records && pre@.max_records > 0 ==> post@.messages
            == pre@.messages.skip(1).push(MessageModel { task_id, role, body }),
        pre@.max_records == 0 ==> post@.messages.len() == 0,
{
    let m = MessageModel { task_id, role, body };
    if pre@.messages.len() == pre@.max_records && pre@.max_records > 0 {
        assert(post@.messages =~= pre@.messages.skip(1).push(m));
    }
}

/// Recording a tool result keeps the ones before it, as many of the latest as the
/// store may hold, and touches nothing else.
pub proof fn law_recorded_result_joins_the_others(
    pre: InMemoryStore,
    post: InMemoryStore,
    task_id: TaskId,
    result: ToolModel,
)
    requires
        pre.wf(),
        <InMemoryStore as MemoryStore>::tool_added(pre, post, task_id, result),
    ensures
        post@.tasks == pre@.tasks,
        post@.facts == pre@.facts,
        post@.messages == pre@.messages,
        pre@.tool_results.len() < pre@.max_records ==> post@.tool_results == pre@.tool_results.push(
            ToolRunModel { task_id, result },
        ),
        pre@.tool_results.len() == pre@.max_records && pre@.max_records > 0 ==> post@.tool_results
            == pre@.tool_results.skip(1).push(ToolRunModel { task_id, result }),
{
    let m = ToolRunModel { task_id, result };
    if pre@.tool_results.len() == pre@.max_records && pre@.max_records > 0 {
        assert(post@.tool_results =~= pre@.tool_results.skip(1).push(m));
    }
}

/// A new status goes to the task that it is set for and to no other one; no task
/// is lost, renamed or added, and nothing else in the store changes.
pub proof fn law_status_goes_to_its_task(
    pre: InMemoryStore,
    post: InMemoryStore,
    id: TaskId,
    status: TaskStatus,
    i: int,
)
    requires
        <InMemoryStore as MemoryStore>::status_set(pre, post, id, status),
        0 <= i < pre@.tasks.len(),
    ensures
        post@.tasks.len() == pre@.tasks.len(),
        post@.tasks[i].id == pre@.tasks[i].id,
        post@.tasks[i].title == pre@.tasks[i].title,
        post@.tasks[i].created_at == pre@.tasks[i].created_at,
        pre@.tasks[i].id == id ==> post@.tasks[i].status == status,
        pre@.tasks[i].id != id ==> post@.tasks[i] == pre@.tasks[i],
        post@.messages == pre@.messages,
        post@.tool_results == pre@.tool_results,
        post@.facts == pre@.facts,
{
}

/// A task is found exactly where the store holds one of that number, as it is.
pub proof fn law_task_is_found_as_it_is(store: InMemoryStore, id: TaskId)
    requires
        store.wf(),
    ensures
        task_of(store@.tasks, id) matches Some(t) ==> t.id == id && store@.tasks.contains(t),
        1 <= id.0 <= store@.tasks.len() ==> task_of(store@.tasks, id) == Some(
            store@.tasks[id.0 - 1],
        ),
        id.0 == 0 || id.0 > store@.tasks.len() ==> task_of(store@.tasks, id) is None,
{
    let tasks = store@.tasks;
    if 1 <= id.0 <= tasks.len() {
        assert(tasks[id.0 - 1].id.0 == id.0);
        assert(tasks[id.0 - 1].id == id);
        lemma_task_found(tasks, id.0 - 1);
    } else {
        lemma_no_task(tasks, id);
    }
}

proof fn lemma_no_task(tasks: Seq<TaskModel>, id: TaskId)
    requires
        forall|i: int| 0 <= i < tasks.len() ==> (#[trigger] tasks[i]).id != id,
    ensures
        task_of(tasks, id) is None,
    decreases tasks.len(),
{
    if tasks.len() > 0 {
        assert(tasks[0].id != id);
        let rest = tasks.skip(1);
        assert forall|i: int| 0 <= i < rest.len() implies (#[trigger] rest[i]).id != id by {
            assert(tasks[i + 1].id != id);
        }
        lemma_no_task(rest, id);
    }
}

/// What was done to a store up to some point can be told apart from what was done
/// to it behind that point.
pub proof fn lemma_performed_split<M: MemoryStore>(
    pre: M,
    first: Seq<MemoryOp>,
    second: Seq<MemoryOp>,
    post: M,
) -> (mid: M)
    requires
        performed(pre, first + second, post),
    ensures
        performed(pre, first, mid),
        performed(mid, second, post),
    decreases second.len(),
{
    if second.len() == 0 {
        assert(first + second =~= first);
        post
    } else {
        let all = first + second;
        let last = choose|last: M|
            performed(pre, all.drop_last(), last) && #[trigger] performs(last, all.last(), post);
        assert(all.drop_last() =~= first + second.drop_last());
        assert(all.last() == second.last());
        let mid = lemma_performed_split(pre, first, second.drop_last(), last);
        crate::memory::lemma_performed_push(mid, second.drop_last(), last, second.last(), post);
        assert(second.drop_last().push(second.last()) =~= second);
        mid
    }
}

/// A task whose status changes bears the time of the change; the others keep theirs.
pub proof fn law_change_of_status_is_dated(
    tasks: Seq<TaskModel>,
    id: TaskId,
    status: TaskStatus,
    now: u64,
    i: int,
)
    requires
        0 <= i < tasks.len(),
    ensures
        tasks[i].id == id ==> with_status(tasks, id, status, now)[i].updated_at == now,
        tasks[i].id != id ==> with_status(tasks, id, status, now)[i] == tasks[i],
        with_status(tasks, id, status, now)[i].created_at == tasks[i].created_at,
{
}

/// Details come in the order of the index, one for each entry that has one.
pub proof fn law_details_come_in_order(
    a: Seq<Option<DetailModel>>,
    b: Seq<Option<DetailModel>>,
    d: DetailModel,
)
    ensures
        found(a + b) == found(a) + found(b),
        found(seq![Some(d)]) == seq![d],
        found(seq![None]).len() == 0,
    decreases b.len(),
{
    let none = Seq::<Option<DetailModel>>::empty();
    assert(found(none) =~= seq![]);
    assert(seq![Some(d)].drop_last() =~= none);
    assert(seq![None::<DetailModel>].drop_last() =~= none);
    assert(found(seq![Some(d)]) =~= seq![d]);
    if b.len() == 0 {
        assert(a + b =~= a);
        assert(found(a) + found(b) =~= found(a));
    } else {
        law_details_come_in_order(a, b.drop_last(), d);
        assert((a + b).drop_last() =~= a + b.drop_last());
        assert((a + b).last() == b.last());
        assert(found(a + b) =~= found(a) + found(b));
    }
}

}
