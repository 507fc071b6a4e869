//! Scoring: test cases with what their sessions must do, and the verdict on a
//! session.
use vstd::prelude::*;

use crate::chars;
use crate::chars::CharSet;
use crate::json;
use crate::numbers;
use crate::session::{ExecModel, SessionTrace, TraceModel};
use crate::text;

verus! {

#[derive(Debug, Clone, Copy, PartialEq, Eq, Structural)]
pub enum Verdict {
    Pass,
    Partial,
    Fail,
}

impl Verdict {
    pub open spec fn name(self) -> Seq<char> {
        match self {
            Verdict::Pass => "Pass"@,
            Verdict::Partial => "Partial"@,
            Verdict::Fail => "Fail"@,
        }
    }

    pub fn label(&self) -> (r: &'static str)
        ensures
            r@ == self.name(),
    {
        match self {
            Verdict::Pass => "Pass",
            Verdict::Partial => "Partial",
            Verdict::Fail => "Fail",
        }
    }
}

/// The score of a verdict in half points: a pass counts one, a partial half.
pub open spec fn half_points(v: Verdict) -> nat {
    match v {
        Verdict::Pass => 2,
        Verdict::Partial => 1,
        Verdict::Fail => 0,
    }
}

/// The score of a verdict in half points.
pub fn score(v: Verdict) -> (r: u128)
    ensures
        r == half_points(v),
        r <= 2,
{
    match v {
        Verdict::Pass => 2,
        Verdict::Partial => 1,
        Verdict::Fail => 0,
    }
}

#[derive(Debug)]
pub struct CaseSpec {
    pub id: String,
    pub task: String,
    pub subclass: String,
    pub must_tools: Vec<String>,
    pub must_in_output: Vec<String>,
    pub must_in_exec: Vec<String>,
    pub min_tool_calls: usize,
}

/// The contents of a case.
pub ghost struct CaseModel {
    pub id: Seq<char>,
    pub task: Seq<char>,
    pub subclass: Seq<char>,
    pub must_tools: Seq<Seq<char>>,
    pub must_in_output: Seq<Seq<char>>,
    pub must_in_exec: Seq<Seq<char>>,
    pub min_tool_calls: nat,
}

impl View for CaseSpec {
    type V = CaseModel;

    open spec fn view(&self) -> CaseModel {
        CaseModel {
            id: self.id@,
            task: self.task@,
            subclass: self.subclass@,
            must_tools: chars::owned_texts(self.must_tools@),
            must_in_output: chars::owned_texts(self.must_in_output@),
            must_in_exec: chars::owned_texts(self.must_in_exec@),
            min_tool_calls: self.min_tool_calls as nat,
        }
    }
}

impl Clone for CaseSpec {
    fn clone(&self) -> (r: Self)
        ensures
            r@ == self@,
    {
        CaseSpec {
            id: self.id.clone(),
            task: self.task.clone(),
            subclass: self.subclass.clone(),
            must_tools: text::copy_all(&self.must_tools),
            must_in_output: text::copy_all(&self.must_in_output),
            must_in_exec: text::copy_all(&self.must_in_exec),
            min_tool_calls: self.min_tool_calls,
        }
    }
}

#[derive(Debug)]
pub struct CaseMetrics {
    pub tool_calls_total: usize,
    pub tool_calls_distinct: usize,
    pub tool_call_sequence: Vec<String>,
    pub missing_tools: Vec<String>,
    pub missing_in_output: Vec<String>,
    pub missing_in_exec: Vec<String>,
    pub exec_step_count: usize,
}

/// What a session did, measured by a case.
pub ghost struct MetricsModel {
    pub tool_calls_total: nat,
    pub tool_calls_distinct: nat,
    pub tool_call_sequence: Seq<Seq<char>>,
    pub missing_tools: Seq<Seq<char>>,
    pub missing_in_output: Seq<Seq<char>>,
    pub missing_in_exec: Seq<Seq<char>>,
    pub exec_step_count: nat,
}

impl View for CaseMetrics {
    type V = MetricsModel;

    open spec fn view(&self) -> MetricsModel {
        MetricsModel {
            tool_calls_total: self.tool_calls_total as nat,
            tool_calls_distinct: self.tool_calls_distinct as nat,
            tool_call_sequence: chars::owned_texts(self.tool_call_sequence@),
            missing_tools: chars::owned_texts(self.missing_tools@),
            missing_in_output: chars::owned_texts(self.missing_in_output@),
            missing_in_exec: chars::owned_texts(self.missing_in_exec@),
            exec_step_count: self.exec_step_count as nat,
        }
    }
}

// ---------------------------------------------------------------------------
// Tools
// ---------------------------------------------------------------------------

/// The tools that a command calls: the identifier behind each `paw.py` and what
/// separates the two. A longer word that starts with `paw.py` calls nothing.
pub open spec fn tools_in(s: Seq<char>) -> Seq<Seq<char>>
    decreases s.len(),
{
    if s.len() == 0 {
        seq![]
    } else if chars::starts_with(s, "paw.py"@) {
        let rest = s.skip(6);
        let a = chars::until(rest, CharSet::IdentStart) as int;
        let b = chars::until(rest.skip(a), CharSet::NotIdent) as int;
        let tail = if a == 0 {
            rest
        } else if 0 <= a + b <= rest.len() {
            rest.skip(a + b)
        } else {
            seq![]
        };
        if tail.len() >= s.len() {
            seq![]
        } else if a > 0 && b > 0 {
            seq![rest.subrange(a, a + b)] + tools_in(tail)
        } else {
            tools_in(tail)
        }
    } else {
        tools_in(s.skip(1))
    }
}

/// The tools that commands call, in order.
pub open spec fn tools_called(execs: Seq<ExecModel>) -> Seq<Seq<char>>
    decreases execs.len(),
{
    if execs.len() == 0 {
        seq![]
    } else {
        tools_called(execs.drop_last()) + tools_in(execs.last().cmd)
    }
}

/// Two names of one tool, either way round.
pub open spec fn are(a: Seq<char>, b: Seq<char>, x: Seq<char>, y: Seq<char>) -> bool {
    (a == x && b == y) || (a == y && b == x)
}

/// Tools that stand in for each other.
pub open spec fn interchangeable(a: Seq<char>, b: Seq<char>) -> bool {
    ||| a == b
    ||| are(a, b, "self_battery_level"@, "robot_charge_status"@)
    ||| are(a, b, "robot_move_status"@, "robot_map_locate"@)
    ||| are(a, b, "self_load_avg"@, "self_diagnostics_summary"@)
}

/// A tool, or one that stands in for it, was called.
pub open spec fn was_used(tool: Seq<char>, used: Seq<Seq<char>>) -> bool {
    exists|i: int| 0 <= i < used.len() && interchangeable(tool, #[trigger] used[i])
}

/// The tools that were not used.
pub open spec fn unused(used: Seq<Seq<char>>) -> spec_fn(Seq<char>) -> bool {
    |tool: Seq<char>| !was_used(tool, used)
}

/// The texts that do not occur in a text, up to case.
pub open spec fn absent(body: Seq<char>) -> spec_fn(Seq<char>) -> bool {
    |t: Seq<char>| !chars::contains(chars::lower(body), chars::lower(t))
}

/// The results of commands, each on a line of its own.
pub open spec fn all_results(execs: Seq<ExecModel>) -> Seq<char>
    decreases execs.len(),
{
    if execs.len() == 0 {
        seq![]
    } else {
        all_results(execs.drop_last()) + execs.last().result + "\n"@
    }
}

/// A session measured by a case. The texts that commands must show may stand in
/// the final answer too.
pub open spec fn measured(case: CaseModel, trace: TraceModel) -> MetricsModel {
    let calls = tools_called(trace.execs);
    MetricsModel {
        tool_calls_total: calls.len(),
        tool_calls_distinct: calls.to_set().len(),
        tool_call_sequence: calls,
        missing_tools: case.must_tools.filter(unused(calls)),
        missing_in_output: case.must_in_output.filter(absent(trace.output)),
        missing_in_exec: case.must_in_exec.filter(
            absent(all_results(trace.execs) + trace.output),
        ),
        exec_step_count: trace.execs.len(),
    }
}

/// How many tool calls a case asks for: at least one.
pub open spec fn needed_calls(case: CaseModel) -> nat {
    if case.min_tool_calls == 0 {
        1
    } else {
        case.min_tool_calls
    }
}

/// A reason, where there is one.
pub open spec fn reason_if(b: bool, reason: Seq<char>) -> Seq<Seq<char>> {
    if b {
        seq![reason]
    } else {
        seq![]
    }
}

/// What keeps a session from passing.
pub open spec fn reasons_for(
    case: CaseModel,
    m: MetricsModel,
    output: Seq<char>,
) -> Seq<Seq<char>> {
    reason_if(
        m.tool_calls_total < needed_calls(case),
        "tool_calls<"@ + numbers::decimal(needed_calls(case)) + ": got "@ + numbers::decimal(
            m.tool_calls_total,
        ),
    ) + reason_if(
        m.missing_tools.len() > 0,
        "missing_tools="@ + chars::join(m.missing_tools, ","@),
    ) + reason_if(
        m.missing_in_output.len() > 0,
        "missing_in_output="@ + chars::join(m.missing_in_output, ","@),
    ) + reason_if(
        m.missing_in_exec.len() > 0,
        "missing_in_exec="@ + chars::join(m.missing_in_exec, ","@),
    ) + reason_if(
        chars::contains(output, "Session reached step limit"@),
        "step_limit_reached"@,
    )
}

/// Seven tenths of the tools that a case asks for were used, and enough calls
/// were made. A case without tools counts as one tool unused.
pub open spec fn nearly_passed(case: CaseModel, m: MetricsModel) -> bool {
    let wanted = case.must_tools.len();
    let used = wanted - m.missing_tools.len();
    &&& 10 * used >= 7 * (if wanted == 0 {
        1
    } else {
        wanted as int
    })
    &&& m.tool_calls_total >= needed_calls(case)
}

/// The verdict on a session, with what keeps it from passing.
pub open spec fn judged(case: CaseModel, trace: TraceModel) -> (Verdict, Seq<Seq<char>>) {
    let m = measured(case, trace);
    let reasons = reasons_for(case, m, trace.output);
    (
        if reasons.len() == 0 {
            Verdict::Pass
        } else if nearly_passed(case, m) {
            Verdict::Partial
        } else {
            Verdict::Fail
        },
        reasons,
    )
}

/// The tools that a command calls.
pub fn extract_paw_tools(cmd: &str) -> (r: Vec<String>)
    ensures
        chars::owned_texts(r@) == tools_in(cmd@),
{
    let v = text::chars_of(cmd);
    let n: usize = v.len();
    let mut out: Vec<String> = Vec::new();
    let mut i: usize = 0;
    proof {
        reveal_strlit("paw.py");
        assert(cmd@.skip(0) =~= cmd@);
        assert(chars::owned_texts(out@) + tools_in(cmd@) =~= tools_in(cmd@));
    }
    while i < n
        invariant
            i <= n,
            n == v.len(),
            v@ == cmd@,
            "paw.py"@.len() == 6,
            tools_in(cmd@) == chars::owned_texts(out@) + tools_in(cmd@.skip(i as int)),
        decreases n - i,
    {
        let ghost s = cmd@.skip(i as int);
        let here = cmd.substring_char(i, n);
        assert(here@ =~= s);
        if text::starts_with(here, "paw.py") {
            let ghost rest = s.skip(6);
            assert(rest =~= cmd@.skip(i + 6));
            let j: usize = text::until(&v, i + 6, CharSet::IdentStart);
            let ghost a = chars::until(rest, CharSet::IdentStart) as int;
            proof {
                chars::lemma_until(rest, CharSet::IdentStart);
                assert(rest.skip(a) =~= cmd@.skip(j as int));
                chars::lemma_until(rest.skip(a), CharSet::NotIdent);
            }
            let k: usize = text::until(&v, j, CharSet::NotIdent);
            let ghost b = chars::until(rest.skip(a), CharSet::NotIdent) as int;
            assert(rest.skip(a + b) =~= cmd@.skip(k as int));
            if j == i + 6 {
                i = j;
                continue ;
            }
            if k > j {
                let name = cmd.substring_char(j, k);
                assert(name@ =~= rest.subrange(a, a + b));
                let ghost before = chars::owned_texts(out@);
                out.push(name.to_owned());
                assert(chars::owned_texts(out@) =~= before.push(name@));
                assert(before + (seq![name@] + tools_in(cmd@.skip(k as int))) =~= before.push(
                    name@,
                ) + tools_in(cmd@.skip(k as int)));
            }
            i = k;
        } else {
            assert(s.skip(1) =~= cmd@.skip(i + 1));
            i += 1;
        }
    }
    assert(chars::owned_texts(out@) + Seq::<Seq<char>>::empty() =~= chars::owned_texts(out@));
    out
}

fn either_way(a: &str, b: &str, x: &str, y: &str) -> (r: bool)
    ensures
        r == are(a@, b@, x@, y@),
{
    (text::same(a, x) && text::same(b, y)) || (text::same(a, y) && text::same(b, x))
}

fn is_alias(a: &str, b: &str) -> (r: bool)
    ensures
        r == interchangeable(a@, b@),
{
    text::same(a, b) || either_way(a, b, "self_battery_level", "robot_charge_status")
        || either_way(a, b, "robot_move_status", "robot_map_locate") || either_way(
        a,
        b,
        "self_load_avg",
        "self_diagnostics_summary",
    )
}

fn tool_used(tool: &str, used: &Vec<String>) -> (r: bool)
    ensures
        r == was_used(tool@, chars::owned_texts(used@)),
{
    let ghost all = chars::owned_texts(used@);
    let mut i: usize = 0;
    while i < used.len()
        invariant
            i <= used.len(),
            all == chars::owned_texts(used@),
            forall|k: int| 0 <= k < i ==> !interchangeable(tool@, #[trigger] all[k]),
        decreases used.len() - i,
    {
        if is_alias(tool, used[i].as_str()) {
            assert(interchangeable(tool@, all[i as int]));
            return true;
        }
        i += 1;
    }
    false
}

fn missing_tools(must: &Vec<String>, used: &Vec<String>) -> (r: Vec<String>)
    ensures
        chars::owned_texts(r@) == chars::owned_texts(must@).filter(
            unused(chars::owned_texts(used@)),
        ),
{
    let ghost all = chars::owned_texts(must@);
    let ghost kind = unused(chars::owned_texts(used@));
    let mut out: Vec<String> = Vec::new();
    let mut i: usize = 0;
    proof {
        reveal(Seq::filter);
        assert(all.take(0) =~= Seq::empty());
        assert(chars::owned_texts(out@) =~= Seq::empty());
    }
    while i < must.len()
        invariant
            i <= must.len(),
            all == chars::owned_texts(must@),
            kind == unused(chars::owned_texts(used@)),
            chars::owned_texts(out@) == all.take(i as int).filter(kind),
        decreases must.len() - i,
    {
        proof {
            reveal(Seq::filter);
            assert(all.take(i + 1).drop_last() =~= all.take(i as int));
        }
        if !tool_used(must[i].as_str(), used) {
            let ghost before = chars::owned_texts(out@);
            out.push(must[i].clone());
            assert(chars::owned_texts(out@) =~= before.push(all[i as int]));
        }
        i += 1;
    }
    assert(all.take(i as int) =~= all);
    out
}

fn missing_texts(must: &Vec<String>, body: &str) -> (r: Vec<String>)
    ensures
        chars::owned_texts(r@) == chars::owned_texts(must@).filter(absent(body@)),
{
    let lowered = text::lower(body);
    let ghost all = chars::owned_texts(must@);
    let mut out: Vec<String> = Vec::new();
    let mut i: usize = 0;
    proof {
        reveal(Seq::filter);
        assert(all.take(0) =~= Seq::empty());
        assert(chars::owned_texts(out@) =~= Seq::empty());
    }
    while i < must.len()
        invariant
            i <= must.len(),
            all == chars::owned_texts(must@),
            lowered@ == chars::lower(body@),
            chars::owned_texts(out@) == all.take(i as int).filter(absent(body@)),
        decreases must.len() - i,
    {
        proof {
            reveal(Seq::filter);
            assert(all.take(i + 1).drop_last() =~= all.take(i as int));
        }
        if !text::contains(lowered.as_str(), text::lower(must[i].as_str()).as_str()) {
            let ghost before = chars::owned_texts(out@);
            out.push(must[i].clone());
            assert(chars::owned_texts(out@) =~= before.push(all[i as int]));
        }
        i += 1;
    }
    assert(all.take(i as int) =~= all);
    out
}

/// How many different texts a list holds.
fn count_distinct(list: &Vec<String>) -> (r: usize)
    ensures
        r == chars::owned_texts(list@).to_set().len(),
{
    let ghost all = chars::owned_texts(list@);
    let mut seen: Vec<String> = Vec::new();
    let mut i: usize = 0;
    assert(chars::owned_texts(seen@) =~= Seq::empty());
    assert(all.take(0) =~= Seq::empty());
    while i < list.len()
        invariant
            i <= list.len(),
            all == chars::owned_texts(list@),
            chars::owned_texts(seen@).no_duplicates(),
            chars::owned_texts(seen@).to_set() == all.take(i as int).to_set(),
        decreases list.len() - i,
    {
        let ghost before = chars::owned_texts(seen@);
        let ghost x = all[i as int];
        proof {
            assert(all.take(i + 1) =~= all.take(i as int).push(x));
            chars::lemma_push_set(all.take(i as int), x);
            chars::lemma_push_set(before, x);
        }
        if text::any_same(&seen, list[i].as_str()) {
            assert(before.to_set().contains(x));
            assert(before.to_set() =~= before.to_set().insert(x));
        } else {
            seen.push(list[i].clone());
            assert(chars::owned_texts(seen@) =~= before.push(x));
        }
        i += 1;
    }
    proof {
        assert(all.take(i as int) =~= all);
        chars::owned_texts(seen@).unique_seq_to_set();
    }
    seen.len()
}

/// Measures a session by a case.
pub fn compute_metrics(case: &CaseSpec, trace: &SessionTrace) -> (r: CaseMetrics)
    ensures
        r@ == measured(case@, trace@),
{
    let ghost execs = trace@.execs;
    let mut calls: Vec<String> = Vec::new();
    let mut full = String::new();
    let mut i: usize = 0;
    assert(execs.take(0) =~= Seq::empty());
    assert(chars::owned_texts(calls@) =~= Seq::empty());
    while i < trace.execs.len()
        invariant
            i <= trace.execs.len(),
            execs == trace@.execs,
            chars::owned_texts(calls@) == tools_called(execs.take(i as int)),
            full@ == all_results(execs.take(i as int)),
        decreases trace.execs.len() - i,
    {
        let e = &trace.execs[i];
        assert(execs[i as int] == e@);
        assert(execs.take(i + 1).drop_last() =~= execs.take(i as int));
        let ghost before = chars::owned_texts(calls@);
        let mut found = extract_paw_tools(e.cmd.as_str());
        let ghost more = chars::owned_texts(found@);
        calls.append(&mut found);
        assert(chars::owned_texts(calls@) =~= before + more);
        full.append(e.result.as_str());
        full.append("\n");
        i += 1;
    }
    assert(execs.take(i as int) =~= execs);
    full.append(trace.output.as_str());
    let missing = missing_tools(&case.must_tools, &calls);
    CaseMetrics {
        tool_calls_total: calls.len(),
        tool_calls_distinct: count_distinct(&calls),
        missing_tools: missing,
        missing_in_output: missing_texts(&case.must_in_output, trace.output.as_str()),
        missing_in_exec: missing_texts(&case.must_in_exec, full.as_str()),
        exec_step_count: trace.execs.len(),
        tool_call_sequence: calls,
    }
}

fn push_reason(reasons: &mut Vec<String>, holds: bool, reason: String)
    ensures
        chars::owned_texts(final(reasons)@) == chars::owned_texts(old(reasons)@) + reason_if(
            holds,
            reason@,
        ),
{
    let ghost before = chars::owned_texts(reasons@);
    let ghost x = reason@;
    if holds {
        reasons.push(reason);
    }
    assert(chars::owned_texts(reasons@) =~= before + reason_if(holds, x));
}

/// The verdict on a session, with what keeps it from passing.
pub fn evaluate(case: &CaseSpec, trace: &SessionTrace) -> (r: (Verdict, Vec<String>))
    ensures
        (r.0, chars::owned_texts(r.1@)) == judged(case@, trace@),
{
    let m = compute_metrics(case, trace);
    let needed: usize = if case.min_tool_calls == 0 {
        1
    } else {
        case.min_tool_calls
    };
    let mut reasons: Vec<String> = Vec::new();
    assert(chars::owned_texts(reasons@) =~= Seq::empty());
    let mut few = "tool_calls<".to_owned();
    few.append(numbers::usize_text(needed).as_str());
    few.append(": got ");
    few.append(numbers::usize_text(m.tool_calls_total).as_str());
    push_reason(&mut reasons, m.tool_calls_total < needed, few);
    push_reason(
        &mut reasons,
        m.missing_tools.len() > 0,
        "missing_tools=".to_owned().concat(text::join_owned(&m.missing_tools, ",").as_str()),
    );
    push_reason(
        &mut reasons,
        m.missing_in_output.len() > 0,
        "missing_in_output=".to_owned().concat(
            text::join_owned(&m.missing_in_output, ",").as_str(),
        ),
    );
    push_reason(
        &mut reasons,
        m.missing_in_exec.len() > 0,
        "missing_in_exec=".to_owned().concat(
            text::join_owned(&m.missing_in_exec, ",").as_str(),
        ),
    );
    push_reason(
        &mut reasons,
        text::contains(trace.output.as_str(), "Session reached step limit"),
        "step_limit_reached".to_owned(),
    );
    assert(chars::owned_texts(reasons@) =~= reasons_for(case@, m@, trace.output@));
    if reasons.len() == 0 {
        return (Verdict::Pass, reasons);
    }
    proof {
        lemma_filter_len(case@.must_tools, unused(tools_called(trace@.execs)));
    }
    let wanted: u128 = case.must_tools.len() as u128;
    let used: u128 = wanted - m.missing_tools.len() as u128;
    let base: u128 = if wanted == 0 {
        1
    } else {
        wanted
    };
    if 10 * used >= 7 * base && m.tool_calls_total >= needed {
        (Verdict::Partial, reasons)
    } else {
        (Verdict::Fail, reasons)
    }
}

proof fn lemma_filter_len(s: Seq<Seq<char>>, kind: spec_fn(Seq<char>) -> bool)
    ensures
        s.filter(kind).len() <= s.len(),
    decreases s.len(),
{
    reveal(Seq::filter);
    if s.len() > 0 {
        lemma_filter_len(s.drop_last(), kind);
    }
}

// ---------------------------------------------------------------------------
// Manifests
// ---------------------------------------------------------------------------

/// The character that an escape stands for in a case's string.
pub open spec fn case_unescape(c: char) -> char {
    if c == 'b' {
        '\u{8}'
    } else if c == 'f' {
        '\u{c}'
    } else {
        json::unescape_char(c)
    }
}

/// The text of a case's quoted string, entered behind its opening quote.
pub open spec fn case_quoted(s: Seq<char>) -> Option<Seq<char>>
    decreases s.len(),
{
    if s.len() == 0 {
        None
    } else if s[0] == '"' {
        Some(seq![])
    } else if s[0] == '\\' {
        if s.len() == 1 {
            None
        } else {
            json::prepended(seq![case_unescape(s[1])], case_quoted(s.skip(2)))
        }
    } else {
        json::prepended(seq![s[0]], case_quoted(s.skip(1)))
    }
}

/// The string of a name in a case.
pub open spec fn case_string(s: Seq<char>, key: Seq<char>) -> Option<Seq<char>> {
    match json::after_colon(s, key) {
        Some(value) => match chars::after_prefix(chars::trim_start(value), "\""@) {
            Some(body) => case_quoted(body),
            None => None,
        },
        None => None,
    }
}

/// The number of a name in a case: the digits behind its colon.
pub open spec fn case_number(s: Seq<char>, key: Seq<char>) -> Option<nat> {
    match json::after_colon(s, key) {
        Some(value) => {
            let t = chars::trim_start(value);
            match numbers::unsigned_value(
                t.take(chars::until(t, CharSet::NotDigit) as int),
                10,
                usize::MAX as nat,
            ) {
                Ok(n) => Some(n),
                Err(_) => None,
            }
        },
        None => None,
    }
}

/// The strings of an array, entered behind its bracket, outside a string or
/// inside one that has begun. A string that does not end is dropped.
pub open spec fn array_strings(s: Seq<char>, current: Option<Seq<char>>) -> Seq<Seq<char>>
    decreases s.len(),
{
    if s.len() == 0 {
        seq![]
    } else {
        match current {
            Some(cur) => if s[0] == '\\' {
                if s.len() == 1 {
                    seq![]
                } else {
                    array_strings(s.skip(2), Some(cur.push(json::unescape_char(s[1]))))
                }
            } else if s[0] == '"' {
                seq![cur] + array_strings(s.skip(1), None)
            } else {
                array_strings(s.skip(1), Some(cur.push(s[0])))
            },
            None => if s[0] == '"' {
                array_strings(s.skip(1), Some(seq![]))
            } else if s[0] == ']' {
                seq![]
            } else {
                array_strings(s.skip(1), None)
            },
        }
    }
}

/// The strings of the array of a name, none where there is no array.
pub open spec fn case_strings(s: Seq<char>, key: Seq<char>) -> Seq<Seq<char>> {
    match json::after_colon(s, key) {
        Some(value) => match chars::after_prefix(chars::trim_start(value), "["@) {
            Some(body) => array_strings(body, None),
            None => seq![],
        },
        None => seq![],
    }
}

/// The case on a line: name and input are required.
pub open spec fn case_in(line: Seq<char>) -> Option<CaseModel> {
    match (case_string(line, "id"@), case_string(line, "input"@)) {
        (Some(id), Some(task)) => Some(
            CaseModel {
                id,
                task,
                subclass: match case_string(line, "subclass"@) {
                    Some(s) => s,
                    None => match case_string(line, "category"@) {
                        Some(s) => s,
                        None => "general"@,
                    },
                },
                must_tools: case_strings(line, "must_tools"@),
                must_in_output: case_strings(line, "must_in_output"@),
                must_in_exec: case_strings(line, "must_in_exec"@),
                min_tool_calls: match case_number(line, "min_tool_calls"@) {
                    Some(n) => n,
                    None => 8,
                },
            },
        ),
        _ => None,
    }
}

/// The cases on the lines from number `from` on, behind `before`; blank lines
/// are skipped, and the first other line without a case is an error.
pub open spec fn cases_from(
    lines: Seq<Seq<char>>,
    from: int,
    before: Seq<CaseModel>,
) -> Result<Seq<CaseModel>, Seq<char>>
    decreases lines.len() - from,
{
    if from < 0 || from >= lines.len() {
        Ok(before)
    } else {
        let t = chars::trim(lines[from]);
        if t.len() == 0 {
            cases_from(lines, from + 1, before)
        } else {
            match case_in(t) {
                Some(c) => cases_from(lines, from + 1, before.push(c)),
                None => Err(
                    "manifest line "@ + numbers::decimal((from + 1) as nat)
                        + ": failed to parse"@,
                ),
            }
        }
    }
}

/// The cases of a manifest.
pub open spec fn manifest_cases(s: Seq<char>) -> Result<Seq<CaseModel>, Seq<char>> {
    cases_from(chars::lines(s), 0, seq![])
}

fn read_case_quoted(s: &str) -> (r: Option<String>)
    ensures
        chars::opt_text(r) == case_quoted(s@),
{
    let v = text::chars_of(s);
    let mut out = String::new();
    let mut i: usize = 0;
    assert(s@.skip(0) =~= s@);
    assert(json::prepended(out@, case_quoted(s@)) == case_quoted(s@)) by {
        match case_quoted(s@) {
            Some(r) => {
                assert(out@ + r =~= r);
            },
            None => {},
        }
    }
    while i < v.len()
        invariant
            i <= v.len(),
            v@ == s@,
            case_quoted(s@) == json::prepended(out@, case_quoted(s@.skip(i as int))),
        decreases v.len() - i,
    {
        let ghost rest = s@.skip(i as int);
        let ghost before = out@;
        let c = v[i];
        assert(rest[0] == c);
        if c == '"' {
            assert(out@ + Seq::<char>::empty() =~= out@);
            return Some(out);
        }
        if c == '\\' {
            if i + 1 >= v.len() {
                return None;
            }
            let d = v[i + 1];
            assert(rest[1] == d);
            assert(rest.skip(2) =~= s@.skip(i + 2));
            let u = if d == 'b' {
                '\u{8}'
            } else if d == 'f' {
                '\u{c}'
            } else if d == 'n' {
                '\n'
            } else if d == 'r' {
                '\r'
            } else if d == 't' {
                '\t'
            } else {
                d
            };
            out.push(u);
            assert(out@ =~= before + seq![u]);
            proof {
                json::lemma_prepended(before, seq![u], case_quoted(s@.skip(i + 2)));
            }
            i += 2;
        } else {
            out.push(c);
            assert(out@ =~= before + seq![c]);
            assert(rest.skip(1) =~= s@.skip(i + 1));
            proof {
                json::lemma_prepended(before, seq![c], case_quoted(s@.skip(i + 1)));
            }
            i += 1;
        }
    }
    None
}

fn json_string(s: &str, key: &str) -> (r: Option<String>)
    ensures
        chars::opt_text(r) == case_string(s@, key@),
{
    match json::rest_after_colon(s, key) {
        Some(value) => match text::after_prefix(text::trim_start(value), "\"") {
            Some(body) => read_case_quoted(body),
            None => None,
        },
        None => None,
    }
}

fn json_usize(s: &str, key: &str) -> (r: Option<usize>)
    ensures
        match r {
            Some(n) => case_number(s@, key@) == Some(n as nat),
            None => case_number(s@, key@) is None,
        },
{
    match json::rest_after_colon(s, key) {
        Some(value) => {
            let t = text::trim_start(value);
            let v = text::chars_of(t);
            let n: usize = text::until(&v, 0, CharSet::NotDigit);
            proof {
                assert(t@.skip(0) =~= t@);
                chars::lemma_until(t@, CharSet::NotDigit);
            }
            let digits = t.substring_char(0, n);
            assert(digits@ =~= t@.take(n as int));
            numbers::parse_usize(digits)
        },
        None => None,
    }
}

/// The text of a string that has begun, by its view.
spec fn begun(in_str: bool, current: Seq<char>) -> Option<Seq<char>> {
    if in_str {
        Some(current)
    } else {
        None
    }
}

fn json_string_array(s: &str, key: &str) -> (r: Vec<String>)
    ensures
        chars::owned_texts(r@) == case_strings(s@, key@),
{
    let mut out: Vec<String> = Vec::new();
    assert(chars::owned_texts(out@) =~= seq![]);
    let body = match json::rest_after_colon(s, key) {
        Some(value) => match text::after_prefix(text::trim_start(value), "[") {
            Some(body) => body,
            None => {
                return out;
            },
        },
        None => {
            return out;
        },
    };
    read_array(body)
}

fn read_array(s: &str) -> (r: Vec<String>)
    ensures
        chars::owned_texts(r@) == array_strings(s@, None),
{
    let v = text::chars_of(s);
    let mut out: Vec<String> = Vec::new();
    let mut in_str = false;
    let mut current = String::new();
    let mut i: usize = 0;
    assert(s@.skip(0) =~= s@);
    assert(chars::owned_texts(out@) + array_strings(s@, None) =~= array_strings(s@, None));
    while i < v.len()
        invariant
            i <= v.len(),
            v@ == s@,
            !in_str ==> current@.len() == 0,
            array_strings(s@, None) == chars::owned_texts(out@) + array_strings(
                s@.skip(i as int),
                begun(in_str, current@),
            ),
        decreases v.len() - i,
    {
        let ghost rest = s@.skip(i as int);
        let ghost before = chars::owned_texts(out@);
        let c = v[i];
        assert(rest[0] == c);
        assert(rest.skip(1) =~= s@.skip(i + 1));
        if in_str {
            if c == '\\' {
                if i + 1 >= v.len() {
                    assert(before + Seq::<Seq<char>>::empty() =~= before);
                    return out;
                }
                let d = v[i + 1];
                assert(rest[1] == d);
                assert(rest.skip(2) =~= s@.skip(i + 2));
                let u = if d == 'n' {
                    '\n'
                } else if d == 'r' {
                    '\r'
                } else if d == 't' {
                    '\t'
                } else {
                    d
                };
                current.push(u);
                i += 1;
            } else if c == '"' {
                let ghost x = current@;
                out.push(current);
                current = String::new();
                in_str = false;
                assert(chars::owned_texts(out@) =~= before.push(x));
                assert(before + (seq![x] + array_strings(s@.skip(i + 1), None)) =~= before.push(x)
                    + array_strings(s@.skip(i + 1), None));
            } else {
                current.push(c);
            }
        } else if c == '"' {
            in_str = true;
            assert(current@ =~= seq![]);
        } else if c == ']' {
            assert(before + Seq::<Seq<char>>::empty() =~= before);
            return out;
        }
        i += 1;
    }
    assert(chars::owned_texts(out@) + Seq::<Seq<char>>::empty() =~= chars::owned_texts(out@));
    out
}

/// The contents of an optional case.
pub open spec fn opt_case(c: Option<CaseSpec>) -> Option<CaseModel> {
    match c {
        Some(x) => Some(x@),
        None => None,
    }
}

/// The case on a line.
pub fn parse_case_line(line: &str) -> (r: Option<CaseSpec>)
    ensures
        opt_case(r) == case_in(line@),
{
    match (json_string(line, "id"), json_string(line, "input")) {
        (Some(id), Some(task)) => {
            let subclass = match json_string(line, "subclass") {
                Some(s) => s,
                None => match json_string(line, "category") {
                    Some(s) => s,
                    None => "general".to_owned(),
                },
            };
            let min_tool_calls: usize = match json_usize(line, "min_tool_calls") {
                Some(n) => n,
                None => 8,
            };
            Some(
                CaseSpec {
                    id,
                    task,
                    subclass,
                    must_tools: json_string_array(line, "must_tools"),
                    must_in_output: json_string_array(line, "must_in_output"),
                    must_in_exec: json_string_array(line, "must_in_exec"),
                    min_tool_calls,
                },
            )
        },
        _ => None,
    }
}

/// The contents of a list of cases.
pub open spec fn case_models(v: Seq<CaseSpec>) -> Seq<CaseModel> {
    v.map_values(|c: CaseSpec| c@)
}

/// The cases of a manifest, one on each line.
pub fn parse_manifest(s: &str) -> (r: Result<Vec<CaseSpec>, String>)
    ensures
        match r {
            Ok(v) => manifest_cases(s@) == Ok::<Seq<CaseModel>, Seq<char>>(case_models(v@)),
            Err(e) => manifest_cases(s@) == Err::<Seq<CaseModel>, Seq<char>>(e@),
        },
{
    let lines = text::lines(s);
    let ghost all = chars::texts(lines@);
    let mut out: Vec<CaseSpec> = Vec::new();
    let mut i: usize = 0;
    assert(case_models(out@) =~= seq![]);
    while i < lines.len()
        invariant
            i <= lines.len(),
            all == chars::texts(lines@),
            manifest_cases(s@) == cases_from(all, i as int, case_models(out@)),
        decreases lines.len() - i,
    {
        assert(all[i as int] == lines@[i as int]@);
        let t = text::trim(lines[i]);
        if t.unicode_len() > 0 {
            match parse_case_line(t) {
                Some(c) => {
                    let ghost before = case_models(out@);
                    let ghost m = c@;
                    out.push(c);
                    assert(case_models(out@) =~= before.push(m));
                },
                None => {
                    let mut e = "manifest line ".to_owned();
                    e.append(numbers::usize_text(i + 1).as_str());
                    e.append(": failed to parse");
                    return Err(e);
                },
            }
        }
        i += 1;
    }
    Ok(out)
}

// ---------------------------------------------------------------------------
// Laws
// ---------------------------------------------------------------------------

proof fn lemma_filter_empty(s: Seq<Seq<char>>, kind: spec_fn(Seq<char>) -> bool)
    ensures
        s.filter(kind).len() == 0 <==> forall|i: int| 0 <= i < s.len() ==> !kind(#[trigger] s[i]),
    decreases s.len(),
{
    reveal(Seq::filter);
    if s.len() > 0 {
        let init = s.drop_last();
        lemma_filter_empty(init, kind);
        assert(s.last() == s[s.len() - 1]);
        if s.filter(kind).len() == 0 {
            assert forall|i: int| 0 <= i < s.len() implies !kind(#[trigger] s[i]) by {
                if i < init.len() {
                    assert(init[i] == s[i]);
                }
            }
        }
        if forall|i: int| 0 <= i < s.len() ==> !kind(#[trigger] s[i]) {
            assert forall|i: int| 0 <= i < init.len() implies !kind(#[trigger] init[i]) by {
                assert(init[i] == s[i]);
            }
            assert(!kind(s[s.len() - 1]));
        }
    }
}

/// A session passes exactly when it made enough calls, used every tool or one
/// that stands in for it, shows every text, and did not run out of steps.
pub proof fn law_pass_is_everything_met(case: CaseModel, trace: TraceModel)
    ensures
        judged(case, trace).0 == Verdict::Pass <==> {
            &&& tools_called(trace.execs).len() >= needed_calls(case)
            &&& forall|i: int|
                0 <= i < case.must_tools.len() ==> was_used(
                    #[trigger] case.must_tools[i],
                    tools_called(trace.execs),
                )
            &&& forall|i: int|
                0 <= i < case.must_in_output.len() ==> chars::contains(
                    chars::lower(trace.output),
                    chars::lower(#[trigger] case.must_in_output[i]),
                )
            &&& forall|i: int|
                0 <= i < case.must_in_exec.len() ==> chars::contains(
                    chars::lower(all_results(trace.execs) + trace.output),
                    chars::lower(#[trigger] case.must_in_exec[i]),
                )
            &&& !chars::contains(trace.output, "Session reached step limit"@)
        },
{
    let calls = tools_called(trace.execs);
    lemma_filter_empty(case.must_tools, unused(calls));
    lemma_filter_empty(case.must_in_output, absent(trace.output));
    lemma_filter_empty(case.must_in_exec, absent(all_results(trace.execs) + trace.output));
}

/// A session that made too few calls fails, whatever else it did.
pub proof fn law_too_few_calls_fail(case: CaseModel, trace: TraceModel)
    requires
        tools_called(trace.execs).len() < needed_calls(case),
    ensures
        judged(case, trace).0 == Verdict::Fail,
{
}

}
