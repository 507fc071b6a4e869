//! The agent that runs commands of the machine.
use vstd::prelude::*;

use crate::chars;
use crate::json;
use crate::text;
use crate::tools;
use crate::tools::{ToolPolicy, ToolReply, ToolRequest, ToolRunner};
use crate::types::{PlanStepKind, StepModel, ToolModel};

verus! {

/// The tokens of a command line, entered with the start of a token and inside
/// quotes or not. White space outside quotes separates tokens; quotes vanish,
/// and a backslash inside them escapes. Empty tokens are not kept.
pub open spec fn tokens_from(
    s: Seq<char>,
    current: Seq<char>,
    quote: Option<char>,
) -> Seq<Seq<char>>
    decreases s.len(),
{
    if s.len() == 0 {
        if current.len() > 0 {
            seq![current]
        } else {
            seq![]
        }
    } else {
        match quote {
            Some(q) => if s[0] == q {
                tokens_from(s.skip(1), current, None)
            } else if s[0] == '\\' {
                if s.len() == 1 {
                    tokens_from(s.skip(1), current, quote)
                } else {
                    tokens_from(s.skip(2), current.push(json::unescape_char(s[1])), quote)
                }
            } else {
                tokens_from(s.skip(1), current.push(s[0]), quote)
            },
            None => if s[0] == '"' || s[0] == '\'' {
                tokens_from(s.skip(1), current, Some(s[0]))
            } else if chars::is_white(s[0]) {
                if current.len() > 0 {
                    seq![current] + tokens_from(s.skip(1), seq![], None)
                } else {
                    tokens_from(s.skip(1), seq![], None)
                }
            } else {
                tokens_from(s.skip(1), current.push(s[0]), None)
            },
        }
    }
}

/// The tokens of a command line.
pub open spec fn tokens(s: Seq<char>) -> Seq<Seq<char>> {
    tokens_from(s, seq![], None)
}

/// The step that a command line asks for: reading a file, listing a directory,
/// or running a program.
pub open spec fn command_step(command: Seq<char>) -> StepModel {
    let parts = tokens(chars::trim(command));
    if parts.len() == 0 {
        StepModel::Answer("(empty command)"@)
    } else {
        let verb = parts[0];
        let rest = parts.skip(1);
        let path = chars::join(rest, " "@);
        if verb == "read"@ || verb == "cat"@ {
            if path.len() == 0 {
                StepModel::Answer("read requires a path"@)
            } else {
                StepModel::ReadFile(path)
            }
        } else if verb == "ls"@ || verb == "list"@ {
            StepModel::ListDir(
                if path.len() == 0 {
                    "."@
                } else {
                    path
                },
            )
        } else {
            StepModel::Exec { program: verb, args: rest }
        }
    }
}

/// Splits a command line into tokens, respecting single and double quotes.
pub fn shell_split(s: &str) -> (r: Vec<String>)
    ensures
        chars::owned_texts(r@) == tokens(s@),
{
    let v = text::chars_of(s);
    let mut out: Vec<String> = Vec::new();
    let mut current = String::new();
    let mut quote: Option<char> = None;
    let mut i: usize = 0;
    assert(s@.skip(0) =~= s@);
    assert(current@ =~= seq![]);
    assert(chars::owned_texts(out@) + tokens(s@) =~= tokens(s@));
    while i < v.len()
        invariant
            i <= v.len(),
            v@ == s@,
            tokens(s@) == chars::owned_texts(out@) + tokens_from(
                s@.skip(i as int),
                current@,
                quote,
            ),
        decreases v.len() - i,
    {
        let ghost rest = s@.skip(i as int);
        let c = v[i];
        assert(rest[0] == c);
        assert(rest.skip(1) =~= s@.skip(i + 1));
        match quote {
            Some(q) => {
                if c == q {
                    quote = None;
                } else if c == '\\' {
                    if i + 1 < v.len() {
                        let d = v[i + 1];
                        assert(rest[1] == d);
                        assert(rest.skip(2) =~= s@.skip(i + 2));
                        let u = if d == 'n' {
                            '\n'
                        } else if d == 'r' {
                            '\r'
                        } else if d == 't' {
                            '\t'
                        } else {
                            d
                        };
                        current.push(u);
                        i += 1;
                    }
                } else {
                    current.push(c);
                }
            },
            None => {
                if c == '"' || c == '\'' {
                    quote = Some(c);
                } else if text::is_white(c) {
                    if current.as_str().unicode_len() > 0 {
                        let ghost before = chars::owned_texts(out@);
                        let ghost cur = current@;
                        out.push(current);
                        current = String::new();
                        assert(current@ =~= seq![]);
                        assert(chars::owned_texts(out@) =~= before.push(cur));
                        assert(before + (seq![cur] + tokens_from(s@.skip(i + 1), seq![], None))
                            =~= before.push(cur) + tokens_from(s@.skip(i + 1), seq![], None));
                    } else {
                        assert(current@ =~= seq![]);
                    }
                } else {
                    current.push(c);
                }
            },
        }
        i += 1;
    }
    let ghost before = chars::owned_texts(out@);
    let ghost cur = current@;
    if current.as_str().unicode_len() > 0 {
        out.push(current);
        assert(chars::owned_texts(out@) =~= before + seq![cur]);
    } else {
        assert(before + Seq::<Seq<char>>::empty() =~= before);
    }
    out
}

/// The step that a command line asks for.
pub fn parse_exec_command(command: &str) -> (r: PlanStepKind)
    ensures
        r@ == command_step(command@),
{
    let parts = shell_split(text::trim(command));
    let ghost all = chars::owned_texts(parts@);
    if parts.len() == 0 {
        return PlanStepKind::Answer("(empty command)".to_owned());
    }
    let args = text::copy_from(&parts, 1);
    let verb = parts[0].as_str();
    assert(all[0] == verb@);
    let path = text::join_owned(&args, " ");
    if text::same(verb, "read") || text::same(verb, "cat") {
        if path.as_str().unicode_len() == 0 {
            PlanStepKind::Answer("read requires a path".to_owned())
        } else {
            PlanStepKind::ReadFile(path)
        }
    } else if text::same(verb, "ls") || text::same(verb, "list") {
        if path.as_str().unicode_len() == 0 {
            PlanStepKind::ListDir(".".to_owned())
        } else {
            PlanStepKind::ListDir(path)
        }
    } else {
        PlanStepKind::Exec { program: verb.to_owned(), args }
    }
}

/// The agent that runs commands under a policy.
pub struct ExecAgent {
    pub runner: ToolRunner,
}

/// What a tool result amounts to for the caller of a command.
pub open spec fn outcome_of(result: ToolModel) -> Result<Seq<char>, Seq<char>> {
    if result.ok {
        Ok(result.output)
    } else {
        Err(result.output)
    }
}

impl ExecAgent {
    pub fn new(policy: ToolPolicy) -> (r: Self)
        ensures
            r.runner.policy == policy,
    {
        ExecAgent { runner: ToolRunner::new(policy) }
    }

    pub fn name(&self) -> (r: &'static str)
        ensures
            r@ == "exec"@,
    {
        "exec"
    }

    /// What a command asks of the machine.
    pub fn request(&self, command: &str) -> (r: ToolRequest)
        ensures
            r@ == tools::requested(self.runner.policy, command_step(command@)),
    {
        self.runner.request(&parse_exec_command(command))
    }

    /// The outcome of a command, given the machine's reply to its request.
    pub fn execute(&self, command: &str, reply: &ToolReply) -> (r: Result<String, String>)
        requires
            tools::fits(tools::requested(self.runner.policy, command_step(command@)), *reply),
        ensures
            crate::http::text_result(r) == outcome_of(
                tools::step_result(self.runner.policy, command_step(command@), *reply),
            ),
    {
        let result = self.runner.run_step(&parse_exec_command(command), reply);
        if result.ok {
            Ok(result.output)
        } else {
            Err(result.output)
        }
    }
}

proof fn lemma_inside_quotes(s: Seq<char>, q: char, rest: Seq<char>, current: Seq<char>)
    requires
        forall|i: int| 0 <= i < s.len() ==> #[trigger] s[i] != q && s[i] != '\\',
    ensures
        tokens_from(s + seq![q] + rest, current, Some(q)) == tokens_from(rest, current + s, None),
    decreases s.len(),
{
    let all = s + seq![q] + rest;
    if s.len() == 0 {
        assert(all[0] == q);
        assert(all.skip(1) =~= rest);
        assert(current + s =~= current);
    } else {
        let more = s.skip(1);
        assert(all[0] == s[0]);
        assert(all.skip(1) =~= more + seq![q] + rest);
        assert forall|i: int| 0 <= i < more.len() implies #[trigger] more[i] != q && more[i]
            != '\\' by {
            assert(more[i] == s[i + 1]);
        }
        lemma_inside_quotes(more, q, rest, current.push(s[0]));
        assert(current.push(s[0]) + more =~= current + s);
    }
}

/// Quotes keep a text together: what stands between two of the same kind is one
/// token, white space and quotes of the other kind included.
pub proof fn law_quotes_keep_together(s: Seq<char>, q: char, rest: Seq<char>)
    requires
        q == '"' || q == '\'',
        s.len() > 0,
        forall|i: int| 0 <= i < s.len() ==> #[trigger] s[i] != q && s[i] != '\\',
    ensures
        tokens(seq![q] + s + seq![q]) == seq![s],
        tokens(seq![q] + s + seq![q] + (seq![' '] + rest)) == seq![s] + tokens(rest),
{
    let none = Seq::<char>::empty();
    let one = seq![q] + s + seq![q];
    assert(one.skip(1) =~= s + seq![q] + none);
    lemma_inside_quotes(s, q, none, none);
    assert(none + s =~= s);
    assert(one[0] == q);
    let tail = seq![' '] + rest;
    let two = seq![q] + s + seq![q] + tail;
    assert(two[0] == q);
    assert(two.skip(1) =~= s + seq![q] + tail);
    lemma_inside_quotes(s, q, tail, none);
    assert(tail[0] == ' ');
    assert(tail.skip(1) =~= rest);
}

}
