//! Tools of a plan: what a step may do under a policy, what has to be asked of
//! the machine for it, and what its reply amounts to.
use vstd::prelude::*;

use crate::chars;
use crate::config;
use crate::config::joined;
use crate::foreign;
use crate::foreign::lossy;
use crate::numbers;
use crate::text;
use crate::types::{PlanStepKind, StepModel, ToolModel, ToolResult};

verus! {

/// What steps may do. `timeout` is in seconds.
#[derive(Debug)]
pub struct ToolPolicy {
    pub workspace: String,
    pub max_file_bytes: usize,
    pub max_output_bytes: usize,
    pub timeout: u64,
    pub allow_exec: bool,
    /// The operator's list. An empty list allows every program, where programs
    /// are allowed at all.
    pub allowed_exec: Vec<String>,
    /// Programs of skills, which are allowed whatever the operator's list says.
    pub skill_exec: Vec<String>,
}

impl ToolPolicy {
    /// Whether a program may be run.
    pub open spec fn permits(self, program: Seq<char>) -> bool {
        self.allow_exec && (chars::owned_texts(self.skill_exec@).contains(program)
            || self.allowed_exec@.len() == 0 || chars::owned_texts(self.allowed_exec@).contains(
            program,
        ))
    }

    pub fn allows_program(&self, program: &str) -> (r: bool)
        ensures
            r == self.permits(program@),
    {
        if !self.allow_exec {
            return false;
        }
        if text::any_same(&self.skill_exec, program) {
            return true;
        }
        self.allowed_exec.is_empty() || text::any_same(&self.allowed_exec, program)
    }
}

impl Clone for ToolPolicy {
    fn clone(&self) -> (r: Self)
        ensures
            r.workspace@ == self.workspace@,
            r.max_file_bytes == self.max_file_bytes,
            r.max_output_bytes == self.max_output_bytes,
            r.timeout == self.timeout,
            r.allow_exec == self.allow_exec,
            r.allowed_exec@ == self.allowed_exec@,
            r.skill_exec@ == self.skill_exec@,
    {
        ToolPolicy {
            workspace: self.workspace.clone(),
            max_file_bytes: self.max_file_bytes,
            max_output_bytes: self.max_output_bytes,
            timeout: self.timeout,
            allow_exec: self.allow_exec,
            allowed_exec: text::copy_all(&self.allowed_exec),
            skill_exec: text::copy_all(&self.skill_exec),
        }
    }
}

/// What a step asks of the machine.
#[derive(Debug)]
pub enum ToolRequest {
    /// Nothing: the result is known.
    Ready(ToolResult),
    ReadFile { path: String },
    ListDir { path: String },
    Spawn { program: String, args: Vec<String>, dir: String, timeout: u64 },
}

/// What a step asks of the machine, by its texts.
pub ghost enum RequestModel {
    Ready(ToolModel),
    ReadFile { path: Seq<char> },
    ListDir { path: Seq<char> },
    Spawn { program: Seq<char>, args: Seq<Seq<char>>, dir: Seq<char>, timeout: nat },
}

impl View for ToolRequest {
    type V = RequestModel;

    open spec fn view(&self) -> RequestModel {
        match self {
            ToolRequest::Ready(r) => RequestModel::Ready(r@),
            ToolRequest::ReadFile { path } => RequestModel::ReadFile { path: path@ },
            ToolRequest::ListDir { path } => RequestModel::ListDir { path: path@ },
            ToolRequest::Spawn { program, args, dir, timeout } => RequestModel::Spawn {
                program: program@,
                args: chars::owned_texts(args@),
                dir: dir@,
                timeout: *timeout as nat,
            },
        }
    }
}

/// One entry of a directory.
#[derive(Debug)]
pub struct DirEntry {
    pub name: String,
    pub is_dir: bool,
}

/// How a program came out.
#[derive(Debug)]
pub enum ProcessReply {
    SpawnFailed(String),
    TimedOut,
    WaitFailed(String),
    OutputFailed(String),
    Finished { success: bool, stdout: Vec<u8>, stderr: Vec<u8> },
}

/// The machine's reply to a request; errors come in words.
#[derive(Debug)]
pub enum ToolReply {
    Nothing,
    File(Result<Vec<u8>, String>),
    Listing(Result<Vec<DirEntry>, String>),
    Process(ProcessReply),
}

/// A path as it is requested: under the workspace unless it is absolute.
pub open spec fn path_in(workspace: Seq<char>, requested: Seq<char>) -> Seq<char> {
    if chars::starts_with(requested, "/"@) {
        requested
    } else {
        joined(workspace, requested)
    }
}

/// Why a program is not run.
pub open spec fn denied(program: Seq<char>) -> ToolModel {
    ToolModel {
        name: "exec.run"@,
        ok: false,
        output: "exec denied: "@ + program + " is not allowlisted"@,
    }
}

/// What a step asks of the machine under a policy.
pub open spec fn requested(policy: ToolPolicy, step: StepModel) -> RequestModel {
    match step {
        StepModel::Answer(t) => RequestModel::Ready(
            ToolModel { name: "answer"@, ok: true, output: t },
        ),
        StepModel::ReadFile(p) => RequestModel::ReadFile { path: path_in(policy.workspace@, p) },
        StepModel::ListDir(p) => RequestModel::ListDir { path: path_in(policy.workspace@, p) },
        StepModel::Exec { program, args } => if policy.permits(program) {
            RequestModel::Spawn {
                program,
                args,
                dir: policy.workspace@,
                timeout: policy.timeout as nat,
            }
        } else {
            RequestModel::Ready(denied(program))
        },
    }
}

/// The reply is one to that request.
pub open spec fn fits(request: RequestModel, reply: ToolReply) -> bool {
    match request {
        RequestModel::Ready(_) => true,
        RequestModel::ReadFile { .. } => reply is File,
        RequestModel::ListDir { .. } => reply is Listing,
        RequestModel::Spawn { .. } => reply is Process,
    }
}

/// A text cut to a number of bytes, with a note where something was cut.
pub open spec fn cut(s: Seq<char>, max: nat) -> Seq<char> {
    chars::capped(s, max, "\n[truncated to "@ + numbers::decimal(max) + " bytes]"@)
}

/// What a file read amounts to: its text, or that it is over the limit, or the
/// error.
pub open spec fn file_output(reply: Result<Vec<u8>, String>, max: nat) -> Seq<char> {
    match reply {
        Ok(data) => if data@.len() > max {
            "file is "@ + numbers::decimal(data@.len()) + " bytes; limit is "@ + numbers::decimal(
                max,
            ) + " bytes"@
        } else {
            lossy(data@)
        },
        Err(e) => "read failed: "@ + e@,
    }
}

/// An entry's name, with a slash behind a directory.
pub open spec fn entry_name(e: DirEntry) -> Seq<char> {
    if e.is_dir {
        e.name@ + "/"@
    } else {
        e.name@
    }
}

/// The names of a directory.
pub open spec fn entry_names(v: Seq<DirEntry>) -> Seq<Seq<char>> {
    v.map_values(|e: DirEntry| entry_name(e))
}

/// What a listing amounts to: the names in order, cut to the limit, or the
/// error.
pub open spec fn listing_output(reply: Result<Vec<DirEntry>, String>, max: nat) -> Seq<char> {
    match reply {
        Ok(entries) => cut(
            chars::join(chars::sorted(entry_names(entries@)), "\n"@),
            max,
        ),
        Err(e) => "list failed: "@ + e@,
    }
}

/// What a run of a program amounts to: both outputs, cut to the limit, or what
/// went wrong.
pub open spec fn process_result(reply: ProcessReply, max: nat) -> ToolModel {
    let failed = |output: Seq<char>| ToolModel { name: "exec.run"@, ok: false, output };
    match reply {
        ProcessReply::SpawnFailed(e) => failed("exec failed: "@ + e@),
        ProcessReply::TimedOut => failed("exec timed out"@),
        ProcessReply::WaitFailed(e) => failed("exec wait failed: "@ + e@),
        ProcessReply::OutputFailed(e) => failed("exec output failed: "@ + e@),
        ProcessReply::Finished { success, stdout, stderr } => ToolModel {
            name: "exec.run"@,
            ok: success,
            output: cut(
                if stderr@.len() == 0 {
                    lossy(stdout@)
                } else {
                    lossy(stdout@) + "\nstderr:\n"@ + lossy(stderr@)
                },
                max,
            ),
        },
    }
}

/// The result of a step under a policy, given the machine's reply. A read or a
/// listing counts as failed by the words that its output starts with.
pub open spec fn step_result(policy: ToolPolicy, step: StepModel, reply: ToolReply) -> ToolModel {
    match requested(policy, step) {
        RequestModel::Ready(result) => result,
        RequestModel::ReadFile { .. } => {
            let output = file_output(reply->File_0, policy.max_file_bytes as nat);
            ToolModel {
                name: "fs.read"@,
                ok: !chars::starts_with(output, "read failed:"@),
                output,
            }
        },
        RequestModel::ListDir { .. } => {
            let output = listing_output(reply->Listing_0, policy.max_output_bytes as nat);
            ToolModel {
                name: "fs.list"@,
                ok: !chars::starts_with(output, "list failed:"@),
                output,
            }
        },
        RequestModel::Spawn { .. } => process_result(
            reply->Process_0,
            policy.max_output_bytes as nat,
        ),
    }
}

/// What to do about a program that was polled.
#[derive(Debug, Clone, Copy, PartialEq, Eq, Structural)]
pub enum PollAction {
    Collect,
    Kill,
    Wait,
}

/// A program that has exited is collected, one that is past its deadline is
/// killed, and any other is waited for.
pub fn after_poll(exited: bool, expired: bool) -> (r: PollAction)
    ensures
        r == (if exited {
            PollAction::Collect
        } else if expired {
            PollAction::Kill
        } else {
            PollAction::Wait
        }),
{
    if exited {
        PollAction::Collect
    } else if expired {
        PollAction::Kill
    } else {
        PollAction::Wait
    }
}

/// A text cut to a number of bytes, with a note where something was cut.
pub fn cap_text(s: &str, max_bytes: usize) -> (r: String)
    ensures
        r@ == cut(s@, max_bytes as nat),
{
    let mut mark = "\n[truncated to ".to_owned();
    mark.append(numbers::usize_text(max_bytes).as_str());
    mark.append(" bytes]");
    text::capped(s, max_bytes, mark.as_str())
}

fn workspace_path(workspace: &str, path: &str) -> (r: String)
    ensures
        r@ == path_in(workspace@, path@),
{
    if text::starts_with(path, "/") {
        path.to_owned()
    } else {
        config::join_path(workspace, path)
    }
}

fn render_file(reply: &Result<Vec<u8>, String>, max: usize) -> (r: String)
    ensures
        r@ == file_output(*reply, max as nat),
{
    match reply {
        Ok(data) => if data.len() > max {
            let mut out = "file is ".to_owned();
            out.append(numbers::usize_text(data.len()).as_str());
            out.append(" bytes; limit is ");
            out.append(numbers::usize_text(max).as_str());
            out.append(" bytes");
            out
        } else {
            foreign::lossy_text(data.as_slice())
        },
        Err(e) => "read failed: ".to_owned().concat(e.as_str()),
    }
}

fn render_listing(reply: &Result<Vec<DirEntry>, String>, max: usize) -> (r: String)
    ensures
        r@ == listing_output(*reply, max as nat),
{
    match reply {
        Ok(entries) => {
            let mut names: Vec<String> = Vec::new();
            let ghost all = entry_names(entries@);
            let mut i: usize = 0;
            assert(all.take(0) =~= Seq::empty());
            assert(chars::owned_texts(names@) =~= Seq::empty());
            while i < entries.len()
                invariant
                    i <= entries.len(),
                    all == entry_names(entries@),
                    chars::owned_texts(names@) == chars::sorted(all.take(i as int)),
                decreases entries.len() - i,
            {
                assert(all.take(i + 1).drop_last() =~= all.take(i as int));
                let mut name = entries[i].name.clone();
                if entries[i].is_dir {
                    name.append("/");
                }
                assert(name@ == all[i as int]);
                text::insert_sorted(&mut names, name);
                i += 1;
            }
            assert(all.take(i as int) =~= all);
            cap_text(text::join_owned(&names, "\n").as_str(), max)
        },
        Err(e) => "list failed: ".to_owned().concat(e.as_str()),
    }
}

fn failed_run(output: String) -> (r: ToolResult)
    ensures
        r@ == (ToolModel { name: "exec.run"@, ok: false, output: output@ }),
{
    ToolResult { name: "exec.run".to_owned(), ok: false, output }
}

fn render_process(reply: &ProcessReply, max: usize) -> (r: ToolResult)
    ensures
        r@ == process_result(*reply, max as nat),
{
    match reply {
        ProcessReply::SpawnFailed(e) => failed_run("exec failed: ".to_owned().concat(e.as_str())),
        ProcessReply::TimedOut => failed_run("exec timed out".to_owned()),
        ProcessReply::WaitFailed(e) => failed_run(
            "exec wait failed: ".to_owned().concat(e.as_str()),
        ),
        ProcessReply::OutputFailed(e) => failed_run(
            "exec output failed: ".to_owned().concat(e.as_str()),
        ),
        ProcessReply::Finished { success, stdout, stderr } => {
            let mut out = foreign::lossy_text(stdout.as_slice());
            if stderr.len() > 0 {
                out.append("\nstderr:\n");
                out.append(foreign::lossy_text(stderr.as_slice()).as_str());
            }
            ToolResult {
                name: "exec.run".to_owned(),
                ok: *success,
                output: cap_text(out.as_str(), max),
            }
        },
    }
}

#[derive(Debug)]
pub struct ToolRunner {
    pub policy: ToolPolicy,
}

impl ToolRunner {
    pub fn new(policy: ToolPolicy) -> (r: Self)
        ensures
            r.policy == policy,
    {
        ToolRunner { policy }
    }

    pub fn policy(&self) -> (r: &ToolPolicy)
        ensures
            *r == self.policy,
    {
        &self.policy
    }

    /// What a step asks of the machine. A program that the policy does not allow
    /// is never asked for.
    pub fn request(&self, step: &PlanStepKind) -> (r: ToolRequest)
        ensures
            r@ == requested(self.policy, step@),
    {
        match step {
            PlanStepKind::Answer(t) => ToolRequest::Ready(
                ToolResult { name: "answer".to_owned(), ok: true, output: t.clone() },
            ),
            PlanStepKind::ReadFile(p) => ToolRequest::ReadFile {
                path: workspace_path(self.policy.workspace.as_str(), p.as_str()),
            },
            PlanStepKind::ListDir(p) => ToolRequest::ListDir {
                path: workspace_path(self.policy.workspace.as_str(), p.as_str()),
            },
            PlanStepKind::Exec { program, args } => {
                if self.policy.allows_program(program.as_str()) {
                    ToolRequest::Spawn {
                        program: program.clone(),
                        args: text::copy_all(args),
                        dir: self.policy.workspace.clone(),
                        timeout: self.policy.timeout,
                    }
                } else {
                    let mut out = "exec denied: ".to_owned();
                    out.append(program.as_str());
                    out.append(" is not allowlisted");
                    ToolRequest::Ready(failed_run(out))
                }
            },
        }
    }

    /// The result of a step, given the machine's reply to its request.
    pub fn run_step(&self, step: &PlanStepKind, reply: &ToolReply) -> (r: ToolResult)
        requires
            fits(requested(self.policy, step@), *reply),
        ensures
            r@ == step_result(self.policy, step@, *reply),
    {
        match self.request(step) {
            ToolRequest::Ready(result) => result,
            ToolRequest::ReadFile { path: _ } => match reply {
                ToolReply::File(contents) => {
                    let output = render_file(contents, self.policy.max_file_bytes);
                    ToolResult {
                        name: "fs.read".to_owned(),
                        ok: !text::starts_with(output.as_str(), "read failed:"),
                        output,
                    }
                },
                _ => failed_run(String::new()),
            },
            ToolRequest::ListDir { path: _ } => match reply {
                ToolReply::Listing(entries) => {
                    let output = render_listing(entries, self.policy.max_output_bytes);
                    ToolResult {
                        name: "fs.list".to_owned(),
                        ok: !text::starts_with(output.as_str(), "list failed:"),
                        output,
                    }
                },
                _ => failed_run(String::new()),
            },
            ToolRequest::Spawn { program: _, args: _, dir: _, timeout: _ } => match reply {
                ToolReply::Process(outcome) => render_process(
                    outcome,
                    self.policy.max_output_bytes,
                ),
                _ => failed_run(String::new()),
            },
        }
    }
}

/// A program is asked for only where the policy allows programs at all, and
/// then only one of a skill or of the operator's list, unless that is empty.
pub proof fn law_spawn_only_when_allowed(policy: ToolPolicy, step: StepModel)
    ensures
        requested(policy, step) matches RequestModel::Spawn { program, .. } ==> {
            &&& policy.allow_exec
            &&& chars::owned_texts(policy.skill_exec@).contains(program)
                || policy.allowed_exec@.len() == 0 || chars::owned_texts(
                policy.allowed_exec@,
            ).contains(program)
        },
        !policy.allow_exec && step is Exec ==> requested(policy, step) is Ready,
{
}

/// A text that was cut takes no more bytes than the limit and the note about it,
/// and a text within the limit is kept whole.
pub proof fn law_cut_keeps_limit(s: Seq<char>, max: nat)
    ensures
        chars::byte_len(cut(s, max)) <= max + chars::byte_len(
            "\n[truncated to "@ + numbers::decimal(max) + " bytes]"@,
        ),
        chars::byte_len(s) <= max ==> cut(s, max) == s,
{
    chars::law_capped_keeps_limit(
        s,
        max,
        "\n[truncated to "@ + numbers::decimal(max) + " bytes]"@,
    );
}

}
