//! Onboarding and uninstalling: the questions that are asked, and what the
//! answers lead to.
use vstd::prelude::*;

use crate::chars;
use crate::chars::CharSet;
use crate::cli::{
    chats_text, complain, join_chat_ids, line_models, mask_token, masked, no_lines, pair, say,
    CommandReply, Line, LineModel, ReplyModel,
};
use crate::config;
use crate::config::{config_in, joined, opt_llm, opt_str, rendered, with_primary};
use crate::config::{FileModel, LlmConfig, LlmModel, TelegramModel};
use crate::json;
use crate::text;

verus! {

/// The answer to a question: what was typed, trimmed, or the default where that
/// is nothing.
pub open spec fn answer_or(default: Seq<char>, typed: Seq<char>) -> Seq<char> {
    if chars::trim(typed).len() == 0 {
        default
    } else {
        chars::trim(typed)
    }
}

/// The answer to a question with a default.
pub fn answer_to(default: &str, typed: &str) -> (r: String)
    ensures
        r@ == answer_or(default@, typed@),
{
    let t = text::trim(typed);
    if t.unicode_len() == 0 {
        default.to_owned()
    } else {
        t.to_owned()
    }
}

/// The text of a question with a default.
pub fn question_text(label: &str, default: &str) -> (r: String)
    ensures
        r@ == (if default@.len() == 0 {
            label@ + ": "@
        } else {
            label@ + " ["@ + default@ + "]: "@
        }),
{
    let mut out = label.to_owned();
    if default.unicode_len() == 0 {
        out.append(": ");
    } else {
        out.append(" [");
        out.append(default);
        out.append("]: ");
    }
    out
}

// ---------------------------------------------------------------------------
// Uninstalling
// ---------------------------------------------------------------------------

/// How much is removed.
#[derive(Debug, Clone, Copy, PartialEq, Eq, Structural)]
pub enum UninstallMode {
    KeepData,
    RemoveUserData,
    Purge,
}

impl UninstallMode {
    pub open spec fn name(self) -> Seq<char> {
        match self {
            UninstallMode::KeepData => "keep-data"@,
            UninstallMode::RemoveUserData => "remove-user-data"@,
            UninstallMode::Purge => "purge"@,
        }
    }

    pub fn label(&self) -> (r: &'static str)
        ensures
            r@ == self.name(),
    {
        match self {
            UninstallMode::KeepData => "keep-data",
            UninstallMode::RemoveUserData => "remove-user-data",
            UninstallMode::Purge => "purge",
        }
    }
}

/// The help of `uninstall`.
pub const UNINSTALL_HELP: &'static str =
    "usage: minipaw uninstall [--keep-data | --remove-user-data | --purge] [--yes]
--keep-data            remove binary and shell profile block; keep ~/.minipaw data
--remove-user-data     remove binary, config, memory, skills, and workspace
--purge                remove the entire minipaw folder
--yes                  do not prompt for confirmation";

/// What the options of `uninstall` leave: the mode, where one was given, and
/// whether nothing is asked; or a reply.
pub open spec fn uninstall_options(
    args: Seq<Seq<char>>,
    i: int,
    mode: Option<UninstallMode>,
    yes: bool,
) -> Result<(Option<UninstallMode>, bool), ReplyModel>
    decreases args.len() - i,
{
    if i < 0 || i >= args.len() {
        Ok((mode, yes))
    } else {
        let a = args[i];
        if a == "--keep-data"@ {
            uninstall_options(args, i + 1, Some(UninstallMode::KeepData), yes)
        } else if a == "--remove-user-data"@ || a == "--remove-data"@ {
            uninstall_options(args, i + 1, Some(UninstallMode::RemoveUserData), yes)
        } else if a == "--purge"@ || a == "--remove-minipaw-folder"@ || a == "--remove-folder"@ {
            uninstall_options(args, i + 1, Some(UninstallMode::Purge), yes)
        } else if a == "--yes"@ || a == "-y"@ {
            uninstall_options(args, i + 1, mode, true)
        } else if a == "--help"@ || a == "-h"@ {
            Err(ReplyModel::says(0, seq![LineModel::Complaint(UNINSTALL_HELP@)]))
        } else {
            Err(
                ReplyModel::says(
                    2,
                    seq![
                        LineModel::Complaint("unknown uninstall option: "@ + a),
                        LineModel::Complaint(UNINSTALL_HELP@),
                    ],
                ),
            )
        }
    }
}

/// The options of `uninstall`, which is not among the arguments.
pub fn parse_uninstall_args(args: &Vec<String>) -> (r: Result<
    (Option<UninstallMode>, bool),
    CommandReply,
>)
    ensures
        match r {
            Ok(o) => uninstall_options(chars::owned_texts(args@), 0, None, false) == Ok::<
                (Option<UninstallMode>, bool),
                ReplyModel,
            >(o),
            Err(e) => uninstall_options(chars::owned_texts(args@), 0, None, false) == Err::<
                (Option<UninstallMode>, bool),
                ReplyModel,
            >(e@),
        },
{
    let ghost all = chars::owned_texts(args@);
    let mut mode: Option<UninstallMode> = None;
    let mut yes = false;
    let mut i: usize = 0;
    while i < args.len()
        invariant
            i <= args.len(),
            all == chars::owned_texts(args@),
            uninstall_options(all, 0, None, false) == uninstall_options(
                all,
                i as int,
                mode,
                yes,
            ),
        decreases args.len() - i,
    {
        let a = args[i].as_str();
        assert(all[i as int] == a@);
        if text::same(a, "--keep-data") {
            mode = Some(UninstallMode::KeepData);
        } else if text::same(a, "--remove-user-data") || text::same(a, "--remove-data") {
            mode = Some(UninstallMode::RemoveUserData);
        } else if text::same(a, "--purge") || text::same(a, "--remove-minipaw-folder")
            || text::same(a, "--remove-folder") {
            mode = Some(UninstallMode::Purge);
        } else if text::same(a, "--yes") || text::same(a, "-y") {
            yes = true;
        } else if text::same(a, "--help") || text::same(a, "-h") {
            let mut lines = no_lines();
            complain(&mut lines, UNINSTALL_HELP.to_owned());
            assert(line_models(lines@) =~= seq![LineModel::Complaint(UNINSTALL_HELP@)]);
            return Err(CommandReply::says(0, lines));
        } else {
            let mut lines = no_lines();
            complain(&mut lines, pair("unknown uninstall option: ", a));
            complain(&mut lines, UNINSTALL_HELP.to_owned());
            assert(line_models(lines@) =~= seq![
                LineModel::Complaint("unknown uninstall option: "@ + a@),
                LineModel::Complaint(UNINSTALL_HELP@),
            ]);
            return Err(CommandReply::says(2, lines));
        }
        i += 1;
    }
    Ok((mode, yes))
}

/// The mode without a question: the given one, and keeping the data where nothing
/// is asked.
pub fn settled_mode(mode: Option<UninstallMode>, yes: bool) -> (r: Option<UninstallMode>)
    ensures
        r == (match mode {
            Some(m) => Some(m),
            None => if yes {
                Some(UninstallMode::KeepData)
            } else {
                None
            },
        }),
{
    match mode {
        Some(m) => Some(m),
        None => if yes {
            Some(UninstallMode::KeepData)
        } else {
            None
        },
    }
}

/// The mode that an answer chooses.
pub open spec fn mode_chosen(answer: Seq<char>) -> Option<UninstallMode> {
    let a = chars::trim(answer);
    if a == "1"@ || a == "keep"@ || a == "keep-data"@ {
        Some(UninstallMode::KeepData)
    } else if a == "2"@ || a == "remove"@ || a == "remove-data"@ || a == "remove-user-data"@ {
        Some(UninstallMode::RemoveUserData)
    } else if a == "3"@ || a == "purge"@ || a == "remove-folder"@ || a
        == "remove-minipaw-folder"@ {
        Some(UninstallMode::Purge)
    } else {
        None
    }
}

pub fn choose_mode(answer: &str) -> (r: Option<UninstallMode>)
    ensures
        r == mode_chosen(answer@),
{
    let a = text::trim(answer);
    if text::same(a, "1") || text::same(a, "keep") || text::same(a, "keep-data") {
        Some(UninstallMode::KeepData)
    } else if text::same(a, "2") || text::same(a, "remove") || text::same(a, "remove-data")
        || text::same(a, "remove-user-data") {
        Some(UninstallMode::RemoveUserData)
    } else if text::same(a, "3") || text::same(a, "purge") || text::same(a, "remove-folder")
        || text::same(a, "remove-minipaw-folder") {
        Some(UninstallMode::Purge)
    } else {
        None
    }
}

/// An answer that agrees.
pub open spec fn is_agreed(answer: Seq<char>) -> bool {
    let a = chars::lower(chars::trim(answer));
    a == "y"@ || a == "yes"@
}

pub fn agreed(answer: &str) -> (r: bool)
    ensures
        r == is_agreed(answer@),
{
    let a = text::lower(text::trim(answer));
    text::same(a.as_str(), "y") || text::same(a.as_str(), "yes")
}

/// A path that names the root of the file system, or nothing.
pub open spec fn is_unsafe_dir(dir: Seq<char>) -> bool {
    dir.len() == 0 || (dir[0] == '/' && forall|i: int|
        0 <= i < chars::pieces(dir, CharSet::Only('/')).len() ==> {
            let part = #[trigger] chars::pieces(dir, CharSet::Only('/'))[i];
            part.len() == 0 || part == "."@
        })
}

/// Whether nothing may be removed from a directory.
pub fn unsafe_dir(dir: &str) -> (r: bool)
    ensures
        r == is_unsafe_dir(dir@),
{
    if dir.unicode_len() == 0 {
        return true;
    }
    if dir.get_char(0) != '/' {
        return false;
    }
    let parts = text::pieces(dir, CharSet::Only('/'));
    let ghost all = chars::pieces(dir@, CharSet::Only('/'));
    let mut i: usize = 0;
    while i < parts.len()
        invariant
            i <= parts.len(),
            all == chars::texts(parts@),
            all == chars::pieces(dir@, CharSet::Only('/')),
            dir@.len() > 0,
            forall|k: int| 0 <= k < i ==> (#[trigger] all[k]).len() == 0 || all[k] == "."@,
        decreases parts.len() - i,
    {
        assert(all[i as int] == parts@[i as int]@);
        if parts[i].unicode_len() > 0 && !text::same(parts[i], ".") {
            assert(chars::pieces(dir@, CharSet::Only('/'))[i as int].len() > 0);
            return false;
        }
        i += 1;
    }
    true
}

/// What is removed.
#[derive(Debug)]
pub enum Removal {
    File(String),
    Dir(String),
}

/// What is removed, by its path.
pub ghost enum RemovalModel {
    File(Seq<char>),
    Dir(Seq<char>),
}

impl View for Removal {
    type V = RemovalModel;

    open spec fn view(&self) -> RemovalModel {
        match self {
            Removal::File(p) => RemovalModel::File(p@),
            Removal::Dir(p) => RemovalModel::Dir(p@),
        }
    }
}

/// The contents of a list of removals.
pub open spec fn removal_models(v: Seq<Removal>) -> Seq<RemovalModel> {
    v.map_values(|r: Removal| r@)
}

/// What a mode removes from the install directory.
pub open spec fn removals(mode: UninstallMode, dir: Seq<char>) -> Seq<RemovalModel> {
    match mode {
        UninstallMode::KeepData => seq![RemovalModel::File(joined(dir, "minipaw"@))],
        UninstallMode::RemoveUserData => seq![
            RemovalModel::File(joined(dir, "minipaw"@)),
            RemovalModel::File(joined(dir, "SOUL.md"@)),
            RemovalModel::File(joined(dir, "minipaw.json"@)),
            RemovalModel::Dir(joined(dir, "skills"@)),
            RemovalModel::Dir(joined(dir, "memory"@)),
            RemovalModel::Dir(joined(dir, "workspace"@)),
        ],
        UninstallMode::Purge => seq![RemovalModel::Dir(dir)],
    }
}

/// What is printed once everything is removed.
pub open spec fn removed_text(mode: UninstallMode) -> Seq<char> {
    match mode {
        UninstallMode::KeepData =>
        "removed minipaw binary and shell profile block; kept user data"@,
        UninstallMode::RemoveUserData =>
        "removed minipaw binary, managed files, and user data"@,
        UninstallMode::Purge => "removed minipaw folder"@,
    }
}

/// What a mode removes, and what is printed once it is removed.
pub fn plan_removal(mode: UninstallMode, dir: &str) -> (r: (Vec<Removal>, &'static str))
    ensures
        removal_models(r.0@) == removals(mode, dir@),
        r.1@ == removed_text(mode),
{
    let mut v: Vec<Removal> = Vec::new();
    match mode {
        UninstallMode::KeepData => {
            v.push(Removal::File(config::join_path(dir, "minipaw")));
            assert(removal_models(v@) =~= removals(mode, dir@));
            (v, "removed minipaw binary and shell profile block; kept user data")
        },
        UninstallMode::RemoveUserData => {
            v.push(Removal::File(config::join_path(dir, "minipaw")));
            v.push(Removal::File(config::join_path(dir, "SOUL.md")));
            v.push(Removal::File(config::join_path(dir, "minipaw.json")));
            v.push(Removal::Dir(config::join_path(dir, "skills")));
            v.push(Removal::Dir(config::join_path(dir, "memory")));
            v.push(Removal::Dir(config::join_path(dir, "workspace")));
            assert(removal_models(v@) =~= removals(mode, dir@));
            (v, "removed minipaw binary, managed files, and user data")
        },
        UninstallMode::Purge => {
            v.push(Removal::Dir(dir.to_owned()));
            assert(removal_models(v@) =~= removals(mode, dir@));
            (v, "removed minipaw folder")
        },
    }
}

/// The lines of a shell profile without the managed block. A block that does not
/// end reaches to the end of the file.
pub open spec fn unmanaged(lines: Seq<Seq<char>>, skipping: bool) -> Seq<Seq<char>>
    decreases lines.len(),
{
    if lines.len() == 0 {
        seq![]
    } else {
        let t = chars::trim(lines[0]);
        let rest = lines.skip(1);
        if t == "# minipaw managed block"@ {
            unmanaged(rest, true)
        } else if skipping {
            unmanaged(rest, t != "# end minipaw managed block"@)
        } else {
            seq![lines[0]] + unmanaged(rest, false)
        }
    }
}

/// Lines, each with its line break.
pub open spec fn with_breaks(lines: Seq<Seq<char>>) -> Seq<char>
    decreases lines.len(),
{
    if lines.len() == 0 {
        seq![]
    } else {
        with_breaks(lines.drop_last()) + lines.last() + "\n"@
    }
}

/// A shell profile without the managed block.
pub fn remove_managed_block(profile: &str) -> (r: String)
    ensures
        r@ == with_breaks(unmanaged(chars::lines(profile@), false)),
{
    let lines = text::lines(profile);
    let ghost all = chars::texts(lines@);
    let ghost mut kept: Seq<Seq<char>> = Seq::empty();
    let mut out = String::new();
    let mut skipping = false;
    let mut i: usize = 0;
    assert(all.skip(0) =~= all);
    assert(kept + unmanaged(all, false) =~= unmanaged(all, false));
    while i < lines.len()
        invariant
            i <= lines.len(),
            all == chars::texts(lines@),
            out@ == with_breaks(kept),
            unmanaged(all, false) == kept + unmanaged(all.skip(i as int), skipping),
        decreases lines.len() - i,
    {
        let ghost rest = all.skip(i as int);
        assert(rest.skip(1) =~= all.skip(i + 1));
        assert(rest[0] == lines@[i as int]@);
        let t = text::trim(lines[i]);
        if text::same(t, "# minipaw managed block") {
            skipping = true;
        } else if skipping {
            if text::same(t, "# end minipaw managed block") {
                skipping = false;
            }
        } else {
            out.append(lines[i]);
            out.append("\n");
            proof {
                let x = rest[0];
                let more = kept.push(x);
                assert(more.drop_last() =~= kept);
                assert(kept + (seq![x] + unmanaged(rest.skip(1), false)) =~= more + unmanaged(
                    rest.skip(1),
                    false,
                ));
                kept = more;
            }
        }
        i += 1;
    }
    assert(kept + Seq::<Seq<char>>::empty() =~= kept);
    out
}

/// No line that opens the managed block is kept, and every line before one is.
pub proof fn law_managed_block_is_removed(lines: Seq<Seq<char>>, skipping: bool)
    ensures
        forall|i: int|
            0 <= i < unmanaged(lines, skipping).len() ==> chars::trim(
                #[trigger] unmanaged(lines, skipping)[i],
            ) != "# minipaw managed block"@,
        (!skipping && forall|i: int|
            0 <= i < lines.len() ==> chars::trim(#[trigger] lines[i])
                != "# minipaw managed block"@) ==> unmanaged(lines, skipping) == lines,
    decreases lines.len(),
{
    if lines.len() > 0 {
        let rest = lines.skip(1);
        let t = chars::trim(lines[0]);
        law_managed_block_is_removed(rest, true);
        law_managed_block_is_removed(rest, false);
        assert(forall|i: int| 0 <= i < rest.len() ==> #[trigger] rest[i] == lines[i + 1]);
        let kept = unmanaged(lines, skipping);
        if t != "# minipaw managed block"@ && !skipping {
            let tail = unmanaged(rest, false);
            assert forall|i: int| 0 <= i < kept.len() implies chars::trim(#[trigger] kept[i])
                != "# minipaw managed block"@ by {
                if i > 0 {
                    assert(kept[i] == tail[i - 1]);
                }
            }
            if tail == rest {
                assert(seq![lines[0]] + rest =~= lines);
            }
        } else if t == "# minipaw managed block"@ {
            assert(kept == unmanaged(rest, true));
        } else {
            assert(kept == unmanaged(rest, t != "# end minipaw managed block"@));
        }
    } else {
        assert(unmanaged(lines, skipping) =~= lines);
    }
}

// ---------------------------------------------------------------------------
// Onboarding
// ---------------------------------------------------------------------------

/// The question that onboarding is at.
#[derive(Debug, Clone, Copy, PartialEq, Eq, Structural)]
pub enum OnboardingStage {
    Provider,
    Url,
    Model,
    Key,
    Channel,
    Token,
    Chats,
    Over,
}

/// Onboarding: the configuration as it stands, the answers so far, and what the
/// last answer led to: a text to be written, lines to be printed, and in the
/// end an exit code.
#[derive(Debug)]
pub struct Onboarding {
    pub stage: OnboardingStage,
    pub file: Option<String>,
    pub current: Option<LlmConfig>,
    pub provider: String,
    pub url: String,
    pub model: String,
    pub token: String,
    pub write: Option<String>,
    pub lines: Vec<Line>,
    pub code: i32,
}

/// The contents of onboarding.
pub ghost struct OnboardingModel {
    pub stage: OnboardingStage,
    pub file: Option<Seq<char>>,
    pub current: Option<LlmModel>,
    pub provider: Seq<char>,
    pub url: Seq<char>,
    pub model: Seq<char>,
    pub token: Seq<char>,
    pub write: Option<Seq<char>>,
    pub lines: Seq<LineModel>,
    pub code: int,
}

impl View for Onboarding {
    type V = OnboardingModel;

    open spec fn view(&self) -> OnboardingModel {
        OnboardingModel {
            stage: self.stage,
            file: chars::opt_text(self.file),
            current: opt_llm(self.current),
            provider: self.provider@,
            url: self.url@,
            model: self.model@,
            token: self.token@,
            write: chars::opt_text(self.write),
            lines: line_models(self.lines@),
            code: self.code as int,
        }
    }
}

impl OnboardingModel {
    /// The label of the question.
    pub open spec fn label(self) -> Seq<char> {
        match self.stage {
            OnboardingStage::Provider => "model provider (llamacpp/deepseek)"@,
            OnboardingStage::Url => "model url"@,
            OnboardingStage::Model => "model name"@,
            OnboardingStage::Key => "api key"@,
            OnboardingStage::Channel => "channel (none/telegram)"@,
            OnboardingStage::Token => "telegram bot token"@,
            OnboardingStage::Chats => "telegram chat ids"@,
            OnboardingStage::Over => ""@,
        }
    }

    /// The default of the question: what is configured, else what fits the
    /// provider.
    pub open spec fn default(self) -> Seq<char> {
        let deepseek = chars::trim(self.provider) == "deepseek"@;
        match self.stage {
            OnboardingStage::Provider => match self.current {
                Some(c) => c.provider,
                None => "llamacpp"@,
            },
            OnboardingStage::Url => match self.current {
                Some(c) => c.url,
                None => if deepseek {
                    "https://api.deepseek.com/v1"@
                } else {
                    "http://127.0.0.1:8080/v1"@
                },
            },
            OnboardingStage::Model => match self.current {
                Some(c) => c.model,
                None => if deepseek {
                    "deepseek-chat"@
                } else {
                    "local-model"@
                },
            },
            OnboardingStage::Key => match self.current {
                Some(c) => match c.api_key {
                    Some(k) => k,
                    None => ""@,
                },
                None => ""@,
            },
            OnboardingStage::Channel => "none"@,
            OnboardingStage::Token => match config_in(self.file).telegram {
                Some(t) => t.token,
                None => ""@,
            },
            OnboardingStage::Chats => match config_in(self.file).telegram {
                Some(t) => chats_text(t.allowed_chats),
                None => ""@,
            },
            OnboardingStage::Over => ""@,
        }
    }

    /// The model is configured with a key, and the channel is asked for.
    pub open spec fn model_configured(self, key: Option<Seq<char>>) -> OnboardingModel {
        let out = rendered(
            with_primary(config_in(self.file), self.provider, self.url, self.model, key),
        );
        OnboardingModel {
            stage: OnboardingStage::Channel,
            file: Some(out),
            write: Some(out),
            lines: seq![
                LineModel::Printed(
                    "model configured: provider="@ + self.provider + " model="@ + self.model,
                ),
            ],
            ..self
        }
    }

    /// The end, with lines and an exit code.
    pub open spec fn ended(self, code: int, lines: Seq<LineModel>) -> OnboardingModel {
        OnboardingModel { stage: OnboardingStage::Over, lines, code, ..self }
    }

    /// Onboarding after an answer.
    pub open spec fn after(self, typed: Seq<char>) -> OnboardingModel {
        let value = answer_or(self.default(), typed);
        let at = OnboardingModel { write: None, lines: seq![], ..self };
        match self.stage {
            OnboardingStage::Provider => OnboardingModel {
                provider: value,
                stage: OnboardingStage::Url,
                ..at
            },
            OnboardingStage::Url => OnboardingModel {
                url: value,
                stage: OnboardingStage::Model,
                ..at
            },
            OnboardingStage::Model => {
                let named = OnboardingModel { model: value, ..at };
                let p = chars::trim(self.provider);
                if p == "deepseek"@ || p == "openai"@ {
                    OnboardingModel { stage: OnboardingStage::Key, ..named }
                } else {
                    named.model_configured(
                        match self.current {
                            Some(c) => c.api_key,
                            None => None,
                        },
                    )
                }
            },
            OnboardingStage::Key => at.model_configured(
                if chars::trim(value).len() == 0 {
                    None
                } else {
                    Some(chars::trim(value))
                },
            ),
            OnboardingStage::Channel => {
                let v = chars::lower(chars::trim(value));
                if v == ""@ || v == "none"@ || v == "local"@ || v == "cli"@ {
                    at.ended(0, seq![LineModel::Printed("channel configured: local CLI only"@)])
                } else if v == "telegram"@ {
                    OnboardingModel { stage: OnboardingStage::Token, ..at }
                } else {
                    at.ended(
                        2,
                        seq![
                            LineModel::Complaint("unknown channel: "@ + v),
                            LineModel::Complaint("supported channels: none, telegram"@),
                        ],
                    )
                }
            },
            OnboardingStage::Token => OnboardingModel {
                token: value,
                stage: OnboardingStage::Chats,
                ..at
            },
            OnboardingStage::Chats => {
                let token = chars::trim(self.token);
                let chats = json::number_list(value);
                if token.len() == 0 || chats == Set::<i64>::empty() {
                    at.ended(
                        0,
                        seq![
                            LineModel::Complaint(
                                "telegram setup skipped: token and at least one numeric chat id are required"@,
                            ),
                        ],
                    )
                } else {
                    let out = rendered(
                        FileModel {
                            telegram: Some(TelegramModel { token, allowed_chats: chats }),
                            ..config_in(self.file)
                        },
                    );
                    OnboardingModel {
                        file: Some(out),
                        write: Some(out),
                        ..at.ended(
                            0,
                            seq![
                                LineModel::Printed(
                                    "telegram configured: token="@ + masked(token) + " chats="@
                                        + chats_text(chats),
                                ),
                            ],
                        )
                    }
                }
            },
            OnboardingStage::Over => at,
        }
    }
}

impl Onboarding {
    /// Starts onboarding with the configuration as it stands.
    pub fn start(file: Option<&str>) -> (r: Self)
        ensures
            r@ == (OnboardingModel {
                stage: OnboardingStage::Provider,
                file: opt_str(file),
                current: config_in(opt_str(file)).primary_agent,
                provider: seq![],
                url: seq![],
                model: seq![],
                token: seq![],
                write: None,
                lines: seq![],
                code: 0,
            }),
    {
        let c = config::read_file_config(file);
        let r = Onboarding {
            stage: OnboardingStage::Provider,
            file: match file {
                Some(s) => Some(s.to_owned()),
                None => None,
            },
            current: c.primary_agent,
            provider: String::new(),
            url: String::new(),
            model: String::new(),
            token: String::new(),
            write: None,
            lines: no_lines(),
            code: 0,
        };
        assert(r@.provider =~= seq![]);
        assert(r@.url =~= seq![]);
        assert(r@.model =~= seq![]);
        assert(r@.token =~= seq![]);
        assert(r@.lines =~= seq![]);
        r
    }

    fn file_text(&self) -> (r: Option<&str>)
        ensures
            opt_str(r) == self@.file,
    {
        match &self.file {
            Some(s) => Some(s.as_str()),
            None => None,
        }
    }

    /// The label of the question that is to be asked.
    pub fn label(&self) -> (r: &'static str)
        ensures
            r@ == self@.label(),
    {
        match self.stage {
            OnboardingStage::Provider => "model provider (llamacpp/deepseek)",
            OnboardingStage::Url => "model url",
            OnboardingStage::Model => "model name",
            OnboardingStage::Key => "api key",
            OnboardingStage::Channel => "channel (none/telegram)",
            OnboardingStage::Token => "telegram bot token",
            OnboardingStage::Chats => "telegram chat ids",
            OnboardingStage::Over => "",
        }
    }

    /// The default of the question that is to be asked.
    pub fn default_answer(&self) -> (r: String)
        ensures
            r@ == self@.default(),
    {
        let deepseek = text::same(text::trim(self.provider.as_str()), "deepseek");
        match self.stage {
            OnboardingStage::Provider => match &self.current {
                Some(c) => c.provider.clone(),
                None => "llamacpp".to_owned(),
            },
            OnboardingStage::Url => match &self.current {
                Some(c) => c.url.clone(),
                None => if deepseek {
                    "https://api.deepseek.com/v1".to_owned()
                } else {
                    "http://127.0.0.1:8080/v1".to_owned()
                },
            },
            OnboardingStage::Model => match &self.current {
                Some(c) => c.model.clone(),
                None => if deepseek {
                    "deepseek-chat".to_owned()
                } else {
                    "local-model".to_owned()
                },
            },
            OnboardingStage::Key => match &self.current {
                Some(c) => match &c.api_key {
                    Some(k) => k.clone(),
                    None => "".to_owned(),
                },
                None => "".to_owned(),
            },
            OnboardingStage::Channel => "none".to_owned(),
            OnboardingStage::Token => match config::read_file_config(self.file_text()).telegram {
                Some(t) => t.token,
                None => "".to_owned(),
            },
            OnboardingStage::Chats => match config::read_file_config(self.file_text()).telegram {
                Some(t) => join_chat_ids(&t.allowed_chats),
                None => "".to_owned(),
            },
            OnboardingStage::Over => "".to_owned(),
        }
    }

    fn configure_model(&mut self, key: Option<String>)
        requires
            old(self)@.write is None,
            old(self)@.lines.len() == 0,
        ensures
            final(self)@ == old(self)@.model_configured(chars::opt_text(key)),
    {
        let ghost pre = self@;
        let key_text = match &key {
            Some(k) => Some(k.as_str()),
            None => None,
        };
        let out = config::write_primary_config(
            self.file_text(),
            self.provider.as_str(),
            self.url.as_str(),
            self.model.as_str(),
            key_text,
        );
        let mut line = "model configured: provider=".to_owned();
        line.append(self.provider.as_str());
        line.append(" model=");
        line.append(self.model.as_str());
        let ghost x = line@;
        say(&mut self.lines, line);
        assert(self@.lines =~= seq![LineModel::Printed(x)]);
        self.file = Some(out.clone());
        self.write = Some(out);
        self.stage = OnboardingStage::Channel;
    }

    /// Takes up an answer as it was typed.
    pub fn answer(&mut self, typed: &str)
        ensures
            final(self)@ == old(self)@.after(typed@),
    {
        let value = answer_to(self.default_answer().as_str(), typed);
        self.write = None;
        self.lines = no_lines();
        assert(self@.lines =~= seq![]);
        match self.stage {
            OnboardingStage::Provider => {
                self.provider = value;
                self.stage = OnboardingStage::Url;
            },
            OnboardingStage::Url => {
                self.url = value;
                self.stage = OnboardingStage::Model;
            },
            OnboardingStage::Model => {
                self.model = value;
                let p = text::trim(self.provider.as_str());
                if text::same(p, "deepseek") || text::same(p, "openai") {
                    self.stage = OnboardingStage::Key;
                } else {
                    let key = match &self.current {
                        Some(c) => text::copy_opt(&c.api_key),
                        None => None,
                    };
                    self.configure_model(key);
                }
            },
            OnboardingStage::Key => {
                let k = text::trim(value.as_str());
                let key = if k.unicode_len() == 0 {
                    None
                } else {
                    Some(k.to_owned())
                };
                self.configure_model(key);
            },
            OnboardingStage::Channel => {
                let v = text::lower(text::trim(value.as_str()));
                let w = v.as_str();
                if text::same(w, "") || text::same(w, "none") || text::same(w, "local")
                    || text::same(w, "cli") {
                    say(&mut self.lines, "channel configured: local CLI only".to_owned());
                    assert(self@.lines =~= seq![
                        LineModel::Printed("channel configured: local CLI only"@),
                    ]);
                    self.code = 0;
                    self.stage = OnboardingStage::Over;
                } else if text::same(w, "telegram") {
                    self.stage = OnboardingStage::Token;
                } else {
                    complain(&mut self.lines, pair("unknown channel: ", w));
                    complain(&mut self.lines, "supported channels: none, telegram".to_owned());
                    assert(self@.lines =~= seq![
                        LineModel::Complaint("unknown channel: "@ + v@),
                        LineModel::Complaint("supported channels: none, telegram"@),
                    ]);
                    self.code = 2;
                    self.stage = OnboardingStage::Over;
                }
            },
            OnboardingStage::Token => {
                self.token = value;
                self.stage = OnboardingStage::Chats;
            },
            OnboardingStage::Chats => {
                let parsed = json::parse_number_list(value.as_str());
                proof {
                    broadcast use vstd::std_specs::btree::group_btree_axioms;

                    json::lemma_numbers_finite(
                        chars::pieces(value@, CharSet::Only(',')),
                    );
                    if parsed@.len() == 0 {
                        assert(parsed@ =~= Set::<i64>::empty());
                    }
                }
                let token = text::trim(self.token.as_str()).to_owned();
                if token.as_str().unicode_len() == 0 || parsed.is_empty() {
                    complain(
                        &mut self.lines,
                        "telegram setup skipped: token and at least one numeric chat id are required".to_owned(),
                    );
                    assert(self@.lines =~= seq![
                        LineModel::Complaint(
                            "telegram setup skipped: token and at least one numeric chat id are required"@,
                        ),
                    ]);
                    self.code = 0;
                    self.stage = OnboardingStage::Over;
                } else {
                    let mut line = "telegram configured: token=".to_owned();
                    line.append(mask_token(token.as_str()).as_str());
                    line.append(" chats=");
                    line.append(join_chat_ids(&parsed).as_str());
                    let ghost x = line@;
                    let out = config::write_telegram_config(
                        self.file_text(),
                        token.as_str(),
                        parsed,
                    );
                    say(&mut self.lines, line);
                    assert(self@.lines =~= seq![LineModel::Printed(x)]);
                    self.file = Some(out.clone());
                    self.write = Some(out);
                    self.code = 0;
                    self.stage = OnboardingStage::Over;
                }
            },
            OnboardingStage::Over => {},
        }
    }
}

}
