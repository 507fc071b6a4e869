//! The commands that show and change the configuration.

use vstd::prelude::*;

use crate::adjustments;
use crate::adjustments::{
    applied, applied_text, dropped, kept_directive, proposal_models, proposal_named, proposals_in,
    ProposalModel,
};
use crate::chars;
use crate::cli::{
    chats_text, complain, join_chat_ids, line_models, mask_token, masked, no_lines, pair,
    proposal_line, proposal_summary, say, CommandReply, LineModel, ReplyModel,
};
use crate::config;
use crate::config::{
    config_in, given, opt_str, rendered, routed, with_advisor_agent, with_primary, AdvisorConfig,
    AdvisorModel, FileModel, LlmConfig, LlmModel, TelegramModel,
};
use crate::json;
use crate::numbers;
use crate::prompts::{PromptStore, StoreModel};
use crate::text;
use crate::types::{AdvisorMode, AgentChoice, MessageClass};

verus! {

// ---------------------------------------------------------------------------
// Options of a model
// ---------------------------------------------------------------------------

/// A model's settings as they are collected from options.
#[derive(Debug)]
pub struct ModelOptions {
    pub provider: String,
    pub url: String,
    pub model: String,
    pub api_key: Option<String>,
    pub clear_key: bool,
}

/// The contents of collected settings.
pub ghost struct OptionsModel {
    pub provider: Seq<char>,
    pub url: Seq<char>,
    pub model: Seq<char>,
    pub api_key: Option<Seq<char>>,
    pub clear_key: bool,
}

impl View for ModelOptions {
    type V = OptionsModel;

    open spec fn view(&self) -> OptionsModel {
        OptionsModel {
            provider: self.provider@,
            url: self.url@,
            model: self.model@,
            api_key: chars::opt_text(self.api_key),
            clear_key: self.clear_key,
        }
    }
}

impl OptionsModel {
    /// The key that is set in the end.
    pub open spec fn key(self) -> Option<Seq<char>> {
        if self.clear_key {
            None
        } else {
            self.api_key
        }
    }
}

/// How reading options ended.
#[derive(Debug)]
pub enum OptionsEnd {
    Parsed(ModelOptions),
    /// An option stands last, without its value.
    Missing(String),
    Unknown(String),
    Help,
}

/// How reading options ended, by its texts.
pub ghost enum OptionsEndModel {
    Parsed(OptionsModel),
    Missing(Seq<char>),
    Unknown(Seq<char>),
    Help,
}

impl View for OptionsEnd {
    type V = OptionsEndModel;

    open spec fn view(&self) -> OptionsEndModel {
        match self {
            OptionsEnd::Parsed(o) => OptionsEndModel::Parsed(o@),
            OptionsEnd::Missing(f) => OptionsEndModel::Missing(f@),
            OptionsEnd::Unknown(a) => OptionsEndModel::Unknown(a@),
            OptionsEnd::Help => OptionsEndModel::Help,
        }
    }
}

/// An option that takes a value.
pub open spec fn takes_value(a: Seq<char>) -> bool {
    a == "--provider"@ || a == "--url"@ || a == "--model"@ || a == "--api-key"@
}

/// The settings with one more option. An empty key takes the key away.
pub open spec fn with_option(o: OptionsModel, a: Seq<char>, v: Seq<char>) -> OptionsModel {
    if a == "--provider"@ {
        OptionsModel { provider: v, ..o }
    } else if a == "--url"@ {
        OptionsModel { url: v, ..o }
    } else if a == "--model"@ {
        OptionsModel { model: v, ..o }
    } else if v.len() == 0 {
        OptionsModel { clear_key: true, ..o }
    } else {
        OptionsModel { api_key: Some(v), ..o }
    }
}

/// The settings that the arguments from number `i` on leave.
pub open spec fn options_from(
    args: Seq<Seq<char>>,
    i: int,
    help: bool,
    o: OptionsModel,
) -> OptionsEndModel
    decreases args.len() - i,
{
    if i < 0 || i >= args.len() {
        OptionsEndModel::Parsed(o)
    } else if takes_value(args[i]) {
        if i + 1 >= args.len() {
            OptionsEndModel::Missing(args[i])
        } else {
            options_from(args, i + 2, help, with_option(o, args[i], args[i + 1]))
        }
    } else if help && (args[i] == "--help"@ || args[i] == "-h"@) {
        OptionsEndModel::Help
    } else {
        OptionsEndModel::Unknown(args[i])
    }
}

fn read_options(args: &Vec<String>, from: usize, help: bool, start: ModelOptions) -> (r:
    OptionsEnd)
    requires
        from <= args@.len(),
    ensures
        r@ == options_from(chars::owned_texts(args@), from as int, help, start@),
{
    let ghost all = chars::owned_texts(args@);
    let mut o = start;
    let mut i: usize = from;
    while i < args.len()
        invariant
            i <= args.len(),
            all == chars::owned_texts(args@),
            options_from(all, from as int, help, start@) == options_from(all, i as int, help, o@),
        decreases args.len() - i,
    {
        let a = args[i].as_str();
        assert(all[i as int] == a@);
        if text::same(a, "--provider") || text::same(a, "--url") || text::same(a, "--model")
            || text::same(a, "--api-key") {
            if i + 1 >= args.len() {
                return OptionsEnd::Missing(a.to_owned());
            }
            let v = args[i + 1].clone();
            assert(all[i + 1] == v@);
            if text::same(a, "--provider") {
                o.provider = v;
            } else if text::same(a, "--url") {
                o.url = v;
            } else if text::same(a, "--model") {
                o.model = v;
            } else if v.as_str().unicode_len() == 0 {
                o.clear_key = true;
            } else {
                o.api_key = Some(v);
            }
            i += 2;
        } else if help && (text::same(a, "--help") || text::same(a, "-h")) {
            return OptionsEnd::Help;
        } else {
            return OptionsEnd::Unknown(a.to_owned());
        }
    }
    OptionsEnd::Parsed(o)
}

/// The settings before the options: the current ones, else defaults.
pub open spec fn options_start(
    current: Option<LlmModel>,
    provider: Seq<char>,
    url: Seq<char>,
    model: Seq<char>,
) -> OptionsModel {
    match current {
        Some(c) => OptionsModel {
            provider: c.provider,
            url: c.url,
            model: c.model,
            api_key: c.api_key,
            clear_key: false,
        },
        None => OptionsModel { provider, url, model, api_key: None, clear_key: false },
    }
}

fn start_options(current: Option<&LlmConfig>, provider: &str, url: &str, model: &str) -> (r:
    ModelOptions)
    ensures
        r@ == options_start(
            match current {
                Some(c) => Some(c@),
                None => None,
            },
            provider@,
            url@,
            model@,
        ),
{
    match current {
        Some(c) => ModelOptions {
            provider: c.provider.clone(),
            url: c.url.clone(),
            model: c.model.clone(),
            api_key: text::copy_opt(&c.api_key),
            clear_key: false,
        },
        None => ModelOptions {
            provider: provider.to_owned(),
            url: url.to_owned(),
            model: model.to_owned(),
            api_key: None,
            clear_key: false,
        },
    }
}

/// The lines that confirm a model's settings.
pub open spec fn confirmed(prefix: Seq<char>, o: OptionsModel) -> Seq<LineModel> {
    let three = seq![
        LineModel::Printed(prefix + "provider="@ + o.provider),
        LineModel::Printed(prefix + "url="@ + o.url),
        LineModel::Printed(prefix + "model="@ + o.model),
    ];
    if o.key() is Some {
        three.push(LineModel::Printed(prefix + "api_key=<set>"@))
    } else {
        three
    }
}

fn labelled(prefix: &str, name: &str, value: &str) -> (r: String)
    ensures
        r@ == prefix@ + name@ + value@,
{
    let mut out = prefix.to_owned();
    out.append(name);
    out.append(value);
    out
}

fn confirm_options(prefix: &str, o: &ModelOptions) -> (r: Vec<crate::cli::Line>)
    ensures
        line_models(r@) == confirmed(prefix@, o@),
{
    let mut lines = no_lines();
    say(&mut lines, labelled(prefix, "provider=", o.provider.as_str()));
    say(&mut lines, labelled(prefix, "url=", o.url.as_str()));
    say(&mut lines, labelled(prefix, "model=", o.model.as_str()));
    if !o.clear_key && o.api_key.is_some() {
        say(&mut lines, pair(prefix, "api_key=<set>"));
    }
    assert(line_models(lines@) =~= confirmed(prefix@, o@));
    lines
}

fn final_key(o: &ModelOptions) -> (r: Option<&str>)
    ensures
        opt_str(r) == o@.key(),
{
    if o.clear_key {
        None
    } else {
        match &o.api_key {
            Some(k) => Some(k.as_str()),
            None => None,
        }
    }
}

/// The help of `config set`.
pub const CONFIG_SET_HELP: &'static str =
    "usage: minipaw config set [--provider p] [--url u] [--model m] [--api-key k]
Updates model config in minipaw.json; unspecified fields keep their current values.
Use --api-key \"\" to remove the api key.";

/// What `config set` does with the configuration file.
pub open spec fn config_set_reply(file: Option<Seq<char>>, args: Seq<Seq<char>>) -> ReplyModel {
    let start = options_start(
        config_in(file).primary_agent,
        "llamacpp"@,
        "http://127.0.0.1:8080/v1"@,
        "local-model"@,
    );
    match options_from(args, 1, true, start) {
        OptionsEndModel::Missing(flag) => ReplyModel::fails(flag + " requires a value"@),
        OptionsEndModel::Unknown(a) => ReplyModel::fails("unknown config set option: "@ + a),
        OptionsEndModel::Help => ReplyModel::says(
            0,
            seq![LineModel::Complaint(CONFIG_SET_HELP@)],
        ),
        OptionsEndModel::Parsed(o) => ReplyModel {
            code: 0,
            lines: confirmed(""@, o),
            file: Some(
                rendered(with_primary(config_in(file), o.provider, o.url, o.model, o.key())),
            ),
            write_failure: None,
        },
    }
}

/// `config set`: changes the primary model. The first argument is the command.
pub fn config_set(file: Option<&str>, args: &Vec<String>) -> (r: CommandReply)
    requires
        args@.len() > 0,
    ensures
        r@ == config_set_reply(opt_str(file), chars::owned_texts(args@)),
{
    let current = config::read_file_config(file);
    let start = start_options(
        current.primary_agent.as_ref(),
        "llamacpp",
        "http://127.0.0.1:8080/v1",
        "local-model",
    );
    match read_options(args, 1, true, start) {
        OptionsEnd::Missing(flag) => CommandReply::fails(pair(flag.as_str(), " requires a value")),
        OptionsEnd::Unknown(a) => CommandReply::fails(
            pair("unknown config set option: ", a.as_str()),
        ),
        OptionsEnd::Help => {
            let mut lines = no_lines();
            complain(&mut lines, CONFIG_SET_HELP.to_owned());
            assert(line_models(lines@) =~= seq![LineModel::Complaint(CONFIG_SET_HELP@)]);
            CommandReply::says(0, lines)
        },
        OptionsEnd::Parsed(o) => {
            let out = config::write_primary_config(
                file,
                o.provider.as_str(),
                o.url.as_str(),
                o.model.as_str(),
                final_key(&o),
            );
            CommandReply {
                code: 0,
                lines: confirm_options("", &o),
                file: Some(out),
                write_failure: None,
            }
        },
    }
}

/// What `config advisor set` does with the configuration file.
pub open spec fn advisor_set_reply(file: Option<Seq<char>>, args: Seq<Seq<char>>) -> ReplyModel {
    let start = options_start(
        match config_in(file).advisor {
            Some(a) => Some(a.agent),
            None => None,
        },
        "deepseek"@,
        "https://api.deepseek.com/v1"@,
        "deepseek-chat"@,
    );
    match options_from(args, 1, false, start) {
        OptionsEndModel::Missing(flag) => ReplyModel::fails(flag + " requires a value"@),
        OptionsEndModel::Unknown(a) => ReplyModel::fails("unknown advisor set option: "@ + a),
        OptionsEndModel::Help => ReplyModel::fails(""@),
        OptionsEndModel::Parsed(o) => ReplyModel {
            code: 0,
            lines: confirmed("advisor."@, o),
            file: Some(
                rendered(
                    with_advisor_agent(config_in(file), o.provider, o.url, o.model, o.key()),
                ),
            ),
            write_failure: None,
        },
    }
}

/// `config advisor set`: changes the advisor's model. The first argument is the
/// command.
pub fn config_advisor_set(file: Option<&str>, args: &Vec<String>) -> (r: CommandReply)
    requires
        args@.len() > 0,
    ensures
        r@ == advisor_set_reply(opt_str(file), chars::owned_texts(args@)),
{
    let current = config::read_file_config(file);
    let agent = match &current.advisor {
        Some(a) => Some(&a.agent),
        None => None,
    };
    let start = start_options(
        agent,
        "deepseek",
        "https://api.deepseek.com/v1",
        "deepseek-chat",
    );
    match read_options(args, 1, false, start) {
        OptionsEnd::Missing(flag) => CommandReply::fails(pair(flag.as_str(), " requires a value")),
        OptionsEnd::Unknown(a) => CommandReply::fails(
            pair("unknown advisor set option: ", a.as_str()),
        ),
        OptionsEnd::Help => CommandReply::fails("".to_owned()),
        OptionsEnd::Parsed(o) => {
            let out = config::write_advisor_agent(
                file,
                o.provider.as_str(),
                o.url.as_str(),
                o.model.as_str(),
                final_key(&o),
            );
            CommandReply {
                code: 0,
                lines: confirm_options("advisor.", &o),
                file: Some(out),
                write_failure: None,
            }
        },
    }
}

// ---------------------------------------------------------------------------
// Showing
// ---------------------------------------------------------------------------

/// The lines that show a model's settings. A key is never shown.
pub open spec fn llm_lines(prefix: Seq<char>, llm: LlmModel) -> Seq<LineModel> {
    let three = seq![
        LineModel::Printed(prefix + "provider="@ + llm.provider),
        LineModel::Printed(prefix + "url="@ + llm.url),
        LineModel::Printed(prefix + "model="@ + llm.model),
    ];
    if given(llm.api_key) is Some {
        three.push(LineModel::Printed(prefix + "api_key=<set>"@))
    } else {
        three
    }
}

/// The line that shows a class's rule.
pub open spec fn routing_line(a: AdvisorModel, class: MessageClass) -> LineModel {
    LineModel::Printed(
        "advisor.routing."@ + class.name() + "="@ + routed(a.routing.rule(class)).name(),
    )
}

/// The lines that show the advisor's settings.
pub open spec fn advisor_lines(a: AdvisorModel) -> Seq<LineModel> {
    llm_lines("advisor."@, a.agent) + seq![
        LineModel::Printed("advisor.mode="@ + a.mode.name()),
        routing_line(a, MessageClass::MiniHow),
        routing_line(a, MessageClass::MiniWhy),
        routing_line(a, MessageClass::MiniWhat),
    ]
}

/// The lines that show the Telegram settings. The secret of the token is masked.
pub open spec fn telegram_lines(prefix: Seq<char>, t: TelegramModel) -> Seq<LineModel> {
    seq![
        LineModel::Printed(prefix + "token="@ + masked(t.token)),
        LineModel::Printed(prefix + "chats="@ + chats_text(t.allowed_chats)),
    ]
}

/// What `config show` prints.
pub open spec fn show_lines(c: FileModel) -> Seq<LineModel> {
    (match c.primary_agent {
        Some(llm) => llm_lines(""@, llm),
        None => seq![LineModel::Printed("model: not configured"@)],
    }) + (match c.advisor {
        Some(a) => advisor_lines(a),
        None => seq![],
    }) + (match c.telegram {
        Some(t) => telegram_lines("telegram."@, t),
        None => seq![],
    })
}

fn push_llm(lines: &mut Vec<crate::cli::Line>, prefix: &str, llm: &LlmConfig)
    ensures
        line_models(final(lines)@) == line_models(old(lines)@) + llm_lines(prefix@, llm@),
{
    let ghost before = line_models(lines@);
    say(lines, labelled(prefix, "provider=", llm.provider.as_str()));
    say(lines, labelled(prefix, "url=", llm.url.as_str()));
    say(lines, labelled(prefix, "model=", llm.model.as_str()));
    let has_key = match &llm.api_key {
        Some(k) => k.as_str().unicode_len() > 0,
        None => false,
    };
    if has_key {
        say(lines, pair(prefix, "api_key=<set>"));
    }
    assert(line_models(lines@) =~= before + llm_lines(prefix@, llm@));
}

fn show_routing(a: &AdvisorConfig, class: MessageClass) -> (r: String)
    ensures
        LineModel::Printed(r@) == routing_line(a@, class),
{
    let mut out = "advisor.routing.".to_owned();
    out.append(class.label());
    out.append("=");
    out.append(a.route_for(class).label());
    out
}

fn push_advisor(lines: &mut Vec<crate::cli::Line>, a: &AdvisorConfig)
    ensures
        line_models(final(lines)@) == line_models(old(lines)@) + advisor_lines(a@),
{
    let ghost before = line_models(lines@);
    push_llm(lines, "advisor.", &a.agent);
    say(lines, pair("advisor.mode=", a.mode.label()));
    say(lines, show_routing(a, MessageClass::MiniHow));
    say(lines, show_routing(a, MessageClass::MiniWhy));
    say(lines, show_routing(a, MessageClass::MiniWhat));
    assert(line_models(lines@) =~= before + advisor_lines(a@));
}

fn push_telegram(
    lines: &mut Vec<crate::cli::Line>,
    prefix: &str,
    t: &config::TelegramBotConfig,
)
    ensures
        line_models(final(lines)@) == line_models(old(lines)@) + telegram_lines(prefix@, t@),
{
    let ghost before = line_models(lines@);
    say(lines, labelled(prefix, "token=", mask_token(t.token.as_str()).as_str()));
    say(lines, labelled(prefix, "chats=", join_chat_ids(&t.allowed_chats).as_str()));
    assert(line_models(lines@) =~= before + telegram_lines(prefix@, t@));
}

/// `config show`.
pub fn config_show(file: Option<&str>) -> (r: CommandReply)
    ensures
        r@ == ReplyModel::says(0, show_lines(config_in(opt_str(file)))),
{
    let c = config::read_file_config(file);
    let mut lines = no_lines();
    match &c.primary_agent {
        Some(llm) => {
            push_llm(&mut lines, "", llm);
        },
        None => {
            say(&mut lines, "model: not configured".to_owned());
        },
    }
    match &c.advisor {
        Some(a) => {
            push_advisor(&mut lines, a);
        },
        None => {},
    }
    match &c.telegram {
        Some(t) => {
            push_telegram(&mut lines, "telegram.", t);
        },
        None => {},
    }
    assert(line_models(lines@) =~= show_lines(c@));
    CommandReply::says(0, lines)
}

/// `config advisor show`.
pub fn config_advisor_show(file: Option<&str>) -> (r: CommandReply)
    ensures
        r@ == ReplyModel::says(
            0,
            match config_in(opt_str(file)).advisor {
                Some(a) => advisor_lines(a),
                None => seq![LineModel::Printed("advisor: not configured"@)],
            },
        ),
{
    let c = config::read_file_config(file);
    let mut lines = no_lines();
    match &c.advisor {
        Some(a) => {
            push_advisor(&mut lines, a);
            assert(line_models(lines@) =~= advisor_lines(a@));
        },
        None => {
            say(&mut lines, "advisor: not configured".to_owned());
            assert(line_models(lines@) =~= seq![
                LineModel::Printed("advisor: not configured"@),
            ]);
        },
    }
    CommandReply::says(0, lines)
}

// ---------------------------------------------------------------------------
// The advisor
// ---------------------------------------------------------------------------

/// One line of output.
pub open spec fn one(t: Seq<char>) -> Seq<LineModel> {
    seq![LineModel::Printed(t)]
}

fn one_line(t: String) -> (r: Vec<crate::cli::Line>)
    ensures
        line_models(r@) == one(t@),
{
    let ghost x = t@;
    let mut lines = no_lines();
    say(&mut lines, t);
    assert(line_models(lines@) =~= one(x));
    lines
}

/// What `config advisor mode` does with the configuration file.
pub open spec fn advisor_mode_reply(file: Option<Seq<char>>, args: Seq<Seq<char>>) -> ReplyModel {
    if args.len() < 2 {
        ReplyModel::fails("usage: minipaw config advisor mode <training|trial|working>"@)
    } else {
        match AdvisorMode::named(args[1]) {
            None => ReplyModel::fails(
                "unknown advisor mode: "@ + args[1] + " (expected training|trial|working)"@,
            ),
            Some(mode) => match config_in(file).advisor {
                Some(a) => ReplyModel {
                    code: 0,
                    lines: one("advisor.mode="@ + mode.name()),
                    file: Some(
                        rendered(
                            FileModel {
                                advisor: Some(AdvisorModel { mode, ..a }),
                                ..config_in(file)
                            },
                        ),
                    ),
                    write_failure: Some("advisor mode update failed: "@),
                },
                None => ReplyModel::fails(
                    "advisor mode update failed: "@ + "advisor agent is not configured"@,
                ),
            },
        }
    }
}

/// `config advisor mode`. The first argument is the command.
pub fn config_advisor_mode(file: Option<&str>, args: &Vec<String>) -> (r: CommandReply)
    ensures
        r@ == advisor_mode_reply(opt_str(file), chars::owned_texts(args@)),
{
    if args.len() < 2 {
        return CommandReply::fails(
            "usage: minipaw config advisor mode <training|trial|working>".to_owned(),
        );
    }
    assert(chars::owned_texts(args@)[1] == args@[1]@);
    let raw = args[1].as_str();
    let mode = match AdvisorMode::parse(raw) {
        Some(mode) => mode,
        None => {
            let mut e = "unknown advisor mode: ".to_owned();
            e.append(raw);
            e.append(" (expected training|trial|working)");
            return CommandReply::fails(e);
        },
    };
    match config::write_advisor_mode(file, mode) {
        Ok(out) => CommandReply {
            code: 0,
            lines: one_line(pair("advisor.mode=", mode.label())),
            file: Some(out),
            write_failure: Some("advisor mode update failed: ".to_owned()),
        },
        Err(e) => CommandReply::fails(pair("advisor mode update failed: ", e.as_str())),
    }
}

/// What `config advisor route` does with the configuration file.
pub open spec fn advisor_route_reply(
    file: Option<Seq<char>>,
    args: Seq<Seq<char>>,
) -> ReplyModel {
    if args.len() < 3 {
        ReplyModel::fails(
            "usage: minipaw config advisor route <minihow|miniwhy|miniwhat> <primary|advisor>"@,
        )
    } else {
        match MessageClass::named(args[1]) {
            None => ReplyModel::fails("unknown message class: "@ + args[1]),
            Some(class) => match AgentChoice::named(args[2]) {
                None => ReplyModel::fails("unknown agent choice: "@ + args[2]),
                Some(choice) => match config_in(file).advisor {
                    Some(a) => ReplyModel {
                        code: 0,
                        lines: one(
                            "advisor.routing."@ + class.name() + "="@ + choice.name(),
                        ),
                        file: Some(
                            rendered(
                                FileModel {
                                    advisor: Some(
                                        AdvisorModel {
                                            routing: a.routing.with(class, Some(choice)),
                                            ..a
                                        },
                                    ),
                                    ..config_in(file)
                                },
                            ),
                        ),
                        write_failure: Some("advisor route update failed: "@),
                    },
                    None => ReplyModel::fails(
                        "advisor route update failed: "@ + "advisor agent is not configured"@,
                    ),
                },
            },
        }
    }
}

/// `config advisor route`. The first argument is the command.
pub fn config_advisor_route(file: Option<&str>, args: &Vec<String>) -> (r: CommandReply)
    ensures
        r@ == advisor_route_reply(opt_str(file), chars::owned_texts(args@)),
{
    if args.len() < 3 {
        return CommandReply::fails(
            "usage: minipaw config advisor route <minihow|miniwhy|miniwhat> <primary|advisor>".to_owned(),
        );
    }
    assert(chars::owned_texts(args@)[1] == args@[1]@);
    assert(chars::owned_texts(args@)[2] == args@[2]@);
    let class = match MessageClass::parse(args[1].as_str()) {
        Some(class) => class,
        None => {
            return CommandReply::fails(pair("unknown message class: ", args[1].as_str()));
        },
    };
    let choice = match AgentChoice::parse(args[2].as_str()) {
        Some(choice) => choice,
        None => {
            return CommandReply::fails(pair("unknown agent choice: ", args[2].as_str()));
        },
    };
    match config::write_advisor_route(file, class, choice) {
        Ok(out) => {
            let mut line = "advisor.routing.".to_owned();
            line.append(class.label());
            line.append("=");
            line.append(choice.label());
            CommandReply {
                code: 0,
                lines: one_line(line),
                file: Some(out),
                write_failure: Some("advisor route update failed: ".to_owned()),
            }
        },
        Err(e) => CommandReply::fails(pair("advisor route update failed: ", e.as_str())),
    }
}

/// `config advisor clear`.
pub fn config_advisor_clear(file: Option<&str>) -> (r: CommandReply)
    ensures
        r@ == (ReplyModel {
            code: 0,
            lines: one("advisor cleared"@),
            file: Some(rendered(FileModel { advisor: None, ..config_in(opt_str(file)) })),
            write_failure: None,
        }),
{
    CommandReply {
        code: 0,
        lines: one_line("advisor cleared".to_owned()),
        file: Some(config::clear_advisor(file)),
        write_failure: None,
    }
}

// ---------------------------------------------------------------------------
// Proposals
// ---------------------------------------------------------------------------

/// The line of a proposal in the list.
pub open spec fn listed_proposal(p: ProposalModel) -> LineModel {
    LineModel::Printed(p.id + " kind="@ + p.kind + " "@ + proposal_line(p))
}

/// The lines that show a proposal.
pub open spec fn shown_proposal(p: ProposalModel) -> Seq<LineModel> {
    seq![LineModel::Printed("id: "@ + p.id), LineModel::Printed("kind: "@ + p.kind)] + (
    match p.class {
        Some(class) => one("class: "@ + class.name()),
        None => seq![],
    }) + (match p.task_id {
        Some(id) => one("task: "@ + id.name()),
        None => seq![],
    }) + seq![
        LineModel::Printed("created_at: "@ + numbers::decimal(p.created_at as nat)),
        LineModel::Printed("---"@),
        LineModel::Printed(p.body),
    ]
}

/// What `config advisor proposals` does: the workspace after it, and the reply.
pub open spec fn proposals_reply(
    store: StoreModel,
    args: Seq<Seq<char>>,
) -> (StoreModel, ReplyModel) {
    let word = if args.len() < 2 {
        "list"@
    } else {
        args[1]
    };
    if word == "list"@ {
        let list = proposals_in(store.workspace, store.proposals);
        (
            store,
            ReplyModel::says(
                0,
                if list.len() == 0 {
                    one("no advisor proposals pending"@)
                } else {
                    list.map_values(|p: ProposalModel| listed_proposal(p))
                },
            ),
        )
    } else if word == "show"@ || word == "apply"@ || word == "reject"@ {
        if args.len() < 3 {
            (
                store,
                ReplyModel::fails(
                    "usage: minipaw config advisor proposals "@ + word + " <id>"@,
                ),
            )
        } else {
            match proposal_named(store, args[2]) {
                None => (store, ReplyModel::fails("proposal not found: "@ + args[2])),
                Some(p) => if word == "show"@ {
                    (store, ReplyModel::says(0, shown_proposal(p)))
                } else if word == "apply"@ {
                    match kept_directive(store, p) {
                        Some(d) => (
                            dropped(applied(store, d, None), p),
                            ReplyModel::says(
                                0,
                                one(
                                    "applied "@ + args[2] + ": "@ + applied_text(store, d, None),
                                ),
                            ),
                        ),
                        None => (
                            store,
                            ReplyModel::fails(
                                "apply failed: "@ + ("proposal "@ + p.id + " is malformed"@),
                            ),
                        ),
                    }
                } else {
                    (dropped(store, p), ReplyModel::says(0, one("rejected "@ + args[2])))
                },
            }
        }
    } else {
        (store, ReplyModel::fails("unknown proposals subcommand: "@ + word))
    }
}

fn list_lines(list: &Vec<adjustments::ProposalEntry>) -> (r: Vec<crate::cli::Line>)
    ensures
        line_models(r@) == proposal_models(list@).map_values(
            |p: ProposalModel| listed_proposal(p),
        ),
{
    let ghost want = proposal_models(list@).map_values(|p: ProposalModel| listed_proposal(p));
    let mut lines = no_lines();
    let mut i: usize = 0;
    assert(want.take(0) =~= Seq::empty());
    while i < list.len()
        invariant
            i <= list.len(),
            want == proposal_models(list@).map_values(|p: ProposalModel| listed_proposal(p)),
            line_models(lines@) == want.take(i as int),
        decreases list.len() - i,
    {
        let p = &list[i];
        assert(proposal_models(list@)[i as int] == p@);
        let mut line = p.id.clone();
        line.append(" kind=");
        line.append(p.kind.as_str());
        line.append(" ");
        line.append(proposal_summary(p).as_str());
        say(&mut lines, line);
        assert(want.take(i + 1) =~= want.take(i as int).push(want[i as int]));
        i += 1;
    }
    assert(want.take(i as int) =~= want);
    lines
}

fn show_proposal(p: &adjustments::ProposalEntry) -> (r: Vec<crate::cli::Line>)
    ensures
        line_models(r@) == shown_proposal(p@),
{
    let mut lines = no_lines();
    say(&mut lines, pair("id: ", p.id.as_str()));
    say(&mut lines, pair("kind: ", p.kind.as_str()));
    match p.class {
        Some(class) => {
            say(&mut lines, pair("class: ", class.label()));
        },
        None => {},
    }
    match p.task_id {
        Some(id) => {
            say(&mut lines, pair("task: ", id.label().as_str()));
        },
        None => {},
    }
    say(&mut lines, pair("created_at: ", numbers::decimal_of(p.created_at).as_str()));
    say(&mut lines, "---".to_owned());
    say(&mut lines, p.body.clone());
    assert(line_models(lines@) =~= shown_proposal(p@));
    lines
}

/// `config advisor proposals`: lists, shows, applies and rejects what the advisor
/// has proposed. The first argument is the command.
pub fn config_advisor_proposals(store: &mut PromptStore, args: &Vec<String>) -> (r: CommandReply)
    ensures
        (final(store)@, r@) == proposals_reply(old(store)@, chars::owned_texts(args@)),
        old(store).wf() ==> final(store).wf(),
{
    let ghost all = chars::owned_texts(args@);
    assert(args.len() >= 2 ==> all[1] == args@[1]@);
    assert(args.len() >= 3 ==> all[2] == args@[2]@);
    proof {
        reveal_strlit("list");
        reveal_strlit("show");
        reveal_strlit("apply");
        reveal_strlit("reject");
        assert("list"@[0] == 'l' && "show"@[0] == 's' && "apply"@[0] == 'a' && "reject"@[0]
            == 'r');
    }
    let word = if args.len() < 2 {
        "list"
    } else {
        args[1].as_str()
    };
    if text::same(word, "list") {
        let list = adjustments::list_proposals(store);
        if list.len() == 0 {
            return CommandReply::says(0, one_line("no advisor proposals pending".to_owned()));
        }
        return CommandReply::says(0, list_lines(&list));
    }
    if !(text::same(word, "show") || text::same(word, "apply") || text::same(word, "reject")) {
        return CommandReply::fails(pair("unknown proposals subcommand: ", word));
    }
    if args.len() < 3 {
        let mut e = "usage: minipaw config advisor proposals ".to_owned();
        e.append(word);
        e.append(" <id>");
        return CommandReply::fails(e);
    }
    let id = args[2].as_str();
    let p = match adjustments::find_proposal(store, id) {
        Some(p) => p,
        None => {
            return CommandReply::fails(pair("proposal not found: ", id));
        },
    };
    if text::same(word, "show") {
        return CommandReply::says(0, show_proposal(&p));
    }
    if text::same(word, "apply") {
        return match adjustments::apply_proposal(store, &p) {
            Ok(outcome) => {
                let mut line = "applied ".to_owned();
                line.append(id);
                line.append(": ");
                line.append(outcome.as_str());
                CommandReply::says(0, one_line(line))
            },
            Err(e) => CommandReply::fails(pair("apply failed: ", e.as_str())),
        };
    }
    adjustments::reject_proposal(store, &p);
    CommandReply::says(0, one_line(pair("rejected ", id)))
}

// ---------------------------------------------------------------------------
// Telegram
// ---------------------------------------------------------------------------

/// How reading the options of `config telegram set` ended.
pub ghost enum BotOptions {
    Parsed { token: Option<Seq<char>>, chats: Option<Seq<char>> },
    Unknown(Seq<char>),
}

/// The argument with a number, where there is one.
pub open spec fn arg(args: Seq<Seq<char>>, i: int) -> Option<Seq<char>> {
    if 0 <= i < args.len() {
        Some(args[i])
    } else {
        None
    }
}

/// The bot's settings that the arguments from number `i` on leave.
pub open spec fn bot_options(
    args: Seq<Seq<char>>,
    i: int,
    token: Option<Seq<char>>,
    chats: Option<Seq<char>>,
) -> BotOptions
    decreases args.len() - i,
{
    if i < 0 || i >= args.len() {
        BotOptions::Parsed { token, chats }
    } else if args[i] == "--token"@ {
        if i + 2 <= args.len() {
            bot_options(args, i + 2, arg(args, i + 1), chats)
        } else {
            BotOptions::Parsed { token: None, chats }
        }
    } else if args[i] == "--chats"@ {
        if i + 2 <= args.len() {
            bot_options(args, i + 2, token, arg(args, i + 1))
        } else {
            BotOptions::Parsed { token, chats: None }
        }
    } else {
        BotOptions::Unknown(args[i])
    }
}

/// What `config telegram set` does with the configuration file.
pub open spec fn telegram_set_reply(file: Option<Seq<char>>, args: Seq<Seq<char>>) -> ReplyModel {
    match bot_options(args, 2, None, None) {
        BotOptions::Unknown(a) => ReplyModel::fails("unknown telegram config option: "@ + a),
        BotOptions::Parsed { token, chats } => match (token, chats) {
            (None, _) => ReplyModel::fails("telegram set requires --token <bot-token>"@),
            (Some(_), None) => ReplyModel::fails(
                "telegram set requires --chats <chat-id[,chat-id...]>"@,
            ),
            (Some(token), Some(list)) => {
                let chats = json::number_list(list);
                if chats == Set::<i64>::empty() {
                    ReplyModel::fails("--chats must contain at least one numeric chat id"@)
                } else {
                    ReplyModel {
                        code: 0,
                        lines: one(
                            "telegram configured: token="@ + masked(token) + " chats="@
                                + chats_text(chats),
                        ),
                        file: Some(
                            rendered(
                                FileModel {
                                    telegram: Some(
                                        TelegramModel { token, allowed_chats: chats },
                                    ),
                                    ..config_in(file)
                                },
                            ),
                        ),
                        write_failure: None,
                    }
                }
            },
        },
    }
}

/// What `config telegram pair` does with the configuration file.
pub open spec fn telegram_pair_reply(file: Option<Seq<char>>, args: Seq<Seq<char>>) -> ReplyModel {
    let id = match arg(args, 2) {
        Some(v) => numbers::signed_value(v),
        None => None,
    };
    match id {
        None => ReplyModel::fails("telegram pair requires a numeric chat id"@),
        Some(n) => match config_in(file).telegram {
            None => ReplyModel::fails(
                "telegram pair failed: "@ + "telegram bot token is not configured"@,
            ),
            Some(t) => ReplyModel {
                code: 0,
                lines: one(
                    (if t.allowed_chats.contains(n as i64) {
                        "telegram chat already paired: "@
                    } else {
                        "telegram chat paired: "@
                    }) + numbers::signed(n),
                ),
                file: Some(
                    rendered(
                        FileModel {
                            telegram: Some(
                                TelegramModel {
                                    allowed_chats: t.allowed_chats.insert(n as i64),
                                    ..t
                                },
                            ),
                            ..config_in(file)
                        },
                    ),
                ),
                write_failure: Some("telegram pair failed: "@),
            },
        },
    }
}

/// What `config telegram unpair` does with the configuration file.
pub open spec fn telegram_unpair_reply(
    file: Option<Seq<char>>,
    args: Seq<Seq<char>>,
) -> ReplyModel {
    let id = match arg(args, 2) {
        Some(v) => numbers::signed_value(v),
        None => None,
    };
    match id {
        None => ReplyModel::fails("telegram unpair requires a numeric chat id"@),
        Some(n) => match config_in(file).telegram {
            None => ReplyModel::fails(
                "telegram unpair failed: "@ + "telegram bot token is not configured"@,
            ),
            Some(t) => ReplyModel {
                code: 0,
                lines: one(
                    (if t.allowed_chats.contains(n as i64) {
                        "telegram chat unpaired: "@
                    } else {
                        "telegram chat was not paired: "@
                    }) + numbers::signed(n),
                ),
                file: Some(
                    rendered(
                        FileModel {
                            telegram: Some(
                                TelegramModel {
                                    allowed_chats: t.allowed_chats.remove(n as i64),
                                    ..t
                                },
                            ),
                            ..config_in(file)
                        },
                    ),
                ),
                write_failure: Some("telegram unpair failed: "@),
            },
        },
    }
}

/// The usage of `config telegram`.
pub const TELEGRAM_USAGE: &'static str =
    "usage: minipaw config telegram set --token <token> --chats <ids> | config telegram pair <chat-id> | config telegram unpair <chat-id> | config telegram show";

/// What `config telegram` does with the configuration file.
pub open spec fn telegram_reply(file: Option<Seq<char>>, args: Seq<Seq<char>>) -> ReplyModel {
    let word = arg(args, 1);
    if word == Some("set"@) {
        telegram_set_reply(file, args)
    } else if word == Some("show"@) {
        ReplyModel::says(
            0,
            match config_in(file).telegram {
                Some(t) => telegram_lines(""@, t),
                None => one("telegram not configured"@),
            },
        )
    } else if word == Some("pair"@) {
        telegram_pair_reply(file, args)
    } else if word == Some("unpair"@) {
        telegram_unpair_reply(file, args)
    } else {
        ReplyModel::fails(TELEGRAM_USAGE@)
    }
}

fn chat_argument(args: &Vec<String>) -> (r: Option<i64>)
    ensures
        ({
            let id = match arg(chars::owned_texts(args@), 2) {
                Some(v) => numbers::signed_value(v),
                None => None,
            };
            match r {
                Some(n) => id == Some(n as int),
                None => id is None,
            }
        }),
{
    if args.len() > 2 {
        assert(chars::owned_texts(args@)[2] == args@[2]@);
        numbers::parse_i64(args[2].as_str())
    } else {
        None
    }
}

fn telegram_set(file: Option<&str>, args: &Vec<String>) -> (r: CommandReply)
    requires
        args@.len() >= 2,
    ensures
        r@ == telegram_set_reply(opt_str(file), chars::owned_texts(args@)),
{
    let ghost all = chars::owned_texts(args@);
    let mut token: Option<String> = None;
    let mut chats: Option<String> = None;
    let mut i: usize = 2;
    while i < args.len()
        invariant_except_break
            2 <= i <= args.len(),
            all == chars::owned_texts(args@),
            bot_options(all, 2, None, None) == bot_options(
                all,
                i as int,
                chars::opt_text(token),
                chars::opt_text(chats),
            ),
        invariant
            all == chars::owned_texts(args@),
        ensures
            bot_options(all, 2, None, None) == (BotOptions::Parsed {
                token: chars::opt_text(token),
                chats: chars::opt_text(chats),
            }),
        decreases args.len() - i,
    {
        let a = args[i].as_str();
        assert(all[i as int] == a@);
        let is_token = text::same(a, "--token");
        let is_chats = text::same(a, "--chats");
        if !is_token && !is_chats {
            return CommandReply::fails(pair("unknown telegram config option: ", a));
        }
        proof {
            reveal_strlit("--token");
            reveal_strlit("--chats");
            assert("--token"@[2] == 't' && "--chats"@[2] == 'c');
        }
        if args.len() - i < 2 {
            if is_token {
                token = None;
            } else {
                chats = None;
            }
            break ;
        }
        let v = args[i + 1].clone();
        assert(all[i + 1] == v@);
        if is_token {
            token = Some(v);
        } else {
            chats = Some(v);
        }
        i += 2;
    }
    let token = match token {
        Some(t) => t,
        None => {
            return CommandReply::fails("telegram set requires --token <bot-token>".to_owned());
        },
    };
    let list = match chats {
        Some(c) => c,
        None => {
            return CommandReply::fails(
                "telegram set requires --chats <chat-id[,chat-id...]>".to_owned(),
            );
        },
    };
    let parsed = json::parse_number_list(list.as_str());
    if parsed.is_empty() {
        proof {
            broadcast use vstd::std_specs::btree::group_btree_axioms;

            json::lemma_numbers_finite(
                chars::pieces(list@, crate::chars::CharSet::Only(',')),
            );
            assert(parsed@ =~= Set::<i64>::empty());
        }
        return CommandReply::fails(
            "--chats must contain at least one numeric chat id".to_owned(),
        );
    }
    let mut line = "telegram configured: token=".to_owned();
    line.append(mask_token(token.as_str()).as_str());
    line.append(" chats=");
    line.append(join_chat_ids(&parsed).as_str());
    assert(parsed@ != Set::<i64>::empty()) by {
        broadcast use vstd::std_specs::btree::group_btree_axioms;

    }
    let out = config::write_telegram_config(file, token.as_str(), parsed);
    CommandReply { code: 0, lines: one_line(line), file: Some(out), write_failure: None }
}

/// `config telegram`: sets, shows, pairs and unpairs. The first argument is the
/// command.
pub fn config_telegram(file: Option<&str>, args: &Vec<String>) -> (r: CommandReply)
    ensures
        r@ == telegram_reply(opt_str(file), chars::owned_texts(args@)),
{
    if args.len() < 2 {
        return CommandReply::fails(TELEGRAM_USAGE.to_owned());
    }
    assert(chars::owned_texts(args@)[1] == args@[1]@);
    proof {
        reveal_strlit("set");
        reveal_strlit("show");
        reveal_strlit("pair");
        reveal_strlit("unpair");
        assert("set"@.len() == 3 && "show"@.len() == 4 && "pair"@.len() == 4);
        assert("unpair"@.len() == 6 && "show"@[0] == 's' && "pair"@[0] == 'p');
    }
    let word = args[1].as_str();
    if text::same(word, "set") {
        telegram_set(file, args)
    } else if text::same(word, "show") {
        let c = config::read_file_config(file);
        match &c.telegram {
            Some(t) => {
                let mut lines = no_lines();
                push_telegram(&mut lines, "", t);
                assert(line_models(lines@) =~= telegram_lines(""@, t@));
                CommandReply::says(0, lines)
            },
            None => CommandReply::says(0, one_line("telegram not configured".to_owned())),
        }
    } else if text::same(word, "pair") {
        let id: i64 = match chat_argument(args) {
            Some(id) => id,
            None => {
                return CommandReply::fails("telegram pair requires a numeric chat id".to_owned());
            },
        };
        match config::pair_telegram_chat(file, id) {
            Ok((out, inserted)) => {
                let head = if inserted {
                    "telegram chat paired: "
                } else {
                    "telegram chat already paired: "
                };
                CommandReply {
                    code: 0,
                    lines: one_line(pair(head, numbers::signed_of(id).as_str())),
                    file: Some(out),
                    write_failure: Some("telegram pair failed: ".to_owned()),
                }
            },
            Err(e) => CommandReply::fails(pair("telegram pair failed: ", e.as_str())),
        }
    } else if text::same(word, "unpair") {
        let id: i64 = match chat_argument(args) {
            Some(id) => id,
            None => {
                return CommandReply::fails(
                    "telegram unpair requires a numeric chat id".to_owned(),
                );
            },
        };
        match config::unpair_telegram_chat(file, id) {
            Ok((out, removed)) => {
                let head = if removed {
                    "telegram chat unpaired: "
                } else {
                    "telegram chat was not paired: "
                };
                CommandReply {
                    code: 0,
                    lines: one_line(pair(head, numbers::signed_of(id).as_str())),
                    file: Some(out),
                    write_failure: Some("telegram unpair failed: ".to_owned()),
                }
            },
            Err(e) => CommandReply::fails(pair("telegram unpair failed: ", e.as_str())),
        }
    } else {
        CommandReply::fails(TELEGRAM_USAGE.to_owned())
    }
}

// ---------------------------------------------------------------------------
// Dispatch
// ---------------------------------------------------------------------------

/// The usage of `config`.
pub const CONFIG_USAGE: &'static str =
    "usage: minipaw config check | config show | config set [--provider p] [--url u] [--model m] [--api-key k] | config telegram ... | config advisor ...";

/// The usage of `config advisor`.
pub const ADVISOR_USAGE: &'static str =
    "usage: minipaw config advisor set --provider p --url u --model m [--api-key k]
       config advisor mode <training|trial|working>
       config advisor route <minihow|miniwhy|miniwhat> <primary|advisor>
       config advisor proposals list | show <id> | apply <id> | reject <id>
       config advisor show
       config advisor clear";

/// What `config advisor` does: the workspace after it, and the reply.
pub open spec fn advisor_reply(
    store: StoreModel,
    file: Option<Seq<char>>,
    args: Seq<Seq<char>>,
) -> (StoreModel, ReplyModel) {
    let word = arg(args, 0);
    if word == Some("set"@) {
        (store, advisor_set_reply(file, args))
    } else if word == Some("show"@) {
        (
            store,
            ReplyModel::says(
                0,
                match config_in(file).advisor {
                    Some(a) => advisor_lines(a),
                    None => seq![LineModel::Printed("advisor: not configured"@)],
                },
            ),
        )
    } else if word == Some("mode"@) {
        (store, advisor_mode_reply(file, args))
    } else if word == Some("route"@) {
        (store, advisor_route_reply(file, args))
    } else if word == Some("clear"@) {
        (
            store,
            ReplyModel {
                code: 0,
                lines: one("advisor cleared"@),
                file: Some(rendered(FileModel { advisor: None, ..config_in(file) })),
                write_failure: None,
            },
        )
    } else if word == Some("proposals"@) {
        proposals_reply(store, args)
    } else {
        (store, ReplyModel::fails(ADVISOR_USAGE@))
    }
}

/// What `config` does: the workspace after it, and the reply.
pub open spec fn config_reply(
    store: StoreModel,
    file: Option<Seq<char>>,
    args: Seq<Seq<char>>,
) -> (StoreModel, ReplyModel) {
    let word = arg(args, 0);
    if word == Some("check"@) {
        (store, ReplyModel::says(0, one("config ok"@)))
    } else if word == Some("set"@) {
        (store, config_set_reply(file, args))
    } else if word == Some("show"@) {
        (store, ReplyModel::says(0, show_lines(config_in(file))))
    } else if word == Some("telegram"@) {
        (store, telegram_reply(file, args))
    } else if word == Some("advisor"@) {
        advisor_reply(store, file, args.skip(1))
    } else {
        (store, ReplyModel::fails(CONFIG_USAGE@))
    }
}

/// `config advisor`: the arguments behind these two words.
pub fn config_advisor(store: &mut PromptStore, file: Option<&str>, args: &Vec<String>) -> (r:
    CommandReply)
    ensures
        (final(store)@, r@) == advisor_reply(
            old(store)@,
            opt_str(file),
            chars::owned_texts(args@),
        ),
        old(store).wf() ==> final(store).wf(),
{
    if args.len() == 0 {
        return CommandReply::fails(ADVISOR_USAGE.to_owned());
    }
    assert(chars::owned_texts(args@)[0] == args@[0]@);
    let word = args[0].as_str();
    if text::same(word, "set") {
        config_advisor_set(file, args)
    } else if text::same(word, "show") {
        config_advisor_show(file)
    } else if text::same(word, "mode") {
        config_advisor_mode(file, args)
    } else if text::same(word, "route") {
        config_advisor_route(file, args)
    } else if text::same(word, "clear") {
        config_advisor_clear(file)
    } else if text::same(word, "proposals") {
        config_advisor_proposals(store, args)
    } else {
        CommandReply::fails(ADVISOR_USAGE.to_owned())
    }
}

/// `config`: the arguments behind the word.
pub fn config_command(store: &mut PromptStore, file: Option<&str>, args: &Vec<String>) -> (r:
    CommandReply)
    ensures
        (final(store)@, r@) == config_reply(
            old(store)@,
            opt_str(file),
            chars::owned_texts(args@),
        ),
        old(store).wf() ==> final(store).wf(),
{
    if args.len() == 0 {
        return CommandReply::fails(CONFIG_USAGE.to_owned());
    }
    assert(chars::owned_texts(args@)[0] == args@[0]@);
    let word = args[0].as_str();
    if text::same(word, "check") {
        CommandReply::says(0, one_line("config ok".to_owned()))
    } else if text::same(word, "set") {
        config_set(file, args)
    } else if text::same(word, "show") {
        config_show(file)
    } else if text::same(word, "telegram") {
        config_telegram(file, args)
    } else if text::same(word, "advisor") {
        let rest = text::copy_from(args, 1);
        config_advisor(store, file, &rest)
    } else {
        CommandReply::fails(CONFIG_USAGE.to_owned())
    }
}

/// A reply that fails writes nothing.
pub open spec fn is_harmless(r: ReplyModel) -> bool {
    r.code != 0 ==> r.file is None
}

proof fn lemma_models_harmless(file: Option<Seq<char>>, args: Seq<Seq<char>>)
    ensures
        is_harmless(config_set_reply(file, args)),
        is_harmless(advisor_set_reply(file, args)),
{
}

proof fn lemma_advisor_harmless(file: Option<Seq<char>>, args: Seq<Seq<char>>)
    ensures
        is_harmless(advisor_mode_reply(file, args)),
        is_harmless(advisor_route_reply(file, args)),
{
}

proof fn lemma_telegram_harmless(file: Option<Seq<char>>, args: Seq<Seq<char>>)
    ensures
        is_harmless(telegram_set_reply(file, args)),
        is_harmless(telegram_pair_reply(file, args)),
        is_harmless(telegram_unpair_reply(file, args)),
{
}

proof fn lemma_proposals_harmless(store: StoreModel, args: Seq<Seq<char>>)
    ensures
        proposals_reply(store, args).1.file is None,
        proposals_reply(store, args).1.code != 0 ==> proposals_reply(store, args).0 == store,
{
}

/// Whatever the arguments, a command that fails changes neither the configuration
/// nor the workspace.
pub proof fn law_failure_changes_nothing(
    store: StoreModel,
    file: Option<Seq<char>>,
    args: Seq<Seq<char>>,
)
    ensures
        config_reply(store, file, args).1.code != 0 ==> config_reply(store, file, args).1.file
            is None && config_reply(store, file, args).0 == store,
{
    let rest = args.skip(1);
    lemma_models_harmless(file, args);
    lemma_models_harmless(file, rest);
    lemma_advisor_harmless(file, rest);
    lemma_telegram_harmless(file, args);
    lemma_proposals_harmless(store, rest);
    assert(is_harmless(telegram_reply(file, args)));
    let a = advisor_reply(store, file, rest);
    assert(a.1.code != 0 ==> a.1.file is None && a.0 == store);
}

}
