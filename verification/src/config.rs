//! Settings: the configuration file and its text form, what the environment
//! adds to it, and the edits that the command line makes.
use std::collections::BTreeSet;

use vstd::prelude::*;

use crate::chars;
use crate::chars::CharSet;
use crate::json;
use crate::numbers;
use crate::order;
use crate::text;
use crate::types::{AdvisorMode, AgentChoice, MessageClass};

verus! {

/// Settings of a running agent. `tool_timeout` is in seconds.
#[derive(Debug)]
pub struct AgentConfig {
    pub workspace: String,
    pub history_limit: usize,
    pub max_file_bytes: usize,
    pub max_tool_output_bytes: usize,
    pub tool_timeout: u64,
    pub allow_exec: bool,
    pub allowed_exec: Vec<String>,
    pub telegram_token: Option<String>,
    pub telegram_allowed_chats: BTreeSet<i64>,
    pub primary_agent: Option<LlmConfig>,
    pub advisor: Option<AdvisorConfig>,
}

#[derive(Debug, PartialEq, Eq)]
pub struct LlmConfig {
    pub provider: String,
    pub url: String,
    pub model: String,
    pub api_key: Option<String>,
    pub thinking: bool,
}

/// The contents of a model's settings.
pub ghost struct LlmModel {
    pub provider: Seq<char>,
    pub url: Seq<char>,
    pub model: Seq<char>,
    pub api_key: Option<Seq<char>>,
    pub thinking: bool,
}

impl View for LlmConfig {
    type V = LlmModel;

    open spec fn view(&self) -> LlmModel {
        LlmModel {
            provider: self.provider@,
            url: self.url@,
            model: self.model@,
            api_key: chars::opt_text(self.api_key),
            thinking: self.thinking,
        }
    }
}

impl Clone for LlmConfig {
    fn clone(&self) -> (r: Self)
        ensures
            r@ == self@,
    {
        LlmConfig {
            provider: self.provider.clone(),
            url: self.url.clone(),
            model: self.model.clone(),
            api_key: text::copy_opt(&self.api_key),
            thinking: self.thinking,
        }
    }
}

/// Which model serves each message class, where a rule was set.
#[derive(Debug, Clone, Copy, PartialEq, Eq, Structural)]
pub struct Routing {
    pub minihow: Option<AgentChoice>,
    pub miniwhy: Option<AgentChoice>,
    pub miniwhat: Option<AgentChoice>,
}

impl Routing {
    pub open spec fn rule(self, class: MessageClass) -> Option<AgentChoice> {
        match class {
            MessageClass::MiniHow => self.minihow,
            MessageClass::MiniWhy => self.miniwhy,
            MessageClass::MiniWhat => self.miniwhat,
        }
    }

    /// The routing with a rule set.
    pub open spec fn with(self, class: MessageClass, choice: Option<AgentChoice>) -> Routing {
        match class {
            MessageClass::MiniHow => Routing { minihow: choice, ..self },
            MessageClass::MiniWhy => Routing { miniwhy: choice, ..self },
            MessageClass::MiniWhat => Routing { miniwhat: choice, ..self },
        }
    }

    pub open spec fn none() -> Routing {
        Routing { minihow: None, miniwhy: None, miniwhat: None }
    }

    pub fn new() -> (r: Routing)
        ensures
            r == Routing::none(),
    {
        Routing { minihow: None, miniwhy: None, miniwhat: None }
    }

    pub fn get(&self, class: MessageClass) -> (r: Option<AgentChoice>)
        ensures
            r == self.rule(class),
    {
        match class {
            MessageClass::MiniHow => self.minihow,
            MessageClass::MiniWhy => self.miniwhy,
            MessageClass::MiniWhat => self.miniwhat,
        }
    }

    pub fn insert(&mut self, class: MessageClass, choice: AgentChoice)
        ensures
            *final(self) == old(self).with(class, Some(choice)),
    {
        match class {
            MessageClass::MiniHow => {
                self.minihow = Some(choice);
            },
            MessageClass::MiniWhy => {
                self.miniwhy = Some(choice);
            },
            MessageClass::MiniWhat => {
                self.miniwhat = Some(choice);
            },
        }
    }

    pub fn is_empty(&self) -> (r: bool)
        ensures
            r == (*self == Routing::none()),
    {
        self.minihow.is_none() && self.miniwhy.is_none() && self.miniwhat.is_none()
    }
}

#[derive(Debug, PartialEq, Eq)]
pub struct AdvisorConfig {
    pub mode: AdvisorMode,
    pub agent: LlmConfig,
    pub routing: Routing,
}

/// The contents of the advisor's settings.
pub ghost struct AdvisorModel {
    pub mode: AdvisorMode,
    pub agent: LlmModel,
    pub routing: Routing,
}

impl View for AdvisorConfig {
    type V = AdvisorModel;

    open spec fn view(&self) -> AdvisorModel {
        AdvisorModel { mode: self.mode, agent: self.agent@, routing: self.routing }
    }
}

impl Clone for AdvisorConfig {
    fn clone(&self) -> (r: Self)
        ensures
            r@ == self@,
    {
        AdvisorConfig { mode: self.mode, agent: self.agent.clone(), routing: self.routing }
    }
}

/// The choice of a rule, the primary where none was set.
pub open spec fn routed(rule: Option<AgentChoice>) -> AgentChoice {
    match rule {
        Some(choice) => choice,
        None => AgentChoice::Primary,
    }
}

impl AdvisorConfig {
    pub fn new(agent: LlmConfig) -> (r: Self)
        ensures
            r.mode == AdvisorMode::Trial,
            r.agent == agent,
            r.routing == Routing::none(),
    {
        AdvisorConfig { mode: AdvisorMode::Trial, agent, routing: Routing::new() }
    }

    /// The agent that serves a message class; the primary where no rule was set.
    pub fn route_for(&self, class: MessageClass) -> (r: AgentChoice)
        ensures
            r == routed(self.routing.rule(class)),
    {
        match self.routing.get(class) {
            Some(choice) => choice,
            None => AgentChoice::Primary,
        }
    }
}

#[derive(Debug, PartialEq, Eq)]
pub struct TelegramBotConfig {
    pub token: String,
    pub allowed_chats: BTreeSet<i64>,
}

/// The contents of the Telegram settings.
pub ghost struct TelegramModel {
    pub token: Seq<char>,
    pub allowed_chats: Set<i64>,
}

impl View for TelegramBotConfig {
    type V = TelegramModel;

    open spec fn view(&self) -> TelegramModel {
        TelegramModel { token: self.token@, allowed_chats: self.allowed_chats@ }
    }
}

#[derive(Debug, PartialEq, Eq)]
pub struct FileConfig {
    pub primary_agent: Option<LlmConfig>,
    pub telegram: Option<TelegramBotConfig>,
    pub advisor: Option<AdvisorConfig>,
}

/// The contents of a configuration file.
pub ghost struct FileModel {
    pub primary_agent: Option<LlmModel>,
    pub telegram: Option<TelegramModel>,
    pub advisor: Option<AdvisorModel>,
}

pub open spec fn opt_llm(o: Option<LlmConfig>) -> Option<LlmModel> {
    match o {
        Some(x) => Some(x@),
        None => None,
    }
}

pub open spec fn opt_telegram(o: Option<TelegramBotConfig>) -> Option<TelegramModel> {
    match o {
        Some(x) => Some(x@),
        None => None,
    }
}

pub open spec fn opt_advisor(o: Option<AdvisorConfig>) -> Option<AdvisorModel> {
    match o {
        Some(x) => Some(x@),
        None => None,
    }
}

impl View for FileConfig {
    type V = FileModel;

    open spec fn view(&self) -> FileModel {
        FileModel {
            primary_agent: opt_llm(self.primary_agent),
            telegram: opt_telegram(self.telegram),
            advisor: opt_advisor(self.advisor),
        }
    }
}

impl FileModel {
    pub open spec fn nothing() -> FileModel {
        FileModel { primary_agent: None, telegram: None, advisor: None }
    }
}

impl Default for FileConfig {
    fn default() -> (r: Self)
        ensures
            r@ == FileModel::nothing(),
    {
        FileConfig { primary_agent: None, telegram: None, advisor: None }
    }
}

// ---------------------------------------------------------------------------
// Reading
// ---------------------------------------------------------------------------

/// The model settings in a block: provider, address and model are required.
pub open spec fn llm_in(block: Seq<char>) -> Option<LlmModel> {
    match (
        json::string_value(block, "provider"@),
        json::string_value(block, "url"@),
        json::string_value(block, "model"@),
    ) {
        (Some(provider), Some(url), Some(model)) => Some(
            LlmModel {
                provider,
                url,
                model,
                api_key: json::string_value(block, "api_key"@),
                thinking: json::bool_value(block, "thinking"@) == Some(true),
            },
        ),
        _ => None,
    }
}

/// The model settings in the block behind a name.
pub open spec fn llm_named(s: Seq<char>, key: Seq<char>) -> Option<LlmModel> {
    match json::object_value(s, key) {
        Some(block) => llm_in(block),
        None => None,
    }
}

/// The rule for one class in a routing block.
pub open spec fn rule_in(block: Seq<char>, class: MessageClass) -> Option<AgentChoice> {
    match json::string_value(block, class.name()) {
        Some(raw) => AgentChoice::named(raw),
        None => None,
    }
}

/// The routing in an advisor mode block.
pub open spec fn routing_in(block: Seq<char>) -> Routing {
    match json::object_value(block, "routing"@) {
        Some(inner) => Routing {
            minihow: rule_in(inner, MessageClass::MiniHow),
            miniwhy: rule_in(inner, MessageClass::MiniWhy),
            miniwhat: rule_in(inner, MessageClass::MiniWhat),
        },
        None => Routing::none(),
    }
}

/// The mode in an advisor mode block, `Trial` where it names none.
pub open spec fn mode_in(block: Seq<char>) -> AdvisorMode {
    match json::string_value(block, "mode"@) {
        Some(raw) => match AdvisorMode::named(raw) {
            Some(mode) => mode,
            None => AdvisorMode::Trial,
        },
        None => AdvisorMode::Trial,
    }
}

/// The advisor's settings: its model, and the mode block where there is one.
pub open spec fn advisor_in(s: Seq<char>) -> Option<AdvisorModel> {
    match llm_named(s, "advisor"@) {
        Some(agent) => Some(
            match json::object_value(s, "advisor_mode"@) {
                Some(block) => AdvisorModel {
                    mode: mode_in(block),
                    agent,
                    routing: routing_in(block),
                },
                None => AdvisorModel { mode: AdvisorMode::Trial, agent, routing: Routing::none() },
            },
        ),
        None => None,
    }
}

/// The Telegram settings: the token is required, under either of its names.
pub open spec fn telegram_in(s: Seq<char>) -> Option<TelegramModel> {
    match json::object_value(s, "telegram"@) {
        Some(block) => {
            let token = match json::string_value(block, "bot_token"@) {
                Some(t) => Some(t),
                None => json::string_value(block, "token"@),
            };
            match token {
                Some(token) => Some(
                    TelegramModel {
                        token,
                        allowed_chats: json::array_value(block, "allowed_chats"@),
                    },
                ),
                None => None,
            }
        },
        None => None,
    }
}

/// The configuration that a file's text holds; nothing where there is no file.
pub open spec fn config_in(s: Option<Seq<char>>) -> FileModel {
    match s {
        Some(s) => FileModel {
            primary_agent: llm_named(s, "primary"@),
            telegram: telegram_in(s),
            advisor: advisor_in(s),
        },
        None => FileModel::nothing(),
    }
}

fn read_llm(s: &str, key: &str) -> (r: Option<LlmConfig>)
    ensures
        opt_llm(r) == llm_named(s@, key@),
{
    let block = match json::extract_object(s, key) {
        Some(block) => block,
        None => {
            return None;
        },
    };
    match (
        json::extract_json_string(block, "provider"),
        json::extract_json_string(block, "url"),
        json::extract_json_string(block, "model"),
    ) {
        (Some(provider), Some(url), Some(model)) => Some(
            LlmConfig {
                provider,
                url,
                model,
                api_key: json::extract_json_string(block, "api_key"),
                thinking: match json::extract_json_bool(block, "thinking") {
                    Some(b) => b,
                    None => false,
                },
            },
        ),
        _ => None,
    }
}

fn read_rule(block: &str, class: MessageClass) -> (r: Option<AgentChoice>)
    ensures
        r == rule_in(block@, class),
{
    match json::extract_json_string(block, class.label()) {
        Some(raw) => AgentChoice::parse(raw.as_str()),
        None => None,
    }
}

/// The routing rules of an advisor mode block.
pub fn parse_routing_block(block: &str) -> (r: Routing)
    ensures
        r == routing_in(block@),
{
    match json::extract_object(block, "routing") {
        Some(inner) => Routing {
            minihow: read_rule(inner, MessageClass::MiniHow),
            miniwhy: read_rule(inner, MessageClass::MiniWhy),
            miniwhat: read_rule(inner, MessageClass::MiniWhat),
        },
        None => Routing::new(),
    }
}

fn read_mode(block: &str) -> (r: AdvisorMode)
    ensures
        r == mode_in(block@),
{
    match json::extract_json_string(block, "mode") {
        Some(raw) => match AdvisorMode::parse(raw.as_str()) {
            Some(mode) => mode,
            None => AdvisorMode::Trial,
        },
        None => AdvisorMode::Trial,
    }
}

fn read_advisor(s: &str) -> (r: Option<AdvisorConfig>)
    ensures
        opt_advisor(r) == advisor_in(s@),
{
    match read_llm(s, "advisor") {
        Some(agent) => match json::extract_object(s, "advisor_mode") {
            Some(block) => Some(
                AdvisorConfig {
                    mode: read_mode(block),
                    agent,
                    routing: parse_routing_block(block),
                },
            ),
            None => Some(AdvisorConfig::new(agent)),
        },
        None => None,
    }
}

fn read_telegram(s: &str) -> (r: Option<TelegramBotConfig>)
    ensures
        opt_telegram(r) == telegram_in(s@),
{
    let block = match json::extract_object(s, "telegram") {
        Some(block) => block,
        None => {
            return None;
        },
    };
    let token = match json::extract_json_string(block, "bot_token") {
        Some(t) => Some(t),
        None => json::extract_json_string(block, "token"),
    };
    match token {
        Some(token) => Some(
            TelegramBotConfig {
                token,
                allowed_chats: json::extract_json_i64_array(block, "allowed_chats"),
            },
        ),
        None => None,
    }
}

/// The text of an optional slice.
pub open spec fn opt_str(o: Option<&str>) -> Option<Seq<char>> {
    match o {
        Some(s) => Some(s@),
        None => None,
    }
}

/// Reads the configuration from the text of its file, if the file could be read.
pub fn read_file_config(file: Option<&str>) -> (r: FileConfig)
    ensures
        r@ == config_in(opt_str(file)),
{
    match file {
        Some(s) => FileConfig {
            primary_agent: read_llm(s, "primary"),
            telegram: read_telegram(s),
            advisor: read_advisor(s),
        },
        None => FileConfig::default(),
    }
}

// ---------------------------------------------------------------------------
// Writing
// ---------------------------------------------------------------------------

/// A line `"name": "value"`.
pub open spec fn field(name: Seq<char>, value: Seq<char>) -> Seq<char> {
    "\""@ + name + "\": \""@ + json::escaped(value) + "\""@
}

/// The lines of a model's texts. A key that is empty is left out.
pub open spec fn llm_texts(llm: LlmModel) -> Seq<Seq<char>> {
    let three = seq![
        "      "@ + field("provider"@, llm.provider),
        "      "@ + field("url"@, llm.url),
        "      "@ + field("model"@, llm.model),
    ];
    match llm.api_key {
        Some(key) => if key.len() > 0 {
            three.push("      "@ + field("api_key"@, key))
        } else {
            three
        },
        None => three,
    }
}

/// The lines of a model's block. That a model thinks is written, that it does not
/// is left out.
pub open spec fn llm_fields(llm: LlmModel) -> Seq<Seq<char>> {
    if llm.thinking {
        llm_texts(llm).push("      \"thinking\": true"@)
    } else {
        llm_texts(llm)
    }
}

/// A model's block under its name.
pub open spec fn llm_block(name: Seq<char>, llm: LlmModel) -> Seq<char> {
    "    \""@ + name + "\": {\n"@ + chars::join(llm_fields(llm), ",\n"@) + "\n    }"@
}

/// The section of the models.
pub open spec fn agents_section(entries: Seq<Seq<char>>) -> Seq<char> {
    "  \"agents\": {\n"@ + chars::join(entries, ",\n"@) + "\n  }"@
}

/// The blocks of the configured models.
pub open spec fn agent_entries(c: FileModel) -> Seq<Seq<char>> {
    let first = match c.primary_agent {
        Some(llm) => seq![llm_block("primary"@, llm)],
        None => seq![],
    };
    match c.advisor {
        Some(advisor) => first.push(llm_block("advisor"@, advisor.agent)),
        None => first,
    }
}

/// The line of one routing rule.
pub open spec fn rule_line(class: MessageClass, choice: AgentChoice) -> Seq<char> {
    "      "@ + field(class.name(), choice.name())
}

/// The line of a class's rule, where there is one.
pub open spec fn rule_lines(class: MessageClass, rule: Option<AgentChoice>) -> Seq<Seq<char>> {
    match rule {
        Some(choice) => seq![rule_line(class, choice)],
        None => seq![],
    }
}

/// The lines of the routing rules.
pub open spec fn routing_lines(r: Routing) -> Seq<Seq<char>> {
    rule_lines(MessageClass::MiniHow, r.minihow) + rule_lines(MessageClass::MiniWhy, r.miniwhy)
        + rule_lines(MessageClass::MiniWhat, r.miniwhat)
}

/// The section of the advisor's mode and routing.
pub open spec fn mode_section(a: AdvisorModel) -> Seq<char> {
    "  \"advisor_mode\": {\n    "@ + field("mode"@, a.mode.name()) + (if a.routing
        == Routing::none() {
        "\n"@
    } else {
        ",\n    \"routing\": {\n"@ + chars::join(routing_lines(a.routing), ",\n"@) + "\n    }\n"@
    }) + "  }"@
}

/// Numbers as texts.
pub open spec fn number_texts(order: Seq<i64>) -> Seq<Seq<char>> {
    order.map_values(|n: i64| numbers::signed(n as int))
}

/// The Telegram section.
pub open spec fn telegram_section(t: TelegramModel) -> Seq<char> {
    "  \"telegram\": {\n    "@ + field("bot_token"@, t.token) + ",\n    \"allowed_chats\": ["@
        + chars::join(number_texts(order::listed(t.allowed_chats)), ", "@) + "]\n  }"@
}

/// The sections of a configuration.
pub open spec fn sections(c: FileModel) -> Seq<Seq<char>> {
    (if agent_entries(c).len() > 0 {
        seq![agents_section(agent_entries(c))]
    } else {
        seq![]
    }) + (match c.advisor {
        Some(a) => seq![mode_section(a)],
        None => seq![],
    }) + (match c.telegram {
        Some(t) => seq![telegram_section(t)],
        None => seq![],
    })
}

/// The text of the configuration file.
pub open spec fn rendered(c: FileModel) -> Seq<char> {
    "{\n"@ + chars::join(sections(c), ",\n"@) + (if sections(c).len() > 0 {
        "\n"@
    } else {
        ""@
    }) + "}\n"@
}

fn field_text(name: &str, value: &str) -> (r: String)
    ensures
        r@ == field(name@, value@),
{
    let mut out = "\"".to_owned();
    out.append(name);
    out.append("\": \"");
    out.append(json::json_escape(value).as_str());
    out.append("\"");
    out
}

fn indented_field(name: &str, value: &str) -> (r: String)
    ensures
        r@ == "      "@ + field(name@, value@),
{
    "      ".to_owned().concat(field_text(name, value).as_str())
}

fn render_named_agent(name: &str, llm: &LlmConfig) -> (r: String)
    ensures
        r@ == llm_block(name@, llm@),
{
    let mut lines: Vec<String> = Vec::new();
    lines.push(indented_field("provider", llm.provider.as_str()));
    lines.push(indented_field("url", llm.url.as_str()));
    lines.push(indented_field("model", llm.model.as_str()));
    match &llm.api_key {
        Some(key) => {
            if key.as_str().unicode_len() > 0 {
                lines.push(indented_field("api_key", key.as_str()));
            }
        },
        None => {},
    }
    if llm.thinking {
        lines.push("      \"thinking\": true".to_owned());
    }
    assert(chars::owned_texts(lines@) =~= llm_fields(llm@));
    let mut out = "    \"".to_owned();
    out.append(name);
    out.append("\": {\n");
    out.append(text::join_owned(&lines, ",\n").as_str());
    out.append("\n    }");
    out
}

fn push_rule(lines: &mut Vec<String>, class: MessageClass, rule: Option<AgentChoice>)
    ensures
        chars::owned_texts(final(lines)@) == chars::owned_texts(old(lines)@) + rule_lines(
            class,
            rule,
        ),
{
    let ghost before = chars::owned_texts(lines@);
    match rule {
        Some(choice) => {
            lines.push(indented_field(class.label(), choice.label()));
        },
        None => {},
    }
    assert(chars::owned_texts(lines@) =~= before + rule_lines(class, rule));
}

fn render_mode(advisor: &AdvisorConfig) -> (r: String)
    ensures
        r@ == mode_section(advisor@),
{
    let mut out = "  \"advisor_mode\": {\n    ".to_owned();
    out.append(field_text("mode", advisor.mode.label()).as_str());
    let ghost head = out@;
    if advisor.routing.is_empty() {
        out.append("\n");
    } else {
        let mut lines: Vec<String> = Vec::new();
        push_rule(&mut lines, MessageClass::MiniHow, advisor.routing.minihow);
        push_rule(&mut lines, MessageClass::MiniWhy, advisor.routing.miniwhy);
        push_rule(&mut lines, MessageClass::MiniWhat, advisor.routing.miniwhat);
        assert(chars::owned_texts(lines@) =~= routing_lines(advisor.routing));
        let mut block = ",\n    \"routing\": {\n".to_owned();
        block.append(text::join_owned(&lines, ",\n").as_str());
        block.append("\n    }\n");
        out.append(block.as_str());
    }
    out.append("  }");
    out
}

/// The numbers as decimal texts.
pub fn decimal_texts(list: &Vec<i64>) -> (r: Vec<String>)
    ensures
        chars::owned_texts(r@) == number_texts(list@),
{
    let mut out: Vec<String> = Vec::new();
    let mut i: usize = 0;
    let ghost want = number_texts(list@);
    assert(chars::owned_texts(out@) =~= want.take(0));
    while i < list.len()
        invariant
            i <= list.len(),
            want == number_texts(list@),
            chars::owned_texts(out@) == want.take(i as int),
        decreases list.len() - i,
    {
        let ghost before = chars::owned_texts(out@);
        out.push(numbers::signed_of(list[i]));
        assert(chars::owned_texts(out@) =~= before.push(want[i as int]));
        assert(want.take(i + 1) =~= want.take(i as int).push(want[i as int]));
        i += 1;
    }
    assert(want.take(i as int) =~= want);
    out
}

fn render_telegram(telegram: &TelegramBotConfig) -> (r: String)
    ensures
        r@ == telegram_section(telegram@),
{
    let mut out = "  \"telegram\": {\n    ".to_owned();
    out.append(field_text("bot_token", telegram.token.as_str()).as_str());
    out.append(",\n    \"allowed_chats\": [");
    let list = order::list_ascending(&telegram.allowed_chats);
    out.append(text::join_owned(&decimal_texts(&list), ", ").as_str());
    out.append("]\n  }");
    out
}

/// The text of the configuration file.
pub fn render_file_config(config: &FileConfig) -> (r: String)
    ensures
        r@ == rendered(config@),
{
    let mut entries: Vec<String> = Vec::new();
    match &config.primary_agent {
        Some(primary) => {
            entries.push(render_named_agent("primary", primary));
        },
        None => {},
    }
    match &config.advisor {
        Some(advisor) => {
            entries.push(render_named_agent("advisor", &advisor.agent));
        },
        None => {},
    }
    assert(chars::owned_texts(entries@) =~= agent_entries(config@));
    let mut parts: Vec<String> = Vec::new();
    if entries.len() > 0 {
        let mut block = "  \"agents\": {\n".to_owned();
        block.append(text::join_owned(&entries, ",\n").as_str());
        block.append("\n  }");
        parts.push(block);
    }
    match &config.advisor {
        Some(advisor) => {
            parts.push(render_mode(advisor));
        },
        None => {},
    }
    match &config.telegram {
        Some(telegram) => {
            parts.push(render_telegram(telegram));
        },
        None => {},
    }
    assert(chars::owned_texts(parts@) =~= sections(config@));
    let mut out = "{\n".to_owned();
    out.append(text::join_owned(&parts, ",\n").as_str());
    if parts.len() > 0 {
        out.append("\n");
    } else {
        out.append("");
    }
    out.append("}\n");
    out
}

// ---------------------------------------------------------------------------
// Edits
// ---------------------------------------------------------------------------

/// A key, where it is given and not empty.
pub open spec fn given(key: Option<Seq<char>>) -> Option<Seq<char>> {
    match key {
        Some(k) => if k.len() > 0 {
            Some(k)
        } else {
            None
        },
        None => None,
    }
}

/// The configuration with a primary model; its `thinking` flag is kept.
pub open spec fn with_primary(
    c: FileModel,
    provider: Seq<char>,
    url: Seq<char>,
    model: Seq<char>,
    api_key: Option<Seq<char>>,
) -> FileModel {
    let thinking = match c.primary_agent {
        Some(llm) => llm.thinking,
        None => false,
    };
    FileModel {
        primary_agent: Some(LlmModel { provider, url, model, api_key: given(api_key), thinking }),
        ..c
    }
}

/// The configuration with an advisor model; mode and routing are kept.
pub open spec fn with_advisor_agent(
    c: FileModel,
    provider: Seq<char>,
    url: Seq<char>,
    model: Seq<char>,
    api_key: Option<Seq<char>>,
) -> FileModel {
    let agent = LlmModel { provider, url, model, api_key: given(api_key), thinking: false };
    FileModel {
        advisor: Some(
            match c.advisor {
                Some(a) => AdvisorModel { agent, ..a },
                None => AdvisorModel { mode: AdvisorMode::Trial, agent, routing: Routing::none() },
            },
        ),
        ..c
    }
}

fn keep_given(key: Option<&str>) -> (r: Option<String>)
    ensures
        chars::opt_text(r) == given(opt_str(key)),
{
    match key {
        Some(k) => if k.unicode_len() > 0 {
            Some(k.to_owned())
        } else {
            None
        },
        None => None,
    }
}

/// The file text with the primary model set. The key is set as given, and taken
/// away where none is given.
pub fn write_primary_config(
    file: Option<&str>,
    provider: &str,
    url: &str,
    model: &str,
    api_key: Option<&str>,
) -> (r: String)
    ensures
        r@ == rendered(
            with_primary(config_in(opt_str(file)), provider@, url@, model@, opt_str(api_key)),
        ),
{
    let mut config = read_file_config(file);
    let thinking = match &config.primary_agent {
        Some(llm) => llm.thinking,
        None => false,
    };
    config.primary_agent = Some(
        LlmConfig {
            provider: provider.to_owned(),
            url: url.to_owned(),
            model: model.to_owned(),
            api_key: keep_given(api_key),
            thinking,
        },
    );
    render_file_config(&config)
}

/// The file text with the Telegram settings replaced.
pub fn write_telegram_config(file: Option<&str>, token: &str, chats: BTreeSet<i64>) -> (r: String)
    ensures
        r@ == rendered(
            FileModel {
                telegram: Some(TelegramModel { token: token@, allowed_chats: chats@ }),
                ..config_in(opt_str(file))
            },
        ),
{
    let mut config = read_file_config(file);
    config.telegram = Some(TelegramBotConfig { token: token.to_owned(), allowed_chats: chats });
    render_file_config(&config)
}

/// The file text with a chat paired, and whether the chat is new. Fails where
/// no bot token is configured.
pub fn pair_telegram_chat(file: Option<&str>, chat_id: i64) -> (r: Result<(String, bool), String>)
    ensures
        match config_in(opt_str(file)).telegram {
            Some(t) => r matches Ok((out, inserted)) && inserted == !t.allowed_chats.contains(chat_id)
                && out@ == rendered(
                FileModel {
                    telegram: Some(
                        TelegramModel { allowed_chats: t.allowed_chats.insert(chat_id), ..t },
                    ),
                    ..config_in(opt_str(file))
                },
            ),
            None => r matches Err(e) && e@ == "telegram bot token is not configured"@,
        },
{
    broadcast use vstd::std_specs::btree::group_btree_axioms;

    let mut config = read_file_config(file);
    let mut telegram = match config.telegram {
        Some(t) => t,
        None => {
            return Err("telegram bot token is not configured".to_owned());
        },
    };
    let inserted = telegram.allowed_chats.insert(chat_id);
    config.telegram = Some(telegram);
    Ok((render_file_config(&config), inserted))
}

/// The file text with a chat unpaired, and whether the chat was paired. Fails
/// where no bot token is configured.
pub fn unpair_telegram_chat(file: Option<&str>, chat_id: i64) -> (r: Result<(String, bool), String>)
    ensures
        match config_in(opt_str(file)).telegram {
            Some(t) => r matches Ok((out, removed)) && removed == t.allowed_chats.contains(chat_id)
                && out@ == rendered(
                FileModel {
                    telegram: Some(
                        TelegramModel { allowed_chats: t.allowed_chats.remove(chat_id), ..t },
                    ),
                    ..config_in(opt_str(file))
                },
            ),
            None => r matches Err(e) && e@ == "telegram bot token is not configured"@,
        },
{
    broadcast use vstd::std_specs::btree::group_btree_axioms;

    let mut config = read_file_config(file);
    let mut telegram = match config.telegram {
        Some(t) => t,
        None => {
            return Err("telegram bot token is not configured".to_owned());
        },
    };
    let removed = telegram.allowed_chats.remove(&chat_id);
    config.telegram = Some(telegram);
    Ok((render_file_config(&config), removed))
}

/// The file text with the advisor's model set. A first advisor starts in trial
/// mode without routing rules.
pub fn write_advisor_agent(
    file: Option<&str>,
    provider: &str,
    url: &str,
    model: &str,
    api_key: Option<&str>,
) -> (r: String)
    ensures
        r@ == rendered(
            with_advisor_agent(
                config_in(opt_str(file)),
                provider@,
                url@,
                model@,
                opt_str(api_key),
            ),
        ),
{
    let mut config = read_file_config(file);
    let agent = LlmConfig {
        provider: provider.to_owned(),
        url: url.to_owned(),
        model: model.to_owned(),
        api_key: keep_given(api_key),
        thinking: false,
    };
    config.advisor = Some(
        match config.advisor {
            Some(existing) => AdvisorConfig {
                mode: existing.mode,
                agent,
                routing: existing.routing,
            },
            None => AdvisorConfig::new(agent),
        },
    );
    render_file_config(&config)
}

/// The file text with the advisor's mode set. Fails where no advisor is
/// configured.
pub fn write_advisor_mode(file: Option<&str>, mode: AdvisorMode) -> (r: Result<String, String>)
    ensures
        match config_in(opt_str(file)).advisor {
            Some(a) => r matches Ok(out) && out@ == rendered(
                FileModel {
                    advisor: Some(AdvisorModel { mode, ..a }),
                    ..config_in(opt_str(file))
                },
            ),
            None => r matches Err(e) && e@ == "advisor agent is not configured"@,
        },
{
    let mut config = read_file_config(file);
    match config.advisor {
        Some(existing) => {
            config.advisor = Some(AdvisorConfig { mode, ..existing });
            Ok(render_file_config(&config))
        },
        None => Err("advisor agent is not configured".to_owned()),
    }
}

/// The file text with one routing rule set. Fails where no advisor is
/// configured.
pub fn write_advisor_route(
    file: Option<&str>,
    class: MessageClass,
    choice: AgentChoice,
) -> (r: Result<String, String>)
    ensures
        match config_in(opt_str(file)).advisor {
            Some(a) => r matches Ok(out) && out@ == rendered(
                FileModel {
                    advisor: Some(AdvisorModel { routing: a.routing.with(class, Some(choice)), ..a }),
                    ..config_in(opt_str(file))
                },
            ),
            None => r matches Err(e) && e@ == "advisor agent is not configured"@,
        },
{
    let mut config = read_file_config(file);
    match config.advisor {
        Some(existing) => {
            let mut routing = existing.routing;
            routing.insert(class, choice);
            config.advisor = Some(AdvisorConfig { routing, ..existing });
            Ok(render_file_config(&config))
        },
        None => Err("advisor agent is not configured".to_owned()),
    }
}

/// The file text without the advisor.
pub fn clear_advisor(file: Option<&str>) -> (r: String)
    ensures
        r@ == rendered(FileModel { advisor: None, ..config_in(opt_str(file)) }),
{
    let mut config = read_file_config(file);
    config.advisor = None;
    render_file_config(&config)
}

// ---------------------------------------------------------------------------
// The environment
// ---------------------------------------------------------------------------

/// The environment variables that settings are taken from, where they are set.
#[derive(Debug)]
pub struct Environment {
    pub allow_exec: Option<String>,
    pub exec_allowlist: Option<String>,
    pub telegram_token: Option<String>,
    pub telegram_chats: Option<String>,
    pub llm_provider: Option<String>,
    pub llm_url: Option<String>,
    pub llm_model: Option<String>,
    pub llm_api_key: Option<String>,
    pub llm_thinking: Option<String>,
}

/// The spellings of yes.
pub open spec fn is_yes(s: Seq<char>) -> bool {
    s == "1"@ || s == "true"@ || s == "TRUE"@ || s == "yes"@ || s == "YES"@
}

/// The parts of a comma-separated list, trimmed, without empty ones.
pub open spec fn list_items(s: Seq<char>) -> Seq<Seq<char>> {
    chars::pieces(s, CharSet::Only(',')).map_values(|p: Seq<char>| chars::trim(p)).filter(
        chars::at_least(1),
    )
}

/// The model that the environment names: provider, address and model are
/// required.
pub open spec fn env_llm(env: Environment) -> Option<LlmModel> {
    match (env.llm_provider, env.llm_url, env.llm_model) {
        (Some(provider), Some(url), Some(model)) => Some(
            LlmModel {
                provider: provider@,
                url: url@,
                model: model@,
                api_key: given(chars::opt_text(env.llm_api_key)),
                thinking: env.llm_thinking matches Some(v) && is_yes(v@),
            },
        ),
        _ => None,
    }
}

pub fn yes(s: &str) -> (r: bool)
    ensures
        r == is_yes(s@),
{
    text::same(s, "1") || text::same(s, "true") || text::same(s, "TRUE") || text::same(s, "yes")
        || text::same(s, "YES")
}

/// The parts of a comma-separated list.
pub fn parse_list(s: &str) -> (r: Vec<String>)
    ensures
        chars::owned_texts(r@) == list_items(s@),
{
    let parts = text::pieces(s, CharSet::Only(','));
    let ghost all = chars::texts(parts@).map_values(|p: Seq<char>| chars::trim(p));
    let mut out: Vec<String> = Vec::new();
    let mut i: usize = 0;
    proof {
        reveal(Seq::filter);
        assert(all.take(0) =~= Seq::empty());
        assert(chars::owned_texts(out@) =~= Seq::empty());
    }
    while i < parts.len()
        invariant
            i <= parts.len(),
            all == chars::texts(parts@).map_values(|p: Seq<char>| chars::trim(p)),
            chars::owned_texts(out@) == all.take(i as int).filter(chars::at_least(1)),
        decreases parts.len() - i,
    {
        proof {
            reveal(Seq::filter);
            assert(all.take(i + 1).drop_last() =~= all.take(i as int));
        }
        let part = text::trim(parts[i]);
        if part.unicode_len() > 0 {
            let ghost before = chars::owned_texts(out@);
            out.push(part.to_owned());
            assert(chars::owned_texts(out@) =~= before.push(part@));
        }
        i += 1;
    }
    assert(all.take(i as int) =~= all);
    out
}

fn env_llm_config(env: &Environment) -> (r: Option<LlmConfig>)
    ensures
        opt_llm(r) == env_llm(*env),
{
    match (&env.llm_provider, &env.llm_url, &env.llm_model) {
        (Some(provider), Some(url), Some(model)) => {
            let api_key = match &env.llm_api_key {
                Some(k) => keep_given(Some(k.as_str())),
                None => None,
            };
            let thinking = match &env.llm_thinking {
                Some(v) => yes(v.as_str()),
                None => false,
            };
            Some(
                LlmConfig {
                    provider: provider.clone(),
                    url: url.clone(),
                    model: model.clone(),
                    api_key,
                    thinking,
                },
            )
        },
        _ => None,
    }
}

impl AgentConfig {
    /// The limits of a small machine: short history, capped files and output, no
    /// programs, and nothing configured beyond them.
    pub open spec fn is_constrained(self, workspace: Seq<char>) -> bool {
        &&& self.workspace@ == workspace
        &&& self.history_limit == 16
        &&& self.max_file_bytes == 16 * 1024
        &&& self.max_tool_output_bytes == 24 * 1024
        &&& self.tool_timeout == 10
        &&& !self.allow_exec
        &&& self.allowed_exec@.len() == 0
        &&& self.telegram_token is None
        &&& self.telegram_allowed_chats@ == Set::<i64>::empty()
        &&& self.primary_agent is None
        &&& self.advisor is None
    }

    pub fn constrained(workspace: String) -> (r: Self)
        ensures
            r.is_constrained(workspace@),
    {
        AgentConfig {
            workspace,
            history_limit: 16,
            max_file_bytes: 16 * 1024,
            max_tool_output_bytes: 24 * 1024,
            tool_timeout: 10,
            allow_exec: false,
            allowed_exec: Vec::new(),
            telegram_token: None,
            telegram_allowed_chats: BTreeSet::new(),
            primary_agent: None,
            advisor: None,
        }
    }

    /// The settings from the file's text and the environment. The environment
    /// has precedence for execution and Telegram, the file for the models.
    pub fn from_env(workspace: String, file: Option<&str>, env: &Environment) -> (r: Self)
        ensures
            r.workspace@ == workspace@,
            r.history_limit == 16,
            r.max_file_bytes == 16 * 1024,
            r.max_tool_output_bytes == 24 * 1024,
            r.tool_timeout == 10,
            r.allow_exec == (match env.allow_exec {
                Some(v) => is_yes(v@),
                None => false,
            }),
            chars::owned_texts(r.allowed_exec@) == (match env.exec_allowlist {
                Some(v) => chars::ordered_set(list_items(v@)),
                None => seq![],
            }),
            chars::opt_text(r.telegram_token) == (match env.telegram_token {
                Some(v) => Some(v@),
                None => match config_in(opt_str(file)).telegram {
                    Some(t) => Some(t.token),
                    None => None,
                },
            }),
            r.telegram_allowed_chats@ == (match env.telegram_chats {
                Some(v) => json::number_list(v@),
                None => match config_in(opt_str(file)).telegram {
                    Some(t) => t.allowed_chats,
                    None => Set::empty(),
                },
            }),
            opt_llm(r.primary_agent) == (match config_in(opt_str(file)).primary_agent {
                Some(llm) => Some(llm),
                None => env_llm(*env),
            }),
            opt_advisor(r.advisor) == config_in(opt_str(file)).advisor,
    {
        let mut config = AgentConfig::constrained(workspace);
        let file_config = read_file_config(file);
        match &env.allow_exec {
            Some(v) => {
                config.allow_exec = yes(v.as_str());
            },
            None => {},
        }
        match &env.exec_allowlist {
            Some(v) => {
                config.allowed_exec = text::ordered_set(&parse_list(v.as_str()));
            },
            None => {
                assert(chars::owned_texts(config.allowed_exec@) =~= seq![]);
            },
        }
        let mut token: Option<String> = None;
        match file_config.telegram {
            Some(telegram) => {
                token = Some(telegram.token);
                config.telegram_allowed_chats = telegram.allowed_chats;
            },
            None => {},
        }
        config.telegram_token = match &env.telegram_token {
            Some(v) => Some(v.clone()),
            None => token,
        };
        match &env.telegram_chats {
            Some(v) => {
                config.telegram_allowed_chats = json::parse_number_list(v.as_str());
            },
            None => {},
        }
        config.primary_agent = match file_config.primary_agent {
            Some(llm) => Some(llm),
            None => env_llm_config(env),
        };
        config.advisor = file_config.advisor;
        config
    }
}

/// A name under a directory.
pub open spec fn joined(base: Seq<char>, name: Seq<char>) -> Seq<char> {
    if base.len() == 0 {
        name
    } else if base.last() == '/' {
        base + name
    } else {
        base + "/"@ + name
    }
}

/// A relative name under a directory.
pub fn join_path(base: &str, name: &str) -> (r: String)
    ensures
        r@ == joined(base@, name@),
{
    let n: usize = base.unicode_len();
    let mut out = base.to_owned();
    if n > 0 && base.get_char(n - 1) != '/' {
        out.append("/");
    }
    out.append(name);
    assert(Seq::<char>::empty() + name@ =~= name@);
    proof {
        if n == 0 {
            assert(base@ + name@ =~= name@);
        }
    }
    out
}

/// The workspace directory: the one that is set, else `.minipaw` under the home
/// directory, else the current directory.
pub fn default_workspace(minipaw_home: Option<&str>, home: Option<&str>) -> (r: String)
    ensures
        r@ == (match minipaw_home {
            Some(dir) => dir@,
            None => match home {
                Some(h) => joined(h@, ".minipaw"@),
                None => "."@,
            },
        }),
{
    match minipaw_home {
        Some(dir) => dir.to_owned(),
        None => match home {
            Some(h) => join_path(h, ".minipaw"),
            None => ".".to_owned(),
        },
    }
}

}
