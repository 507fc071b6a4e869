//! Language models: the conversation interface, the offline stand-in, and the
//! requests and replies of an OpenAI-compatible server.
use vstd::prelude::*;

use crate::chars;
use crate::chars::CharSet;
use crate::config::{LlmConfig, LlmModel};
use crate::json;
use crate::numbers;
use crate::text;

verus! {

#[derive(Debug)]
pub struct ChatMessage {
    pub role: String,
    pub content: String,
}

/// The contents of one message of a conversation.
pub ghost struct Turn {
    pub role: Seq<char>,
    pub content: Seq<char>,
}

impl View for ChatMessage {
    type V = Turn;

    open spec fn view(&self) -> Turn {
        Turn { role: self.role@, content: self.content@ }
    }
}

impl Turn {
    pub open spec fn user(content: Seq<char>) -> Turn {
        Turn { role: "user"@, content }
    }

    pub open spec fn assistant(content: Seq<char>) -> Turn {
        Turn { role: "assistant"@, content }
    }
}

/// The contents of a conversation.
pub open spec fn turns(messages: Seq<ChatMessage>) -> Seq<Turn> {
    messages.map_values(|m: ChatMessage| m@)
}

impl ChatMessage {
    pub fn user(content: &str) -> (r: Self)
        ensures
            r@ == Turn::user(content@),
    {
        ChatMessage { role: "user".to_owned(), content: content.to_owned() }
    }

    pub fn assistant(content: &str) -> (r: Self)
        ensures
            r@ == Turn::assistant(content@),
    {
        ChatMessage { role: "assistant".to_owned(), content: content.to_owned() }
    }
}

impl Clone for ChatMessage {
    fn clone(&self) -> (r: Self)
        ensures
            r == *self,
    {
        ChatMessage { role: self.role.clone(), content: self.content.clone() }
    }
}

/// The system prompt of a single-turn request.
pub open spec fn single_turn_system() -> Seq<char> {
    "You are minipaw, a small-footprint AI agent."@
}

/// A language model. What a model answers is described by a relation that each
/// implementation defines.
pub trait LlmClient: Sized {
    /// The model, asked under a system prompt with a conversation, went from one
    /// state to another and gave the reply.
    open spec fn replied(
        pre: Self,
        post: Self,
        system: Seq<char>,
        messages: Seq<Turn>,
        reply: Seq<char>,
    ) -> bool {
        true
    }

    /// Asks with an explicit system prompt and the conversation so far.
    fn chat(&mut self, system: &str, messages: &[ChatMessage]) -> (reply: String)
        ensures
            Self::replied(*old(self), *final(self), system@, turns(messages@), reply@),
    ;

    /// Asks one question.
    fn next_step(&mut self, prompt: &str) -> (reply: String)
        ensures
            Self::replied(
                *old(self),
                *final(self),
                single_turn_system(),
                seq![Turn::user(prompt@)],
                reply@,
            ),
    {
        let mut messages: Vec<ChatMessage> = Vec::new();
        messages.push(ChatMessage::user(prompt));
        assert(turns(messages@) =~= seq![Turn::user(prompt@)]);
        self.chat("You are minipaw, a small-footprint AI agent.", messages.as_slice())
    }
}

/// One request to a model and its reply.
pub ghost struct ChatCall {
    pub system: Seq<char>,
    pub messages: Seq<Turn>,
    pub reply: Seq<char>,
}

/// The requests, one after the other, took the model from `pre` to `post`.
pub open spec fn conversed<L: LlmClient>(pre: L, calls: Seq<ChatCall>, post: L) -> bool
    decreases calls.len(),
{
    if calls.len() == 0 {
        pre == post
    } else {
        exists|mid: L|
            conversed(pre, calls.drop_last(), mid) && #[trigger] L::replied(
                mid,
                post,
                calls.last().system,
                calls.last().messages,
                calls.last().reply,
            )
    }
}

pub proof fn lemma_conversed_push<L: LlmClient>(
    pre: L,
    calls: Seq<ChatCall>,
    mid: L,
    call: ChatCall,
    post: L,
)
    requires
        conversed(pre, calls, mid),
        L::replied(mid, post, call.system, call.messages, call.reply),
    ensures
        conversed(pre, calls.push(call), post),
{
    let all = calls.push(call);
    assert(all.drop_last() =~= calls);
    assert(all.last() == call);
    assert(conversed(pre, all.drop_last(), mid));
}

pub proof fn lemma_conversed_concat<L: LlmClient>(
    pre: L,
    first: Seq<ChatCall>,
    mid: L,
    second: Seq<ChatCall>,
    post: L,
)
    requires
        conversed(pre, first, mid),
        conversed(mid, second, post),
    ensures
        conversed(pre, first + second, post),
    decreases second.len(),
{
    if second.len() == 0 {
        assert(first + second =~= first);
    } else {
        let c = second.last();
        let last = choose|last: L|
            conversed(mid, second.drop_last(), last) && #[trigger] L::replied(
                last,
                post,
                c.system,
                c.messages,
                c.reply,
            );
        lemma_conversed_concat(pre, first, mid, second.drop_last(), last);
        lemma_conversed_push(pre, first + second.drop_last(), last, c, post);
        assert((first + second.drop_last()).push(c) =~= first + second);
    }
}

/// The replies of a sequence of requests.
pub open spec fn replies(calls: Seq<ChatCall>) -> Seq<Seq<char>> {
    calls.map_values(|c: ChatCall| c.reply)
}

/// Stands in where no model is configured.
#[derive(Debug)]
pub struct OfflineLlm;

/// What the stand-in answers: the last message, and that there is no model.
pub open spec fn offline_reply(messages: Seq<Turn>) -> Seq<char> {
    "offline planner noted: "@ + (if messages.len() > 0 {
        messages.last().content
    } else {
        ""@
    }) + "\nNo LLM provider is configured in this minimal build."@
}

impl LlmClient for OfflineLlm {
    open spec fn replied(
        pre: Self,
        post: Self,
        system: Seq<char>,
        messages: Seq<Turn>,
        reply: Seq<char>,
    ) -> bool {
        pre == post && reply == offline_reply(messages)
    }

    fn chat(&mut self, _system: &str, messages: &[ChatMessage]) -> (reply: String) {
        let n: usize = messages.len();
        let last = if n > 0 {
            messages[n - 1].content.as_str()
        } else {
            ""
        };
        let mut out = "offline planner noted: ".to_owned();
        out.append(last);
        out.append("\nNo LLM provider is configured in this minimal build.");
        out
    }
}

// ---------------------------------------------------------------------------
// The server's address
// ---------------------------------------------------------------------------

#[derive(Debug)]
pub struct HttpEndpoint {
    pub scheme: String,
    pub host: String,
    pub port: u16,
    pub base_path: String,
}

/// The parts of a server's address.
pub ghost struct EndpointModel {
    pub scheme: Seq<char>,
    pub host: Seq<char>,
    pub port: nat,
    pub base_path: Seq<char>,
}

impl View for HttpEndpoint {
    type V = EndpointModel;

    open spec fn view(&self) -> EndpointModel {
        EndpointModel {
            scheme: self.scheme@,
            host: self.host@,
            port: self.port as nat,
            base_path: self.base_path@,
        }
    }
}

/// Host and port of an authority: a number behind the last colon is the port,
/// else the whole is the host and the scheme gives the port.
pub open spec fn host_and_port(authority: Seq<char>, scheme: Seq<char>) -> (Seq<char>, nat) {
    let whole = (
        authority,
        if scheme == "https"@ {
            443nat
        } else {
            80nat
        },
    );
    match chars::last_index(authority, ':') {
        Some(i) => match numbers::unsigned_value(authority.skip((i + 1) as int), 10, 65535) {
            Ok(port) => (authority.take(i as int), port),
            Err(_) => whole,
        },
        None => whole,
    }
}

/// The parts of an address `scheme://host[:port][/path]`.
pub open spec fn endpoint_of(url: Seq<char>) -> Result<EndpointModel, Seq<char>> {
    match chars::around(url, "://"@) {
        None => Err("llm url must include scheme"@),
        Some((scheme, rest)) => {
            let (authority, base) = match chars::around(rest, "/"@) {
                Some((a, b)) => (a, b),
                None => (rest, seq![]),
            };
            let (host, port) = host_and_port(authority, scheme);
            if host.len() == 0 {
                Err("llm url host is empty"@)
            } else {
                Ok(
                    EndpointModel {
                        scheme,
                        host,
                        port,
                        base_path: if base.len() == 0 {
                            seq![]
                        } else {
                            "/"@ + base
                        },
                    },
                )
            }
        },
    }
}

impl HttpEndpoint {
    pub fn parse(url: &str) -> (r: Result<HttpEndpoint, String>)
        ensures
            match r {
                Ok(e) => endpoint_of(url@) == Ok::<EndpointModel, Seq<char>>(e@),
                Err(m) => endpoint_of(url@) == Err::<EndpointModel, Seq<char>>(m@),
            },
    {
        let (scheme, rest) = match text::around(url, "://") {
            Some(parts) => parts,
            None => {
                return Err("llm url must include scheme".to_owned());
            },
        };
        let (authority, base) = match text::around(rest, "/") {
            Some(parts) => parts,
            None => {
                proof {
                    reveal_strlit("");
                    assert(""@ =~= seq![]);
                }
                (rest, "")
            },
        };
        let mut host = authority;
        let mut port: u16 = if text::same(scheme, "https") {
            443
        } else {
            80
        };
        match text::last_index(authority, ':') {
            Some(i) => {
                let n: usize = authority.unicode_len();
                let tail = authority.substring_char(i + 1, n);
                assert(tail@ =~= authority@.skip(i + 1));
                match numbers::parse_unsigned(tail, 10, 65535) {
                    Ok(p) => {
                        host = authority.substring_char(0, i);
                        assert(host@ =~= authority@.take(i as int));
                        port = p as u16;
                    },
                    Err(_) => {},
                }
            },
            None => {},
        }
        if host.unicode_len() == 0 {
            return Err("llm url host is empty".to_owned());
        }
        let base_path = if base.unicode_len() == 0 {
            assert(Seq::<char>::empty() =~= seq![]);
            String::new()
        } else {
            "/".to_owned().concat(base)
        };
        Ok(HttpEndpoint { scheme: scheme.to_owned(), host: host.to_owned(), port, base_path })
    }
}

/// A path under a base path.
pub open spec fn path_under(base: Seq<char>, path: Seq<char>) -> Seq<char> {
    if base.len() == 0 {
        path
    } else {
        chars::drop_trailing(base, CharSet::Only('/')) + path
    }
}

pub fn join_path(base: &str, path: &str) -> (r: String)
    ensures
        r@ == path_under(base@, path@),
{
    if base.unicode_len() == 0 {
        path.to_owned()
    } else {
        text::drop_trailing(base, CharSet::Only('/')).to_owned().concat(path)
    }
}

// ---------------------------------------------------------------------------
// Replies
// ---------------------------------------------------------------------------

/// `s` without its `<think>` blocks; an unclosed block reaches to the end.
pub open spec fn without_thinking(s: Seq<char>) -> Seq<char>
    decreases s.len(),
{
    match chars::around(s, "<think>"@) {
        None => s,
        Some((head, inner)) => match chars::around(inner, "</think>"@) {
            None => head,
            Some((_, rest)) => if rest.len() < s.len() {
                head + without_thinking(rest)
            } else {
                head
            },
        },
    }
}

/// The value, where it is not blank.
pub open spec fn not_blank(v: Option<Seq<char>>) -> Option<Seq<char>> {
    match v {
        Some(c) => if chars::trim(c).len() > 0 {
            Some(c)
        } else {
            None
        },
        None => None,
    }
}

/// The content of the reply's message, else the first content there is.
pub open spec fn chat_content(s: Seq<char>) -> Option<Seq<char>> {
    let in_message = match chars::find(s, "\"message\""@) {
        Some(p) => not_blank(json::string_value(s.skip(p as int), "content"@)),
        None => None,
    };
    match in_message {
        Some(c) => Some(c),
        None => not_blank(json::string_value(s, "content"@)),
    }
}

/// The answer in a server's reply: its content without thinking.
pub open spec fn completion_of(response: Seq<char>) -> Result<Seq<char>, Seq<char>> {
    let none = Err("llm response did not contain completion text"@);
    match chat_content(response) {
        Some(c) => {
            let answer = chars::trim(without_thinking(chars::trim(c)));
            if chars::trim(answer).len() > 0 {
                Ok(answer)
            } else {
                none
            }
        },
        None => none,
    }
}

pub fn strip_think_blocks(s: &str) -> (r: String)
    ensures
        r@ == chars::trim(without_thinking(s@)),
{
    let mut out = String::new();
    let mut rest = s;
    assert(out@ + without_thinking(s@) =~= without_thinking(s@));
    loop
        invariant_except_break
            without_thinking(s@) == out@ + without_thinking(rest@),
        ensures
            out@ == without_thinking(s@),
        decreases rest@.len(),
    {
        let ghost before = out@;
        proof {
            reveal_strlit("<think>");
            reveal_strlit("</think>");
            chars::lemma_find(rest@, "<think>"@);
        }
        match text::around(rest, "<think>") {
            None => {
                out.append(rest);
                break;
            },
            Some((head, inner)) => {
                out.append(head);
                proof {
                    chars::lemma_find(inner@, "</think>"@);
                }
                match text::around(inner, "</think>") {
                    None => {
                        break;
                    },
                    Some((_, tail)) => {
                        assert(before + (head@ + without_thinking(tail@)) =~= out@
                            + without_thinking(tail@));
                        rest = tail;
                    },
                }
            },
        }
    }
    text::trim(out.as_str()).to_owned()
}

fn keep_not_blank(v: Option<String>) -> (r: Option<String>)
    ensures
        chars::opt_text(r) == not_blank(chars::opt_text(v)),
{
    match v {
        Some(c) => if text::trim(c.as_str()).unicode_len() > 0 {
            Some(c)
        } else {
            None
        },
        None => None,
    }
}

pub fn extract_chat_content(s: &str) -> (r: Option<String>)
    ensures
        chars::opt_text(r) == chat_content(s@),
{
    match text::find(s, "\"message\"") {
        Some(p) => {
            let n: usize = s.unicode_len();
            let from = s.substring_char(p, n);
            assert(from@ =~= s@.skip(p as int));
            let found = keep_not_blank(json::extract_json_string(from, "content"));
            if found.is_some() {
                return found;
            }
        },
        None => {},
    }
    keep_not_blank(json::extract_json_string(s, "content"))
}

/// The answer in a server's reply.
pub fn completion(response: &str) -> (r: Result<String, String>)
    ensures
        match r {
            Ok(s) => completion_of(response@) == Ok::<Seq<char>, Seq<char>>(s@),
            Err(e) => completion_of(response@) == Err::<Seq<char>, Seq<char>>(e@),
        },
{
    match extract_chat_content(response) {
        Some(c) => {
            let answer = strip_think_blocks(text::trim(c.as_str()));
            if text::trim(answer.as_str()).unicode_len() > 0 {
                Ok(answer)
            } else {
                Err("llm response did not contain completion text".to_owned())
            }
        },
        None => Err("llm response did not contain completion text".to_owned()),
    }
}

/// The reply that callers see for the outcome of a request.
pub fn reply_for(outcome: Result<String, String>) -> (r: String)
    ensures
        r@ == (match outcome {
            Ok(s) => s@,
            Err(e) => "llm request failed: "@ + e@,
        }),
{
    match outcome {
        Ok(s) => s,
        Err(e) => "llm request failed: ".to_owned().concat(e.as_str()),
    }
}

// ---------------------------------------------------------------------------
// Requests
// ---------------------------------------------------------------------------

/// A client of an OpenAI-compatible server. `timeout` is in seconds.
#[derive(Debug)]
pub struct LlamaCppClient {
    endpoint: HttpEndpoint,
    model: String,
    api_key: Option<String>,
    thinking: bool,
    timeout: u64,
}

/// The settings of a client.
pub ghost struct ClientModel {
    pub endpoint: EndpointModel,
    pub model: Seq<char>,
    pub api_key: Option<Seq<char>>,
    pub thinking: bool,
    pub timeout: nat,
}

impl View for LlamaCppClient {
    type V = ClientModel;

    closed spec fn view(&self) -> ClientModel {
        ClientModel {
            endpoint: self.endpoint@,
            model: self.model@,
            api_key: chars::opt_text(self.api_key),
            thinking: self.thinking,
            timeout: self.timeout as nat,
        }
    }
}

/// The providers that speak the server's protocol.
pub open spec fn is_supported(provider: Seq<char>) -> bool {
    provider == "llamacpp"@ || provider == "deepseek"@ || provider == "openai"@
}

/// The client for a model's settings: a supported provider, an address whose
/// path is `/v1` where none is given, and a key that is not blank.
pub open spec fn client_of(c: LlmModel) -> Result<ClientModel, Seq<char>> {
    if !is_supported(c.provider) {
        Err("unsupported provider: "@ + c.provider)
    } else {
        match endpoint_of(c.url) {
            Err(e) => Err(e),
            Ok(e) => Ok(
                ClientModel {
                    endpoint: EndpointModel {
                        base_path: if e.base_path.len() == 0 {
                            "/v1"@
                        } else {
                            e.base_path
                        },
                        ..e
                    },
                    model: c.model,
                    api_key: not_blank(c.api_key),
                    thinking: c.thinking,
                    timeout: 300,
                },
            ),
        }
    }
}

/// One message of a request. The role of the system prompt needs no escapes.
pub open spec fn message_json(role: Seq<char>, content: Seq<char>) -> Seq<char> {
    "{\"role\":\""@ + role + "\",\"content\":\""@ + json::escaped(content) + "\"}"@
}

/// The messages of a request: the system prompt, where it is not empty, and the
/// conversation.
pub open spec fn messages_json(system: Seq<char>, messages: Seq<Turn>) -> Seq<Seq<char>> {
    let head = if system.len() == 0 {
        seq![]
    } else {
        seq![message_json("system"@, system)]
    };
    head + messages.map_values(|t: Turn| message_json(json::escaped(t.role), t.content))
}

/// The body of a chat request.
pub open spec fn request_body(c: ClientModel, system: Seq<char>, messages: Seq<Turn>) -> Seq<char> {
    "{\"model\":\""@ + json::escaped(c.model) + "\",\"messages\":["@ + chars::join(
        messages_json(system, messages),
        ","@,
    ) + "],\"max_tokens\":"@ + (if c.thinking {
        "16384"@
    } else {
        "32768"@
    }) + ",\"temperature\":"@ + (if c.thinking {
        "1.0"@
    } else {
        "0.2"@
    }) + ",\"chat_template_kwargs\":{\"enable_thinking\":"@ + chars::bool_text(c.thinking) + "}}"@
}

fn message_text(role: &str, content: &str) -> (r: String)
    ensures
        r@ == message_json(role@, content@),
{
    let mut out = "{\"role\":\"".to_owned();
    out.append(role);
    out.append("\",\"content\":\"");
    out.append(json::json_escape(content).as_str());
    out.append("\"}");
    out
}

impl LlamaCppClient {
    pub fn from_config(config: &LlmConfig) -> (r: Result<LlamaCppClient, String>)
        ensures
            match r {
                Ok(c) => client_of(config@) == Ok::<ClientModel, Seq<char>>(c@),
                Err(e) => client_of(config@) == Err::<ClientModel, Seq<char>>(e@),
            },
    {
        let p = config.provider.as_str();
        if !(text::same(p, "llamacpp") || text::same(p, "deepseek") || text::same(p, "openai")) {
            return Err("unsupported provider: ".to_owned().concat(p));
        }
        let mut endpoint = match HttpEndpoint::parse(config.url.as_str()) {
            Ok(e) => e,
            Err(e) => {
                return Err(e);
            },
        };
        if endpoint.base_path.as_str().unicode_len() == 0 {
            endpoint.base_path = "/v1".to_owned();
        }
        Ok(
            LlamaCppClient {
                endpoint,
                model: config.model.clone(),
                api_key: keep_not_blank(text::copy_opt(&config.api_key)),
                thinking: config.thinking,
                timeout: 300,
            },
        )
    }

    pub fn model(&self) -> (r: &str)
        ensures
            r@ == self@.model,
    {
        self.model.as_str()
    }

    pub fn endpoint(&self) -> (r: &HttpEndpoint)
        ensures
            r@ == self@.endpoint,
    {
        &self.endpoint
    }

    pub fn timeout(&self) -> (r: u64)
        ensures
            r == self@.timeout,
    {
        self.timeout
    }

    /// The path of chat requests.
    pub fn chat_path(&self) -> (r: String)
        ensures
            r@ == path_under(self@.endpoint.base_path, "/chat/completions"@),
    {
        join_path(self.endpoint.base_path.as_str(), "/chat/completions")
    }

    /// The value of the authorization header, where there is a key.
    pub fn authorization(&self) -> (r: Option<String>)
        ensures
            match self@.api_key {
                Some(key) => r matches Some(v) && v@ == "Bearer "@ + key,
                None => r is None,
            },
    {
        match &self.api_key {
            Some(key) => Some("Bearer ".to_owned().concat(key.as_str())),
            None => None,
        }
    }

    /// The body of a chat request.
    pub fn chat_body(&self, system: &str, messages: &[ChatMessage]) -> (r: String)
        ensures
            r@ == request_body(self@, system@, turns(messages@)),
    {
        let mut items: Vec<String> = Vec::new();
        if system.unicode_len() > 0 {
            items.push(message_text("system", system));
        }
        let ghost head = chars::owned_texts(items@);
        let ghost want = turns(messages@).map_values(
            |t: Turn| message_json(json::escaped(t.role), t.content),
        );
        assert(head + want =~= messages_json(system@, turns(messages@)));
        assert(head + want.take(0) =~= head);
        let mut i: usize = 0;
        while i < messages.len()
            invariant
                i <= messages.len(),
                want == turns(messages@).map_values(
                    |t: Turn| message_json(json::escaped(t.role), t.content),
                ),
                chars::owned_texts(items@) == head + want.take(i as int),
            decreases messages.len() - i,
        {
            let ghost before = chars::owned_texts(items@);
            let role = json::json_escape(messages[i].role.as_str());
            items.push(message_text(role.as_str(), messages[i].content.as_str()));
            assert(chars::owned_texts(items@) =~= before.push(want[i as int]));
            assert(head + want.take(i + 1) =~= before.push(want[i as int]));
            i += 1;
        }
        assert(want.take(i as int) =~= want);
        let mut body = "{\"model\":\"".to_owned();
        body.append(json::json_escape(self.model.as_str()).as_str());
        body.append("\",\"messages\":[");
        body.append(text::join_owned(&items, ",").as_str());
        body.append("],\"max_tokens\":");
        if self.thinking {
            body.append("16384");
        } else {
            body.append("32768");
        }
        body.append(",\"temperature\":");
        if self.thinking {
            body.append("1.0");
        } else {
            body.append("0.2");
        }
        body.append(",\"chat_template_kwargs\":{\"enable_thinking\":");
        body.append(text::bool_text(self.thinking));
        body.append("}}");
        body
    }
}

}
