//! Promises of the gateway and of the Telegram runner: how their options and lines
//! are read, and what becomes of every message.
use vstd::prelude::*;

use crate::channels::telegram::{pairing_instructions, TelegramMessage};
use crate::chars;
use crate::chars::CharSet;
use crate::cli::{chat_reply, chats_text, compact, is_not_found, token_fault, LineModel, ReplyModel};
use crate::cli::gateway::{
    chat_address, chat_session, delivery_line, event_in, event_line, gateway_options,
    gateway_start_reply, line_meaning, model_text, poll_failure, routed_text, simulate_options,
    start_lines, telegram_start_reply, timeout_of, EventModel, GatewayArgsModel, GatewayLineModel,
    GatewayOptions, LoopStep,
};
use crate::cli::loops::{
    offset_behind, update_line, GatewayModel, RunnerModel, RunnerStageModel, StageModel,
};
use crate::config::AgentConfig;
use crate::laws::terminal::said;
use crate::laws::texts::{lemma_around_first, lemma_part, occurs};
use crate::numbers;
use crate::types::MessageClass;

verus! {

// ---------------------------------------------------------------------------
// Options
// ---------------------------------------------------------------------------

/// A number sets the timeout, kept between 1 and 25.
pub proof fn law_timeout_is_kept_in_bounds(n: nat)
    requires
        n <= u64::MAX,
    ensures
        1 <= n <= 25 ==> timeout_of(numbers::decimal(n)) == n,
        n < 1 ==> timeout_of(numbers::decimal(n)) == 1,
        n > 25 ==> timeout_of(numbers::decimal(n)) == 25,
{
    numbers::law_decimal_round_trip(n, u64::MAX as nat);
}

/// Each option changes its own setting and no other, and the options behind it are
/// read on; what is no option ends the reading with an error that names it.
pub proof fn law_options_are_read_one_by_one(args: Seq<Seq<char>>, i: int, o: GatewayOptions)
    requires
        0 <= i < args.len(),
    ensures
        args[i] == "--once"@ ==> gateway_options(args, i, o) == gateway_options(
            args,
            i + 1,
            GatewayOptions { once: true, read_stdin: o.read_stdin, poll_timeout: o.poll_timeout },
        ),
        args[i] == "--no-stdin"@ ==> gateway_options(args, i, o) == gateway_options(
            args,
            i + 1,
            GatewayOptions { once: o.once, read_stdin: false, poll_timeout: o.poll_timeout },
        ),
        args[i] == "--poll-timeout"@ && i + 1 < args.len() ==> gateway_options(args, i, o)
            == gateway_options(
            args,
            i + 2,
            GatewayOptions {
                once: o.once,
                read_stdin: o.read_stdin,
                poll_timeout: timeout_of(args[i + 1]),
            },
        ),
        args[i] != "--once"@ && args[i] != "--no-stdin"@ && args[i] != "--poll-timeout"@ && args[i]
            != "--help"@ && args[i] != "-h"@ ==> (gateway_options(
            args,
            i,
            o,
        ) matches GatewayArgsModel::Exit(r) && r.code == 2 && occurs(said(r.lines[0]), args[i])),
        gateway_options(args, args.len() as int, o) == GatewayArgsModel::Run(o),
{
    reveal_strlit("--once");
    reveal_strlit("--no-stdin");
    reveal_strlit("--poll-timeout");
    assert("--once"@.len() == 6 && "--no-stdin"@.len() == 10 && "--poll-timeout"@.len() == 14);
    lemma_part("unknown gateway run option: "@, args[i], seq![]);
    assert("unknown gateway run option: "@ + args[i] + Seq::<char>::empty()
        =~= "unknown gateway run option: "@ + args[i]);
}

// ---------------------------------------------------------------------------
// Lines
// ---------------------------------------------------------------------------

/// A line with a channel, a sender and a text is an event: the text is all that
/// follows the sender, but for white space around it.
pub proof fn law_events_read_back(id: int, key: Seq<char>, body: Seq<char>)
    requires
        i64::MIN <= id <= i64::MAX,
        key.len() > 0,
        forall|i: int| 0 <= i < key.len() ==> !chars::is_white(#[trigger] key[i]),
        body.len() > 0,
        !chars::is_white(body[0]),
        !chars::is_white(body.last()),
    ensures
        event_in("telegram"@ + " "@ + (numbers::signed(id) + " "@ + body)) == Some(
            EventModel::Telegram { chat_id: id, text: body },
        ),
        event_in("tg"@ + " "@ + (numbers::signed(id) + " "@ + body)) == Some(
            EventModel::Telegram { chat_id: id, text: body },
        ),
        event_in("agent"@ + " "@ + (key + " "@ + body)) == Some(
            EventModel::Agent { session_key: key, text: body },
        ),
{
    reveal_strlit(" ");
    reveal_strlit("telegram");
    reveal_strlit("tg");
    reveal_strlit("agent");
    let n = numbers::signed(id);
    numbers::lemma_signed_chars(id);
    numbers::law_signed_round_trip(id);
    assert(!n.contains(' ')) by {
        if n.contains(' ') {
            let i = n.index_of(' ');
            assert(n[i] == ' ');
        }
    }
    assert(!key.contains(' ')) by {
        if key.contains(' ') {
            let i = key.index_of(' ');
            assert(chars::is_white(key[i]));
        }
    }
    assert(!chars::is_white(n[0]) && !chars::is_white(n[n.len() - 1]));
    assert(!chars::is_white(key[0]) && !chars::is_white(key[key.len() - 1]));
    lemma_event("telegram"@, n, body);
    lemma_event("tg"@, n, body);
    lemma_event("agent"@, key, body);
    lemma_trimmed(key);
    lemma_trimmed(body);
    assert("agent"@.len() == 5 && "tg"@.len() == 2 && "telegram"@.len() == 8);
}

proof fn lemma_trimmed(s: Seq<char>)
    requires
        s.len() > 0,
        !chars::is_white(s[0]),
        !chars::is_white(s.last()),
    ensures
        chars::trim(s) == s,
{
    chars::lemma_drop_leading_is(s, CharSet::White, 0);
    assert(s.skip(0) =~= s);
    chars::lemma_drop_trailing_is(s, CharSet::White, s.len() as int);
    assert(s.take(s.len() as int) =~= s);
}

proof fn lemma_event(kind: Seq<char>, from: Seq<char>, body: Seq<char>)
    requires
        !kind.contains(' '),
        !from.contains(' '),
        from.len() > 0,
        body.len() > 0,
        !chars::is_white(from[0]),
        !chars::is_white(body.last()),
    ensures
        chars::around(kind + " "@ + (from + " "@ + body), " "@) == Some(
            (kind, from + " "@ + body),
        ),
        chars::around(chars::trim(from + " "@ + body), " "@) == Some((from, body)),
{
    reveal_strlit(" ");
    let rest = from + " "@ + body;
    lemma_around_first(kind, " "@, rest);
    assert(rest[0] == from[0]);
    assert(rest.last() == body.last());
    lemma_trimmed(rest);
    lemma_around_first(from, " "@, body);
}

/// A line that is empty asks for nothing; one that is neither an event nor an end
/// is refused by name.
pub proof fn law_other_lines_are_refused(line: Seq<char>)
    ensures
        line_meaning(line) is Empty == (chars::trim(line).len() == 0),
        line_meaning(line) matches GatewayLineModel::Event(e) ==> event_in(chars::trim(line))
            == Some(e),
        line_meaning(line) matches GatewayLineModel::Malformed(lines) ==> event_in(
            chars::trim(line),
        ) is None && occurs(said(lines[0]), chars::trim(line)),
        line_meaning(line) is Quit ==> chars::trim(line) == "/quit"@ || chars::trim(line)
            == "/exit"@,
{
    let t = chars::trim(line);
    reveal_strlit("/quit");
    reveal_strlit("/exit");
    lemma_part("ignored malformed gateway event: "@, t, seq![]);
    assert("ignored malformed gateway event: "@ + t + Seq::<char>::empty()
        =~= "ignored malformed gateway event: "@ + t);
}

/// A failed poll is told with its error; it ends the loop where the token is not
/// known, and only there.
pub proof fn law_failed_polls_are_told(head: Seq<char>, error: Seq<char>, advise: bool)
    ensures
        occurs(said(poll_failure(head, error, advise).1[0]), error),
        poll_failure(head, error, advise).0 is Continue == !is_not_found(error),
        is_not_found(error) ==> poll_failure(head, error, advise).0 == LoopStep::Exit(2),
{
    lemma_part(head, error, seq![]);
    assert(head + error + Seq::<char>::empty() =~= head + error);
}

/// Every chat has a session and an address of its own.
pub proof fn law_chats_are_kept_apart(a: int, b: int)
    requires
        i64::MIN <= a <= i64::MAX,
        i64::MIN <= b <= i64::MAX,
        a != b,
    ensures
        chat_session(a) != chat_session(b),
        chat_address(a) != chat_address(b),
{
    numbers::law_signed_round_trip(a);
    numbers::law_signed_round_trip(b);
    let p = "agent:main:telegram:chat:"@;
    let q = "telegram:"@;
    assert(chat_session(a).skip(p.len() as int) =~= numbers::signed(a));
    assert(chat_session(b).skip(p.len() as int) =~= numbers::signed(b));
    assert(chat_address(a).skip(q.len() as int) =~= numbers::signed(a));
    assert(chat_address(b).skip(q.len() as int) =~= numbers::signed(b));
}

/// A message from another agent names the agent and has its text whole.
pub proof fn law_agent_messages_are_whole(session_key: Seq<char>, body: Seq<char>)
    ensures
        occurs(routed_text(session_key, body), session_key),
        routed_text(session_key, body).skip(routed_text(session_key, body).len() - body.len())
            == body,
{
    let a = "[Inter-session message] sourceSessionKey="@;
    let b = " isUser=false\n"@;
    let all = routed_text(session_key, body);
    lemma_part(a, session_key, b + body);
    assert(a + session_key + (b + body) =~= all);
    assert(all.skip(all.len() - body.len()) =~= body);
}

/// A delivery is told with its chat, and whether it was sent; a failed one with
/// its error.
pub proof fn law_deliveries_are_told(chat_id: int, pairing: bool, e: String)
    ensures
        delivery_line(chat_id, pairing, Some(Ok(()))) is Printed,
        delivery_line(chat_id, pairing, None) is Printed,
        delivery_line(chat_id, pairing, Some(Err(e))) is Complaint,
        occurs(said(delivery_line(chat_id, pairing, Some(Ok(())))), numbers::signed(chat_id)),
        occurs(said(delivery_line(chat_id, pairing, None)), numbers::signed(chat_id)),
        occurs(said(delivery_line(chat_id, pairing, Some(Err(e)))), e@),
{
    let h = "gateway deliver channel=telegram to=telegram:"@;
    let n = numbers::signed(chat_id);
    let p = if pairing {
        " pairing=required"@
    } else {
        ""@
    };
    lemma_part(h, n, p + " sent=true"@);
    assert(h + n + (p + " sent=true"@) =~= h + n + p + " sent=true"@);
    lemma_part(h, n, p + " sent=false"@);
    assert(h + n + (p + " sent=false"@) =~= h + n + p + " sent=false"@);
    let f = if pairing {
        "gateway telegram pairing send failed: "@
    } else {
        "gateway telegram send failed: "@
    };
    lemma_part(f, e@, seq![]);
    assert(f + e@ + Seq::<char>::empty() =~= f + e@);
}

// ---------------------------------------------------------------------------
// What becomes of a message
// ---------------------------------------------------------------------------

/// A message of a paired chat gets a session with its text; any other chat gets
/// the instructions to pair itself, and those alone.
pub proof fn law_chat_messages_are_answered(
    m: GatewayModel,
    chat_id: i64,
    body: Seq<char>,
    live: bool,
)
    ensures
        m.allowed.contains(chat_id) ==> m.with_chat(chat_id, body, live).stage
            == (StageModel::Chat { chat_id, body, live }),
        !m.allowed.contains(chat_id) && live ==> m.with_chat(chat_id, body, live).stage
            == (StageModel::Deliver {
            chat_id,
            reply: pairing_instructions(chat_id as int),
            pairing: true,
        }),
        !m.allowed.contains(chat_id) ==> !(m.with_chat(chat_id, body, live).stage is Chat),
        m.with_chat(chat_id, body, live).offset == m.offset,
        m.with_chat(chat_id, body, live).at == m.at,
        m.with_chat(chat_id, body, live).updates == m.updates,
{
}

/// A line with an event starts the session that it asks for, for the sender and
/// with the text of the line.
pub proof fn law_lines_start_their_sessions(m: GatewayModel, line: Seq<char>)
    ensures
        line_meaning(line) matches GatewayLineModel::Event(EventModel::Agent { session_key, text })
            ==> m.after_line(Some(line)).stage == (StageModel::Agent { session_key, body: text }),
        line_meaning(line) matches GatewayLineModel::Event(EventModel::Telegram { chat_id, text })
            ==> (m.allowed.contains(chat_id as i64) ==> m.after_line(Some(line)).stage
            == (StageModel::Chat { chat_id: chat_id as i64, body: text, live: false })),
        line_meaning(line) is Quit ==> m.after_line(Some(line)).stage == StageModel::Over(0),
        !m.options.once && (line_meaning(line) is Empty || line_meaning(line) is Malformed)
            ==> m.after_line(Some(line)).stage == m.idle(),
        m.after_line(None).stage == (if m.simulated {
            StageModel::Over(0)
        } else {
            StageModel::Poll
        }),
{
}

/// The updates of a poll are taken one by one, in order, each from its own chat
/// and with its own text; behind the last one the gateway is idle.
pub proof fn law_updates_are_taken_in_order(m: GatewayModel)
    ensures
        m.at < m.updates.len() ==> ({
            let u = m.updates[m.at as int];
            let r = m.at_next_update();
            &&& r.at == m.at + 1
            &&& r.updates == m.updates
            &&& m.allowed.contains(u.chat_id) ==> r.stage == (StageModel::Chat {
                chat_id: u.chat_id,
                body: u.text@,
                live: true,
            })
            &&& !m.allowed.contains(u.chat_id) ==> r.stage == (StageModel::Deliver {
                chat_id: u.chat_id,
                reply: pairing_instructions(u.chat_id as int),
                pairing: true,
            })
        }),
        m.at >= m.updates.len() ==> m.at_next_update() == (GatewayModel { stage: m.idle(), ..m }),
{
}

/// A poll starts with its first update, and an empty one leaves the gateway idle.
pub proof fn law_polls_start_with_their_first_update(
    m: GatewayModel,
    updates: Seq<TelegramMessage>,
)
    ensures
        m.after_poll(Ok(updates)).updates == updates,
        updates.len() > 0 ==> m.after_poll(Ok(updates)).at == 1 && m.after_poll(Ok(updates)).offset
            == Some(offset_behind(updates[0].update_id)),
        updates.len() == 0 ==> m.after_poll(Ok(updates)).stage == m.idle() && m.after_poll(
            Ok(updates),
        ).offset == m.offset,
{
}

/// The answer of a session goes to the chat that asked, where its message came
/// from Telegram, and the next update follows its delivery.
pub proof fn law_answers_go_to_their_chat(
    m: GatewayModel,
    class: MessageClass,
    output: Seq<char>,
    steps: nat,
    outcome: Result<(), String>,
)
    ensures
        m.stage matches StageModel::Chat { chat_id, live, .. } ==> (live ==> m.after_session(
            class,
            output,
            steps,
        ).stage == (StageModel::Deliver {
            chat_id,
            reply: chat_reply(class, output),
            pairing: false,
        })),
        m.stage is Deliver && !m.options.once && m.at < m.updates.len() ==> m.after_delivery(
            outcome,
        ).at == m.at + 1,
        m.stage is Deliver && !m.options.once && m.at >= m.updates.len() ==> m.after_delivery(
            outcome,
        ).stage == m.idle(),
{
}

/// The update to ask for is the one behind the last that was taken.
pub proof fn law_offset_is_behind_the_update(update_id: i64)
    ensures
        update_id < i64::MAX ==> offset_behind(update_id) == update_id + 1,
        update_id == i64::MAX ==> offset_behind(update_id) == update_id,
{
}

/// The runner takes the updates of a poll in order: a paired chat gets a session
/// with its text, any other chat the instructions to pair itself, but the chat 0
/// is passed over.
pub proof fn law_runner_takes_updates_in_order(m: RunnerModel)
    ensures
        m.at < m.updates.len() ==> ({
            let u = m.updates[m.at as int];
            let r = m.at_next_update();
            &&& m.allowed.contains(u.chat_id) ==> r.stage == (RunnerStageModel::Chat {
                chat_id: u.chat_id,
                body: u.text@,
            }) && r.at == m.at + 1 && r.offset == Some(offset_behind(u.update_id))
            &&& !m.allowed.contains(u.chat_id) && u.chat_id != 0 ==> r.stage
                == (RunnerStageModel::Deliver {
                chat_id: u.chat_id,
                reply: pairing_instructions(u.chat_id as int),
                pairing: true,
            }) && r.at == m.at + 1 && r.offset == Some(offset_behind(u.update_id))
            &&& !m.allowed.contains(u.chat_id) && u.chat_id == 0 ==> r == (RunnerModel {
                offset: Some(offset_behind(u.update_id)),
                at: m.at + 1,
                lines: m.lines.push(update_line("telegram update="@, u)),
                ..m
            }).at_next_update()
        }),
        m.at >= m.updates.len() ==> m.at_next_update().stage is Poll,
{
}

/// The runner sends every answer to the chat that asked.
pub proof fn law_runner_answers_the_chat(
    m: RunnerModel,
    class: MessageClass,
    output: Seq<char>,
    steps: nat,
    e: Seq<char>,
    updates: Seq<TelegramMessage>,
)
    ensures
        m.stage matches RunnerStageModel::Chat { chat_id, .. } ==> m.after_session(
            class,
            output,
            steps,
        ).stage == (RunnerStageModel::Deliver {
            chat_id,
            reply: chat_reply(class, output),
            pairing: false,
        }),
        m.after_poll(Err(e)).stage == (if is_not_found(e) {
            RunnerStageModel::Over(2)
        } else {
            RunnerStageModel::Poll
        }),
        m.after_poll(Err(e)).offset == m.offset,
{
}

/// The gateway starts unless its token has a fault or it has no input at all.
pub proof fn law_gateway_starts_with_an_input(
    workspace: Seq<char>,
    c: AgentConfig,
    o: GatewayOptions,
)
    ensures
        gateway_start_reply(workspace, c, o).0 is None <==> (c.telegram_token is Some
            || o.read_stdin) && (c.telegram_token matches Some(t) ==> token_fault(t@) is None),
        gateway_start_reply(workspace, c, o).0 matches Some(code) ==> code == 2,
{
}

/// A gateway that starts prints where it works, on which model, and for which chats.
pub proof fn law_gateway_tells_what_it_works_on(
    workspace: Seq<char>,
    c: AgentConfig,
    o: GatewayOptions,
)
    requires
        gateway_start_reply(workspace, c, o).0 is None,
    ensures
        occurs(said(gateway_start_reply(workspace, c, o).1[1]), workspace),
        c.primary_agent matches Some(m) ==> occurs(
            said(gateway_start_reply(workspace, c, o).1[3]),
            m.model@,
        ) && occurs(said(gateway_start_reply(workspace, c, o).1[3]), m.provider@),
        occurs(
            said(gateway_start_reply(workspace, c, o).1[4]),
            chats_text(c.telegram_allowed_chats@),
        ),
{
    let lines = start_lines(workspace, c, o);
    assert(gateway_start_reply(workspace, c, o).1 == lines);
    assert(said(lines[1]) == "workspace="@ + workspace);
    assert(said(lines[3]) == "model="@ + model_text(c));
    lemma_ends_with("workspace="@, workspace);
    let set = if c.telegram_token is Some {
        "configured"@
    } else {
        "not-configured"@
    };
    let chats = chats_text(c.telegram_allowed_chats@);
    assert(said(lines[4]) == "telegram="@ + set + " allowed_chats="@ + chats);
    lemma_ends_with("telegram="@ + set + " allowed_chats="@, chats);
    if let Some(m) = c.primary_agent {
        lemma_named_pair("model="@, m.provider@, ":"@, m.model@);
    }
}

proof fn lemma_ends_with(a: Seq<char>, b: Seq<char>)
    ensures
        occurs(a + b, b),
{
    let none = Seq::<char>::empty();
    lemma_part(a, b, none);
    assert(a + b + none =~= a + b);
}

proof fn lemma_named_pair(h: Seq<char>, a: Seq<char>, m: Seq<char>, b: Seq<char>)
    ensures
        occurs(h + (a + m + b), a),
        occurs(h + (a + m + b), b),
{
    lemma_part(h, a, m + b);
    assert(h + a + (m + b) =~= h + (a + m + b));
    lemma_ends_with(h + a + m, b);
    assert(h + a + m + b =~= h + (a + m + b));
}

/// The runner starts with a good token only.
pub proof fn law_runner_starts_with_a_good_token(c: AgentConfig)
    ensures
        telegram_start_reply(c).0 is None <==> c.telegram_token is Some && token_fault(
            (c.telegram_token->0)@,
        ) is None,
        telegram_start_reply(c).0 matches Some(code) ==> code == 2,
{
}

/// One event is enough for a simulated gateway where that was asked for, and only
/// there.
pub proof fn law_simulation_options(args: Seq<Seq<char>>, i: int, once: bool)
    requires
        0 <= i < args.len(),
    ensures
        args[i] == "--once"@ ==> simulate_options(args, i, once) == simulate_options(
            args,
            i + 1,
            true,
        ),
        args[i] != "--once"@ ==> simulate_options(args, i, once) is Err,
        simulate_options(args, args.len() as int, once) == Ok::<bool, ReplyModel>(once),
{
}

/// An event is told with its session, its channel, who it goes to, its role and its
/// text, each in quotes.
pub proof fn law_events_are_told(
    session_key: Seq<char>,
    channel: Seq<char>,
    to: Seq<char>,
    role: Seq<char>,
    body: Seq<char>,
)
    ensures
        occurs(said(event_line(session_key, channel, to, role, body)), compact(session_key)),
        occurs(said(event_line(session_key, channel, to, role, body)), compact(channel)),
        occurs(said(event_line(session_key, channel, to, role, body)), compact(to)),
        occurs(said(event_line(session_key, channel, to, role, body)), compact(role)),
        chars::byte_len(body) <= 1200 ==> occurs(
            said(event_line(session_key, channel, to, role, body)),
            compact(body),
        ),
{
    let none = Seq::<char>::empty();
    let b = compact(chars::capped(body, 1200, " [truncated]"@));
    chars::law_capped_keeps_limit(body, 1200, " [truncated]"@);
    let h = "event=session.message sessionKey="@;
    let all = said(event_line(session_key, channel, to, role, body));
    crate::laws::running::lemma_four(
        h,
        compact(session_key),
        " channel="@,
        compact(channel),
        " to="@,
        compact(to),
        " role="@,
        compact(role),
        " text="@ + b,
    );
    let head = h + compact(session_key) + " channel="@ + compact(channel) + " to="@ + compact(to)
        + " role="@ + compact(role);
    assert(head + (" text="@ + b) =~= all);
    lemma_part(head + " text="@, b, none);
    assert(head + " text="@ + b + none =~= all);
}

/// An update is told with its number, its chat and how long its text is in bytes.
pub proof fn law_updates_are_told(head: Seq<char>, u: TelegramMessage)
    ensures
        occurs(said(update_line(head, u)), head + numbers::signed(u.update_id as int)),
        occurs(said(update_line(head, u)), " chat="@ + numbers::signed(u.chat_id as int)),
        occurs(said(update_line(head, u)), numbers::decimal(vstd::utf8::encode_utf8(u.text@).len())),
{
    let n = head + numbers::signed(u.update_id as int);
    let c = numbers::signed(u.chat_id as int);
    let b = numbers::decimal(chars::byte_len(u.text@));
    let none = Seq::<char>::empty();
    let all = n + " chat="@ + c + " bytes="@ + b;
    lemma_ends_with(n + " chat="@ + c + " bytes="@, b);
    lemma_part(none, n, " chat="@ + c + " bytes="@ + b);
    assert(none + n + (" chat="@ + c + " bytes="@ + b) =~= all);
    lemma_part(n, " chat="@ + c, " bytes="@ + b);
    assert(n + (" chat="@ + c) + (" bytes="@ + b) =~= all);
}

}
