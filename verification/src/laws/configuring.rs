//! Promises of the commands that configure, set up and remove: what the file holds
//! after them, and what they leave alone.
use vstd::prelude::*;

use crate::adjustments::{
    applied, dropped, kept_directive, proposal_named, proposals_in, DirectiveModel, ProposalModel,
};
use crate::chars;
use crate::chars::CharSet;
use crate::cli::{chats_text, masked, LineModel, ReplyModel};
use crate::cli::settings::{
    advisor_lines, advisor_mode_reply, advisor_reply, advisor_route_reply, advisor_set_reply, arg,
    bot_options, config_set_reply, confirmed, listed_proposal, llm_lines, options_from,
    options_start, proposals_reply, routing_line, show_lines, shown_proposal, takes_value,
    telegram_pair_reply, telegram_set_reply, telegram_unpair_reply, BotOptions, OptionsEndModel,
    OptionsModel,
};
use crate::cli::setup::{
    answer_or, is_agreed, is_unsafe_dir, mode_chosen, removals, uninstall_options, unmanaged,
    with_breaks, OnboardingModel, OnboardingStage, RemovalModel, UninstallMode,
};
use crate::cli::uninstall::{UninstallModel, UninstallStage};
use crate::config::{
    config_in, env_llm, given, is_yes, joined, list_items, rendered, with_advisor_agent,
    with_primary, AdvisorModel, Environment, FileModel, LlmModel, TelegramModel,
};
use crate::json;
use crate::laws::terminal::said;
use crate::laws::texts::{lemma_part, lemma_pieces_break, occurs, stands_at};
use crate::numbers;
use crate::prompts::StoreModel;
use crate::readback::{as_read, law_config_reads_back, readable};
use crate::types::{
    law_choice_labels, law_class_labels, law_mode_labels, AdvisorMode, AgentChoice, MessageClass,
};

verus! {

// ---------------------------------------------------------------------------
// Telegram
// ---------------------------------------------------------------------------

/// A chat that was paired by command is allowed by the file that was written, as
/// are all chats that were allowed before; the models stay.
pub proof fn law_pair_command_pairs(file: Option<Seq<char>>, args: Seq<Seq<char>>, n: i64)
    requires
        arg(args, 2) == Some(numbers::signed(n as int)),
        config_in(file).telegram matches Some(t) && t.allowed_chats.finite(),
        readable(config_in(file)),
    ensures
        ({
            let r = telegram_pair_reply(file, args);
            let before = config_in(file);
            &&& r.code == 0
            &&& r.file is Some
            &&& config_in(r.file).telegram matches Some(now) && now.allowed_chats.contains(n)
                && forall|m: i64| #[trigger]
                now.allowed_chats.contains(m) == (m == n || (
                before.telegram->0).allowed_chats.contains(m))
            &&& config_in(r.file).primary_agent == as_read(before).primary_agent
            &&& config_in(r.file).advisor == as_read(before).advisor
            &&& occurs(said(r.lines[0]), numbers::signed(n as int))
        }),
{
    let before = config_in(file);
    let t = before.telegram->0;
    numbers::law_signed_round_trip(n as int);
    let paired = TelegramModel { allowed_chats: t.allowed_chats.insert(n), ..t };
    law_config_reads_back(FileModel { telegram: Some(paired), ..before });
    let id = numbers::signed(n as int);
    let none = Seq::<char>::empty();
    lemma_part("telegram chat already paired: "@, id, none);
    assert("telegram chat already paired: "@ + id + none =~= "telegram chat already paired: "@
        + id);
    lemma_part("telegram chat paired: "@, id, none);
    assert("telegram chat paired: "@ + id + none =~= "telegram chat paired: "@ + id);
}

/// A chat that was unpaired by command is not allowed by the file that was
/// written; every other chat is as before, and the models stay.
pub proof fn law_unpair_command_unpairs(file: Option<Seq<char>>, args: Seq<Seq<char>>, n: i64)
    requires
        arg(args, 2) == Some(numbers::signed(n as int)),
        config_in(file).telegram matches Some(t) && t.allowed_chats.finite(),
        readable(config_in(file)),
    ensures
        ({
            let r = telegram_unpair_reply(file, args);
            let before = config_in(file);
            &&& r.code == 0
            &&& r.file is Some
            &&& config_in(r.file).telegram matches Some(now) && !now.allowed_chats.contains(n)
                && forall|m: i64|
                m != n ==> #[trigger] now.allowed_chats.contains(m) == (
                before.telegram->0).allowed_chats.contains(m)
            &&& config_in(r.file).primary_agent == as_read(before).primary_agent
            &&& config_in(r.file).advisor == as_read(before).advisor
        }),
{
    let before = config_in(file);
    let t = before.telegram->0;
    numbers::law_signed_round_trip(n as int);
    let left = TelegramModel { allowed_chats: t.allowed_chats.remove(n), ..t };
    law_config_reads_back(FileModel { telegram: Some(left), ..before });
}

/// The options of a bot are read one by one: the last of each kind counts, and
/// what is no option is told.
pub proof fn law_bot_options_are_read_one_by_one(
    args: Seq<Seq<char>>,
    i: int,
    token: Option<Seq<char>>,
    chats: Option<Seq<char>>,
)
    requires
        0 <= i < args.len(),
    ensures
        args[i] == "--token"@ && i + 1 < args.len() ==> bot_options(args, i, token, chats)
            == bot_options(args, i + 2, Some(args[i + 1]), chats),
        args[i] == "--chats"@ && i + 1 < args.len() ==> bot_options(args, i, token, chats)
            == bot_options(args, i + 2, token, Some(args[i + 1])),
        args[i] != "--token"@ && args[i] != "--chats"@ ==> bot_options(args, i, token, chats)
            == BotOptions::Unknown(args[i]),
        bot_options(args, args.len() as int, token, chats) == (BotOptions::Parsed { token, chats }),
{
    reveal_strlit("--token");
    reveal_strlit("--chats");
    assert("--token"@[2] == 't' && "--chats"@[2] == 'c');
}

/// A bot that was set by command is in the file that was written, with its token
/// and the chats that were listed; the models stay.
pub proof fn law_bot_command_sets_the_bot(
    file: Option<Seq<char>>,
    args: Seq<Seq<char>>,
    token: Seq<char>,
    list: Seq<char>,
)
    requires
        bot_options(args, 2, None, None) == (BotOptions::Parsed {
            token: Some(token),
            chats: Some(list),
        }),
        json::number_list(list) != Set::<i64>::empty(),
        json::number_list(list).finite(),
        readable(
            FileModel {
                telegram: Some(TelegramModel { token, allowed_chats: json::number_list(list) }),
                ..config_in(file)
            },
        ),
    ensures
        ({
            let r = telegram_set_reply(file, args);
            &&& r.code == 0
            &&& config_in(r.file).telegram == Some(
                TelegramModel {
                    token: json::shown(token),
                    allowed_chats: json::number_list(list),
                },
            )
            &&& config_in(r.file).primary_agent == as_read(config_in(file)).primary_agent
            &&& config_in(r.file).advisor == as_read(config_in(file)).advisor
        }),
{
    law_config_reads_back(
        FileModel {
            telegram: Some(TelegramModel { token, allowed_chats: json::number_list(list) }),
            ..config_in(file)
        },
    );
}

// ---------------------------------------------------------------------------
// Models
// ---------------------------------------------------------------------------

/// The options of a model are read one by one: each sets its own value and no
/// other, and what is no option is told.
pub proof fn law_model_options_are_read_one_by_one(
    args: Seq<Seq<char>>,
    i: int,
    help: bool,
    o: OptionsModel,
)
    requires
        0 <= i < args.len(),
    ensures
        i + 1 < args.len() && args[i] == "--provider"@ ==> options_from(args, i, help, o)
            == options_from(args, i + 2, help, OptionsModel { provider: args[i + 1], ..o }),
        i + 1 < args.len() && args[i] == "--url"@ ==> options_from(args, i, help, o)
            == options_from(args, i + 2, help, OptionsModel { url: args[i + 1], ..o }),
        i + 1 < args.len() && args[i] == "--model"@ ==> options_from(args, i, help, o)
            == options_from(args, i + 2, help, OptionsModel { model: args[i + 1], ..o }),
        i + 1 < args.len() && args[i] == "--api-key"@ && args[i + 1].len() > 0 ==> options_from(
            args,
            i,
            help,
            o,
        ) == options_from(args, i + 2, help, OptionsModel { api_key: Some(args[i + 1]), ..o }),
        args[i] != "--provider"@ && args[i] != "--url"@ && args[i] != "--model"@ && args[i]
            != "--api-key"@ && args[i] != "--help"@ && args[i] != "-h"@ ==> options_from(
            args,
            i,
            help,
            o,
        ) == OptionsEndModel::Unknown(args[i]),
        i + 1 == args.len() && takes_value(args[i]) ==> options_from(args, i, help, o)
            == OptionsEndModel::Missing(args[i]),
        options_from(args, args.len() as int, help, o) == OptionsEndModel::Parsed(o),
{
    reveal_strlit("--provider");
    reveal_strlit("--url");
    reveal_strlit("--model");
    reveal_strlit("--api-key");
    assert("--provider"@.len() == 10 && "--url"@.len() == 5 && "--model"@.len() == 7
        && "--api-key"@.len() == 9);
}

/// Options that are not given keep what is configured.
pub proof fn law_options_start_with_what_is_configured(
    current: LlmModel,
    provider: Seq<char>,
    url: Seq<char>,
    model: Seq<char>,
)
    ensures
        ({
            let o = options_start(Some(current), provider, url, model);
            &&& o.provider == current.provider && o.url == current.url && o.model == current.model
            &&& o.key() == current.api_key
        }),
        ({
            let o = options_start(None, provider, url, model);
            &&& o.provider == provider && o.url == url && o.model == model
            &&& o.key() is None
        }),
{
}

/// The primary that was set by command is in the file that was written, with the
/// values of the options; the advisor and Telegram stay.
pub proof fn law_set_command_sets_the_primary(
    file: Option<Seq<char>>,
    args: Seq<Seq<char>>,
    o: OptionsModel,
)
    requires
        options_from(
            args,
            1,
            true,
            options_start(
                config_in(file).primary_agent,
                "llamacpp"@,
                "http://127.0.0.1:8080/v1"@,
                "local-model"@,
            ),
        ) == OptionsEndModel::Parsed(o),
        readable(with_primary(config_in(file), o.provider, o.url, o.model, o.key())),
        config_in(file).telegram matches Some(t) ==> t.allowed_chats.finite(),
    ensures
        ({
            let r = config_set_reply(file, args);
            let before = config_in(file);
            &&& r.code == 0
            &&& config_in(r.file).primary_agent matches Some(p) && p.provider == json::shown(
                o.provider,
            ) && p.url == json::shown(o.url) && p.model == json::shown(o.model)
            &&& config_in(r.file).advisor == as_read(before).advisor
            &&& config_in(r.file).telegram == as_read(before).telegram
        }),
{
    law_config_reads_back(
        with_primary(config_in(file), o.provider, o.url, o.model, o.key()),
    );
}

/// The advisor that was set by command is in the file that was written; it keeps
/// its mode and its rules, a new one is on trial with none, and the rest stays.
pub proof fn law_set_command_sets_the_advisor(
    file: Option<Seq<char>>,
    args: Seq<Seq<char>>,
    o: OptionsModel,
)
    requires
        options_from(
            args,
            1,
            false,
            options_start(
                match config_in(file).advisor {
                    Some(a) => Some(a.agent),
                    None => None,
                },
                "deepseek"@,
                "https://api.deepseek.com/v1"@,
                "deepseek-chat"@,
            ),
        ) == OptionsEndModel::Parsed(o),
        readable(with_advisor_agent(config_in(file), o.provider, o.url, o.model, o.key())),
        config_in(file).telegram matches Some(t) ==> t.allowed_chats.finite(),
    ensures
        ({
            let r = advisor_set_reply(file, args);
            let before = config_in(file);
            &&& r.code == 0
            &&& config_in(r.file).advisor matches Some(a) && a.agent.provider == json::shown(
                o.provider,
            ) && a.agent.url == json::shown(o.url) && a.agent.model == json::shown(o.model)
            &&& config_in(r.file).advisor matches Some(a) && (before.advisor matches Some(b)
                ==> a.mode == b.mode && a.routing == b.routing)
            &&& config_in(r.file).advisor matches Some(a) && (before.advisor is None ==> a.mode
                == AdvisorMode::Trial)
            &&& config_in(r.file).primary_agent == as_read(before).primary_agent
            &&& config_in(r.file).telegram == as_read(before).telegram
        }),
{
    law_config_reads_back(
        with_advisor_agent(config_in(file), o.provider, o.url, o.model, o.key()),
    );
}

/// The mode that was set by command is in the file that was written; the advisor's
/// model and rules stay, and so does the rest.
pub proof fn law_mode_command_sets_the_mode(
    file: Option<Seq<char>>,
    args: Seq<Seq<char>>,
    mode: AdvisorMode,
)
    requires
        args.len() >= 2,
        args[1] == mode.name(),
        config_in(file).advisor is Some,
        readable(config_in(file)),
        config_in(file).telegram matches Some(t) ==> t.allowed_chats.finite(),
    ensures
        ({
            let r = advisor_mode_reply(file, args);
            let before = as_read(config_in(file));
            &&& r.code == 0
            &&& config_in(r.file).advisor matches Some(a) && a.mode == mode && a.agent == (
            before.advisor->0).agent && a.routing == (before.advisor->0).routing
            &&& config_in(r.file).primary_agent == before.primary_agent
            &&& config_in(r.file).telegram == before.telegram
        }),
{
    law_mode_labels(mode);
    let c = config_in(file);
    let a = c.advisor->0;
    law_config_reads_back(FileModel { advisor: Some(AdvisorModel { mode, ..a }), ..c });
}

/// The rule that was set by command is in the file that was written, for its class
/// and no other; the rest stays.
pub proof fn law_route_command_sets_the_rule(
    file: Option<Seq<char>>,
    args: Seq<Seq<char>>,
    class: MessageClass,
    choice: AgentChoice,
    other: MessageClass,
)
    requires
        args.len() >= 3,
        args[1] == class.name(),
        args[2] == choice.name(),
        config_in(file).advisor is Some,
        readable(config_in(file)),
        config_in(file).telegram matches Some(t) ==> t.allowed_chats.finite(),
    ensures
        ({
            let r = advisor_route_reply(file, args);
            let before = as_read(config_in(file));
            &&& r.code == 0
            &&& config_in(r.file).advisor matches Some(a) && a.routing.rule(class) == Some(choice)
                && a.mode == (before.advisor->0).mode && a.agent == (before.advisor->0).agent
            &&& config_in(r.file).advisor matches Some(a) && (other != class ==> a.routing.rule(
                other,
            ) == (before.advisor->0).routing.rule(other))
            &&& config_in(r.file).primary_agent == before.primary_agent
            &&& config_in(r.file).telegram == before.telegram
        }),
{
    law_class_labels(class);
    law_choice_labels(choice);
    let c = config_in(file);
    let a = c.advisor->0;
    law_config_reads_back(
        FileModel {
            advisor: Some(AdvisorModel { routing: a.routing.with(class, Some(choice)), ..a }),
            ..c
        },
    );
}

/// An advisor that was cleared is gone from the file that was written; the rest
/// stays.
pub proof fn law_clear_command_clears(
    store: StoreModel,
    file: Option<Seq<char>>,
    args: Seq<Seq<char>>,
)
    requires
        args.len() > 0,
        args[0] == "clear"@,
        readable(FileModel { advisor: None, ..config_in(file) }),
        config_in(file).telegram matches Some(t) ==> t.allowed_chats.finite(),
    ensures
        ({
            let r = advisor_reply(store, file, args).1;
            &&& r.code == 0
            &&& config_in(r.file).advisor is None
            &&& config_in(r.file).primary_agent == as_read(config_in(file)).primary_agent
            &&& config_in(r.file).telegram == as_read(config_in(file)).telegram
        }),
        advisor_reply(store, file, args).0 == store,
{
    reveal_strlit("clear");
    reveal_strlit("set");
    reveal_strlit("show");
    reveal_strlit("mode");
    reveal_strlit("route");
    assert("clear"@.len() == 5 && "set"@.len() == 3 && "show"@.len() == 4 && "mode"@.len() == 4);
    assert("clear"@[0] == 'c' && "route"@[0] == 'r');
    law_config_reads_back(FileModel { advisor: None, ..config_in(file) });
}

/// A key is never shown: what is printed of a model does not depend on which key
/// it has, only on whether it has one.
pub proof fn law_keys_are_never_shown(
    prefix: Seq<char>,
    llm: LlmModel,
    a: Seq<char>,
    b: Seq<char>,
)
    requires
        a.len() > 0,
        b.len() > 0,
    ensures
        llm_lines(prefix, LlmModel { api_key: Some(a), ..llm }) == llm_lines(
            prefix,
            LlmModel { api_key: Some(b), ..llm },
        ),
        llm_lines(prefix, LlmModel { api_key: Some(a), ..llm }).len() == llm_lines(
            prefix,
            LlmModel { api_key: None, ..llm },
        ).len() + 1,
{
}

/// What is configured is shown: the provider, the address and the model, and of
/// every class who serves it.
pub proof fn law_settings_are_shown(prefix: Seq<char>, llm: LlmModel, a: AdvisorModel)
    ensures
        occurs(said(llm_lines(prefix, llm)[0]), llm.provider),
        occurs(said(llm_lines(prefix, llm)[1]), llm.url),
        occurs(said(llm_lines(prefix, llm)[2]), llm.model),
        advisor_lines(a).contains(LineModel::Printed("advisor.mode="@ + a.mode.name())),
        forall|class: MessageClass|
            advisor_lines(a).contains(#[trigger] routing_line(a, class)),
{
    let none = Seq::<char>::empty();
    lemma_part(prefix + "provider="@, llm.provider, none);
    assert(prefix + "provider="@ + llm.provider + none =~= prefix + "provider="@ + llm.provider);
    lemma_part(prefix + "url="@, llm.url, none);
    assert(prefix + "url="@ + llm.url + none =~= prefix + "url="@ + llm.url);
    lemma_part(prefix + "model="@, llm.model, none);
    assert(prefix + "model="@ + llm.model + none =~= prefix + "model="@ + llm.model);
    let head = llm_lines("advisor."@, a.agent);
    let all = advisor_lines(a);
    let n = head.len() as int;
    assert(all[n] == LineModel::Printed("advisor.mode="@ + a.mode.name()));
    assert(all[n + 1] == routing_line(a, MessageClass::MiniHow));
    assert(all[n + 2] == routing_line(a, MessageClass::MiniWhy));
    assert(all[n + 3] == routing_line(a, MessageClass::MiniWhat));
    assert forall|class: MessageClass| all.contains(#[trigger] routing_line(a, class)) by {
        match class {
            MessageClass::MiniHow => {
                assert(all[n + 1] == routing_line(a, class));
            },
            MessageClass::MiniWhy => {
                assert(all[n + 2] == routing_line(a, class));
            },
            MessageClass::MiniWhat => {
                assert(all[n + 3] == routing_line(a, class));
            },
        }
    }
}

// ---------------------------------------------------------------------------
// Proposals
// ---------------------------------------------------------------------------

/// Only applying and rejecting change anything: applying does what the proposal
/// keeps and takes it off the list, rejecting only takes it off the list.
pub proof fn law_proposals_are_applied_or_rejected(
    store: StoreModel,
    args: Seq<Seq<char>>,
    p: ProposalModel,
    d: DirectiveModel,
)
    requires
        args.len() >= 3,
        proposal_named(store, args[2]) == Some(p),
    ensures
        args[1] == "apply"@ && kept_directive(store, p) == Some(d) ==> proposals_reply(
            store,
            args,
        ).0 == dropped(applied(store, d, None), p) && proposals_reply(store, args).1.code == 0,
        args[1] == "apply"@ && kept_directive(store, p) is None ==> proposals_reply(store, args).0
            == store && proposals_reply(store, args).1.code != 0,
        args[1] == "reject"@ ==> proposals_reply(store, args).0 == dropped(store, p)
            && proposals_reply(store, args).0.prompts == store.prompts && proposals_reply(
            store,
            args,
        ).0.skills == store.skills,
        args[1] != "apply"@ && args[1] != "reject"@ ==> proposals_reply(store, args).0 == store,
{
    reveal_strlit("apply");
    reveal_strlit("reject");
    reveal_strlit("list");
    reveal_strlit("show");
    assert("apply"@.len() == 5 && "reject"@.len() == 6 && "list"@.len() == 4 && "show"@.len() == 4);
    assert("list"@[0] == 'l' && "show"@[0] == 's');
}

/// The list has a line for every proposal, in order, with its name and its kind.
pub proof fn law_every_proposal_is_listed(store: StoreModel, args: Seq<Seq<char>>, i: int)
    requires
        args.len() < 2 || args[1] == "list"@,
        0 <= i < proposals_in(store.workspace, store.proposals).len(),
    ensures
        ({
            let list = proposals_in(store.workspace, store.proposals);
            let r = proposals_reply(store, args).1;
            &&& r.code == 0
            &&& r.lines.len() == list.len()
            &&& occurs(said(r.lines[i]), list[i].id)
            &&& occurs(said(r.lines[i]), list[i].kind)
        }),
{
    let p = proposals_in(store.workspace, store.proposals)[i];
    let none = Seq::<char>::empty();
    let more = " "@ + crate::cli::proposal_line(p);
    lemma_part(none, p.id, " kind="@ + p.kind + more);
    assert(none + p.id + (" kind="@ + p.kind + more) =~= said(listed_proposal(p)));
    lemma_part(p.id + " kind="@, p.kind, more);
    assert(p.id + " kind="@ + p.kind + more =~= said(listed_proposal(p)));
}

/// A proposal is shown with its body whole.
pub proof fn law_proposal_is_shown_whole(p: ProposalModel)
    ensures
        shown_proposal(p).last() == LineModel::Printed(p.body),
        occurs(said(shown_proposal(p)[0]), p.id),
        occurs(said(shown_proposal(p)[1]), p.kind),
{
    let none = Seq::<char>::empty();
    lemma_part("id: "@, p.id, none);
    assert("id: "@ + p.id + none =~= "id: "@ + p.id);
    lemma_part("kind: "@, p.kind, none);
    assert("kind: "@ + p.kind + none =~= "kind: "@ + p.kind);
}

// ---------------------------------------------------------------------------
// The environment
// ---------------------------------------------------------------------------

/// The items of a list are the parts between its commas, each without white space
/// around it, and without empty ones.
pub proof fn law_list_items(a: Seq<char>, b: Seq<char>)
    requires
        !a.contains(','),
    ensures
        list_items(a) == (if chars::trim(a).len() > 0 {
            seq![chars::trim(a)]
        } else {
            seq![]
        }),
        list_items(a + seq![','] + b) == list_items(a) + list_items(b),
{
    let set = CharSet::Only(',');
    let f = |p: Seq<char>| chars::trim(p);
    let keep = chars::at_least(1);
    assert forall|j: int| 0 <= j < a.len() implies !set.has(#[trigger] a[j]) by {
        assert(a.contains(a[j]));
    }
    chars::lemma_until_is(a, set, a.len() as int);
    assert(chars::pieces(a, set) =~= seq![a]);
    lemma_pieces_break(a, ',', b, set);
    let x = chars::pieces(a, set).map_values(f);
    let y = chars::pieces(b, set).map_values(f);
    let whole = chars::pieces(a + seq![','] + b, set).map_values(f);
    assert(whole =~= x + y);
    crate::laws::texts::lemma_filter_concat(x, y, keep);
    assert(x =~= seq![chars::trim(a)]);
    reveal(Seq::filter);
    assert(x.drop_last() =~= Seq::<Seq<char>>::empty());
    assert(Seq::<Seq<char>>::empty().filter(keep) =~= Seq::<Seq<char>>::empty());
}

/// The environment names a model only with its provider, address and model, and
/// names it as they say.
pub proof fn law_environment_names_a_model(env: Environment)
    ensures
        env_llm(env) is Some == (env.llm_provider is Some && env.llm_url is Some
            && env.llm_model is Some),
        env_llm(env) matches Some(m) ==> m.provider == (env.llm_provider->0)@ && m.url == (
        env.llm_url->0)@ && m.model == (env.llm_model->0)@,
        env_llm(env) matches Some(m) ==> (env.llm_api_key matches Some(k) ==> (k@.len() > 0
            ==> m.api_key == Some(k@))),
        env_llm(env) matches Some(m) ==> (env.llm_api_key is None ==> m.api_key is None),
{
}

/// A name under a directory ends as it was given, and starts with the directory.
pub proof fn law_names_are_under_their_directory(base: Seq<char>, name: Seq<char>)
    ensures
        stands_at(joined(base, name), base, 0),
        joined(base, name).len() >= name.len(),
        joined(base, name).skip(joined(base, name).len() - name.len()) == name,
        joined(base + seq!['/'], name) == base + seq!['/'] + name,
{
    let r = joined(base, name);
    assert(r.subrange(0, base.len() as int) =~= base);
    assert(r.skip(r.len() - name.len()) =~= name);
    let b = base + seq!['/'];
    assert(b.last() == '/');
}

// ---------------------------------------------------------------------------
// Setting up
// ---------------------------------------------------------------------------

/// An answer is what was typed without white space around it, and the default
/// where nothing was.
pub proof fn law_answers_or_defaults(default: Seq<char>, typed: Seq<char>)
    ensures
        chars::trim(typed).len() > 0 ==> answer_or(default, typed) == chars::trim(typed),
        chars::trim(typed).len() == 0 ==> answer_or(default, typed) == default,
{
}

/// Every answer goes to the question that was asked and to no other.
pub proof fn law_answers_go_to_their_question(m: OnboardingModel, typed: Seq<char>)
    ensures
        ({
            let r = m.after(typed);
            let v = answer_or(m.default(), typed);
            &&& m.stage == OnboardingStage::Provider ==> r.provider == v && r.url == m.url
                && r.model == m.model && r.stage == OnboardingStage::Url && r.write is None
            &&& m.stage == OnboardingStage::Url ==> r.url == v && r.provider == m.provider
                && r.model == m.model && r.stage == OnboardingStage::Model && r.write is None
            &&& m.stage == OnboardingStage::Model ==> r.model == v && r.provider == m.provider
                && r.url == m.url
            &&& m.stage == OnboardingStage::Token ==> r.token == v && r.stage
                == OnboardingStage::Chats && r.write is None
        }),
{
}

/// Once the model and, where it is asked for, its key are known, the file that is
/// written has them; Telegram and the advisor stay.
pub proof fn law_set_up_model_is_written(m: OnboardingModel, key: Option<Seq<char>>)
    requires
        readable(with_primary(config_in(m.file), m.provider, m.url, m.model, key)),
        config_in(m.file).telegram matches Some(t) ==> t.allowed_chats.finite(),
    ensures
        ({
            let r = m.model_configured(key);
            &&& r.write == r.file
            &&& r.stage == OnboardingStage::Channel
            &&& config_in(r.file).primary_agent matches Some(p) && p.provider == json::shown(
                m.provider,
            ) && p.url == json::shown(m.url) && p.model == json::shown(m.model)
            &&& config_in(r.file).telegram == as_read(config_in(m.file)).telegram
            &&& config_in(r.file).advisor == as_read(config_in(m.file)).advisor
        }),
{
    law_config_reads_back(with_primary(config_in(m.file), m.provider, m.url, m.model, key));
}

/// A bot with a token and chats is written; without either nothing is.
pub proof fn law_set_up_bot_is_written(m: OnboardingModel, typed: Seq<char>)
    requires
        m.stage == OnboardingStage::Chats,
    ensures
        ({
            let chats = json::number_list(answer_or(m.default(), typed));
            let r = m.after(typed);
            &&& chars::trim(m.token).len() == 0 || chats == Set::<i64>::empty() ==> r.write is None
                && r.file == m.file
            &&& chars::trim(m.token).len() > 0 && chats != Set::<i64>::empty() && chats.finite()
                && readable(
                FileModel {
                    telegram: Some(
                        TelegramModel { token: chars::trim(m.token), allowed_chats: chats },
                    ),
                    ..config_in(m.file)
                },
            ) ==> config_in(r.write).telegram == Some(
                TelegramModel { token: json::shown(chars::trim(m.token)), allowed_chats: chats },
            ) && config_in(r.write).primary_agent == as_read(config_in(m.file)).primary_agent
            &&& r.stage == OnboardingStage::Over
        }),
{
    let chats = json::number_list(answer_or(m.default(), typed));
    let c = FileModel {
        telegram: Some(TelegramModel { token: chars::trim(m.token), allowed_chats: chats }),
        ..config_in(m.file)
    };
    if chats.finite() && readable(c) {
        law_config_reads_back(c);
    }
}

// ---------------------------------------------------------------------------
// Uninstalling
// ---------------------------------------------------------------------------

/// The options of uninstalling are read one by one: the last mode counts, and what
/// is no option ends the reading with an error that names it.
pub proof fn law_uninstall_options_are_read_one_by_one(
    args: Seq<Seq<char>>,
    i: int,
    mode: Option<UninstallMode>,
    yes: bool,
)
    requires
        0 <= i < args.len(),
    ensures
        args[i] == "--keep-data"@ ==> uninstall_options(args, i, mode, yes) == uninstall_options(
            args,
            i + 1,
            Some(UninstallMode::KeepData),
            yes,
        ),
        args[i] == "--remove-user-data"@ ==> uninstall_options(args, i, mode, yes)
            == uninstall_options(args, i + 1, Some(UninstallMode::RemoveUserData), yes),
        args[i] == "--purge"@ ==> uninstall_options(args, i, mode, yes) == uninstall_options(
            args,
            i + 1,
            Some(UninstallMode::Purge),
            yes,
        ),
        args[i] == "--yes"@ ==> uninstall_options(args, i, mode, yes) == uninstall_options(
            args,
            i + 1,
            mode,
            true,
        ),
        uninstall_options(args, args.len() as int, mode, yes) == Ok::<
            (Option<UninstallMode>, bool),
            ReplyModel,
        >((mode, yes)),
{
    reveal_strlit("--keep-data");
    reveal_strlit("--remove-user-data");
    reveal_strlit("--remove-data");
    reveal_strlit("--purge");
    reveal_strlit("--remove-minipaw-folder");
    reveal_strlit("--remove-folder");
    reveal_strlit("--yes");
    reveal_strlit("-y");
    assert("--keep-data"@.len() == 11 && "--remove-user-data"@.len() == 18 && "--purge"@.len() == 7
        && "--yes"@.len() == 5);
    assert("--remove-data"@.len() == 13 && "--remove-minipaw-folder"@.len() == 23
        && "--remove-folder"@.len() == 15 && "-y"@.len() == 2);
}

/// Everything that is removed is the install directory or stands in it; the data
/// are removed only in the modes that say so.
pub proof fn law_removals_stay_in_the_directory(mode: UninstallMode, dir: Seq<char>, i: int)
    requires
        0 <= i < removals(mode, dir).len(),
    ensures
        removals(mode, dir)[i] matches RemovalModel::File(p) ==> stands_at(p, dir, 0),
        removals(mode, dir)[i] matches RemovalModel::Dir(p) ==> stands_at(p, dir, 0),
        mode == UninstallMode::KeepData ==> removals(mode, dir) == seq![
            RemovalModel::File(joined(dir, "minipaw"@)),
        ],
        mode == UninstallMode::Purge ==> removals(mode, dir) == seq![RemovalModel::Dir(dir)],
        mode == UninstallMode::RemoveUserData ==> removals(mode, dir).contains(
            RemovalModel::File(joined(dir, "minipaw"@)),
        ) && removals(mode, dir).contains(RemovalModel::Dir(joined(dir, "memory"@))),
{
    law_names_are_under_their_directory(dir, "minipaw"@);
    law_names_are_under_their_directory(dir, "SOUL.md"@);
    law_names_are_under_their_directory(dir, "minipaw.json"@);
    law_names_are_under_their_directory(dir, "skills"@);
    law_names_are_under_their_directory(dir, "memory"@);
    law_names_are_under_their_directory(dir, "workspace"@);
    assert(dir.subrange(0, dir.len() as int) =~= dir);
    let r = removals(mode, dir);
    if mode == UninstallMode::RemoveUserData {
        assert(r[0] == RemovalModel::File(joined(dir, "minipaw"@)));
        assert(r[4] == RemovalModel::Dir(joined(dir, "memory"@)));
    }
}

/// A mode that was settled is the one that is carried out; an unsafe directory is
/// refused, and one who does not agree removes nothing.
pub proof fn law_settled_mode_is_carried_out(
    m: UninstallModel,
    mode: UninstallMode,
    typed: Seq<char>,
)
    ensures
        m.with_mode(mode).mode == mode,
        m.with_mode(mode).dir == m.dir,
        is_unsafe_dir(m.dir) ==> m.with_mode(mode).stage == UninstallStage::Over(2),
        !is_unsafe_dir(m.dir) && m.yes ==> m.with_mode(mode).stage == UninstallStage::Remove,
        !is_unsafe_dir(m.dir) && !m.yes ==> m.with_mode(mode).stage == UninstallStage::Confirm,
        m.stage == UninstallStage::Confirm ==> m.after_answer(typed).mode == m.mode && (
        m.after_answer(typed).stage == UninstallStage::Remove || m.after_answer(typed).stage
            == UninstallStage::Over(0)),
        m.stage == UninstallStage::Confirm && !is_agreed(answer_or("no"@, typed)) ==> m.after_answer(
            typed,
        ).stage == UninstallStage::Over(0),
{
}

/// The lines of a managed block are taken out of a profile, the others kept: those
/// before it and those behind it.
pub proof fn law_lines_around_the_block_are_kept(
    before: Seq<Seq<char>>,
    block: Seq<Seq<char>>,
    open: Seq<char>,
    close: Seq<char>,
    behind: Seq<Seq<char>>,
)
    requires
        chars::trim(open) == "# minipaw managed block"@,
        chars::trim(close) == "# end minipaw managed block"@,
        forall|i: int|
            0 <= i < before.len() ==> chars::trim(#[trigger] before[i])
                != "# minipaw managed block"@,
        forall|i: int|
            0 <= i < block.len() ==> chars::trim(#[trigger] block[i])
                != "# minipaw managed block"@ && chars::trim(block[i])
                != "# end minipaw managed block"@,
    ensures
        unmanaged(before + (seq![open] + (block + (seq![close] + behind))), false) == before
            + unmanaged(behind, false),
    decreases before.len(),
{
    let tail = seq![open] + (block + (seq![close] + behind));
    let all = before + tail;
    if before.len() > 0 {
        let rest = before.skip(1);
        assert(all[0] == before[0]);
        assert(all.skip(1) =~= rest + tail);
        assert forall|i: int| 0 <= i < rest.len() implies chars::trim(#[trigger] rest[i])
            != "# minipaw managed block"@ by {
            assert(rest[i] == before[i + 1]);
        }
        assert(chars::trim(before[0]) != "# minipaw managed block"@);
        law_lines_around_the_block_are_kept(rest, block, open, close, behind);
        assert(seq![before[0]] + (rest + unmanaged(behind, false)) =~= before + unmanaged(
            behind,
            false,
        ));
    } else {
        assert(all =~= tail);
        assert(tail[0] == open);
        assert(tail.skip(1) =~= block + (seq![close] + behind));
        lemma_block_skipped(block, close, behind);
        assert(before + unmanaged(behind, false) =~= unmanaged(behind, false));
    }
}

proof fn lemma_block_skipped(block: Seq<Seq<char>>, close: Seq<char>, behind: Seq<Seq<char>>)
    requires
        chars::trim(close) == "# end minipaw managed block"@,
        forall|i: int|
            0 <= i < block.len() ==> chars::trim(#[trigger] block[i])
                != "# minipaw managed block"@ && chars::trim(block[i])
                != "# end minipaw managed block"@,
    ensures
        unmanaged(block + (seq![close] + behind), true) == unmanaged(behind, false),
    decreases block.len(),
{
    let all = block + (seq![close] + behind);
    reveal_strlit("# minipaw managed block");
    reveal_strlit("# end minipaw managed block");
    assert("# minipaw managed block"@.len() != "# end minipaw managed block"@.len());
    if block.len() == 0 {
        assert(all =~= seq![close] + behind);
        assert(all[0] == close);
        assert(all.skip(1) =~= behind);
    } else {
        let rest = block.skip(1);
        assert(all[0] == block[0]);
        assert(all.skip(1) =~= rest + (seq![close] + behind));
        assert forall|i: int| 0 <= i < rest.len() implies chars::trim(#[trigger] rest[i])
            != "# minipaw managed block"@ && chars::trim(rest[i])
            != "# end minipaw managed block"@ by {
            assert(rest[i] == block[i + 1]);
        }
        assert(chars::trim(block[0]) != "# minipaw managed block"@);
        lemma_block_skipped(rest, close, behind);
    }
}

/// Lines that are written down are there, each one.
pub proof fn law_written_lines_are_there(lines: Seq<Seq<char>>, i: int)
    requires
        0 <= i < lines.len(),
    ensures
        occurs(with_breaks(lines), lines[i]),
    decreases lines.len(),
{
    let before = with_breaks(lines.drop_last());
    let last = lines.last();
    if i < lines.len() - 1 {
        law_written_lines_are_there(lines.drop_last(), i);
        crate::laws::texts::law_occurrence_carries_over(seq![], before, last + "\n"@, lines[i]);
        assert(Seq::<char>::empty() + before + (last + "\n"@) =~= before + last + "\n"@);
    } else {
        lemma_part(before, last, "\n"@);
    }
}

/// Everything that is configured is shown, the models first and Telegram last, its
/// token masked.
pub proof fn law_everything_configured_is_shown(c: FileModel, i: int)
    ensures
        c.primary_agent matches Some(m) ==> (0 <= i < llm_lines(""@, m).len() ==> show_lines(
            c,
        ).contains(llm_lines(""@, m)[i])),
        c.advisor matches Some(a) ==> (0 <= i < advisor_lines(a).len() ==> show_lines(
            c,
        ).contains(advisor_lines(a)[i])),
        c.telegram matches Some(t) ==> show_lines(c).contains(
            LineModel::Printed("telegram."@ + "token="@ + masked(t.token)),
        ),
        c.telegram matches Some(t) ==> show_lines(c).contains(
            LineModel::Printed("telegram."@ + "chats="@ + chats_text(t.allowed_chats)),
        ),
{
    let all = show_lines(c);
    let a = match c.primary_agent {
        Some(m) => llm_lines(""@, m),
        None => seq![LineModel::Printed("model: not configured"@)],
    };
    let b = match c.advisor {
        Some(x) => advisor_lines(x),
        None => seq![],
    };
    if 0 <= i < a.len() {
        assert(all[i] == a[i]);
    }
    if 0 <= i < b.len() {
        assert(all[a.len() + i] == b[i]);
    }
    if let Some(t) = c.telegram {
        let n = (a.len() + b.len()) as int;
        assert(all[n] == LineModel::Printed("telegram."@ + "token="@ + masked(t.token)));
        assert(all[n + 1] == LineModel::Printed(
            "telegram."@ + "chats="@ + chats_text(t.allowed_chats),
        ));
    }
}

/// What was set is confirmed: the provider, the address and the model, and that
/// there is a key where there is one.
pub proof fn law_settings_are_confirmed(prefix: Seq<char>, o: OptionsModel)
    ensures
        occurs(said(confirmed(prefix, o)[0]), o.provider),
        occurs(said(confirmed(prefix, o)[1]), o.url),
        occurs(said(confirmed(prefix, o)[2]), o.model),
        confirmed(prefix, o).len() == (if o.key() is Some {
            4int
        } else {
            3
        }),
        o.clear_key ==> o.key() is None,
        !o.clear_key ==> o.key() == o.api_key,
{
    let none = Seq::<char>::empty();
    lemma_part(prefix + "provider="@, o.provider, none);
    assert(prefix + "provider="@ + o.provider + none =~= prefix + "provider="@ + o.provider);
    lemma_part(prefix + "url="@, o.url, none);
    assert(prefix + "url="@ + o.url + none =~= prefix + "url="@ + o.url);
    lemma_part(prefix + "model="@, o.model, none);
    assert(prefix + "model="@ + o.model + none =~= prefix + "model="@ + o.model);
}

/// Uninstalling is over once everything was removed.
pub proof fn law_uninstalling_ends(m: UninstallModel)
    ensures
        m.after_removal().stage == UninstallStage::Over(0),
        m.after_removal().dir == m.dir,
        m.after_removal().lines.len() == 1,
{
}

/// A switch is on for `1` and for `true` and `yes` in small letters or in capitals,
/// and for nothing else.
pub proof fn law_words_that_switch_on(s: Seq<char>)
    ensures
        is_yes("1"@),
        is_yes(s) && s != "1"@ ==> chars::lower(s) == "true"@ || chars::lower(s) == "yes"@,
        (chars::lower(s) == "true"@ || chars::lower(s) == "yes"@) && (chars::lower(s) == s
            || forall|i: int| 0 <= i < s.len() ==> 'A' <= #[trigger] s[i] <= 'Z') ==> is_yes(s),
{
    reveal_strlit("1");
    reveal_strlit("true");
    reveal_strlit("TRUE");
    reveal_strlit("yes");
    reveal_strlit("YES");
    assert(chars::lower("true"@) =~= "true"@);
    assert(chars::lower("TRUE"@) =~= "true"@);
    assert(chars::lower("yes"@) =~= "yes"@);
    assert(chars::lower("YES"@) =~= "yes"@);
    if forall|i: int| 0 <= i < s.len() ==> 'A' <= #[trigger] s[i] <= 'Z' {
        let l = chars::lower(s);
        assert(l.len() == s.len());
        assert forall|i: int| 0 <= i < s.len() implies l[i] == chars::lower_char(
            #[trigger] s[i],
        ) by {}
        if l == "true"@ {
            assert(l[0] == 't' && l[1] == 'r' && l[2] == 'u' && l[3] == 'e');
            assert(s[0] == 'T' && s[1] == 'R' && s[2] == 'U' && s[3] == 'E');
            assert(s =~= "TRUE"@);
        }
        if l == "yes"@ {
            assert(l[0] == 'y' && l[1] == 'e' && l[2] == 's');
            assert(s[0] == 'Y' && s[1] == 'E' && s[2] == 'S');
            assert(s =~= "YES"@);
        }
    }
}

/// An answer is a consent by `y` or `yes`, with white space around it or capitals in
/// it, and by nothing else.
pub proof fn law_consent(answer: Seq<char>)
    ensures
        chars::lower(chars::trim(answer)) == "yes"@ ==> is_agreed(answer),
        chars::lower(chars::trim(answer)) == "y"@ ==> is_agreed(answer),
        is_agreed(answer) ==> chars::lower(chars::trim(answer)) == "y"@ || chars::lower(
            chars::trim(answer),
        ) == "yes"@,
{
}

/// Every way to uninstall is chosen by its own name.
pub proof fn law_ways_are_chosen_by_name(mode: UninstallMode, answer: Seq<char>)
    requires
        chars::trim(answer) == mode.name(),
    ensures
        mode_chosen(answer) == Some(mode),
{
    reveal_strlit("keep-data");
    reveal_strlit("remove-user-data");
    reveal_strlit("purge");
    reveal_strlit("1");
    reveal_strlit("2");
    reveal_strlit("3");
    reveal_strlit("keep");
    reveal_strlit("remove");
    reveal_strlit("remove-data");
    assert("keep-data"@[0] == 'k' && "remove-user-data"@[0] == 'r' && "purge"@[0] == 'p');
    assert("keep"@[0] == 'k' && "remove"@[0] == 'r' && "remove-data"@[0] == 'r');
    assert("1"@.len() == 1 && "2"@.len() == 1 && "3"@.len() == 1);
}

/// The long and the short form of the option that consents are one.
pub proof fn law_consent_has_two_forms(
    args: Seq<Seq<char>>,
    i: int,
    mode: Option<UninstallMode>,
    yes: bool,
)
    requires
        0 <= i < args.len(),
        args[i] == "--yes"@ || args[i] == "-y"@,
    ensures
        uninstall_options(args, i, mode, yes) == uninstall_options(args, i + 1, mode, true),
{
    reveal_strlit("--yes");
    reveal_strlit("-y");
    reveal_strlit("--keep-data");
    reveal_strlit("--remove-user-data");
    reveal_strlit("--remove-data");
    reveal_strlit("--purge");
    reveal_strlit("--remove-minipaw-folder");
    reveal_strlit("--remove-folder");
    assert("--yes"@.len() == 5 && "-y"@.len() == 2);
}

/// A directory that must not be removed stays so under another spelling.
pub proof fn law_spelling_of_the_root(dir: Seq<char>)
    requires
        is_unsafe_dir(dir),
        dir.len() > 0,
    ensures
        is_unsafe_dir(dir + seq!['/'] + "."@),
        is_unsafe_dir(dir + seq!['/'] + Seq::<char>::empty()),
{
    let set = CharSet::Only('/');
    let old_parts = chars::pieces(dir, set);
    reveal_strlit(".");
    let dot = "."@;
    lemma_pieces_break(dir, '/', dot, set);
    chars::lemma_until_is(dot, set, 1);
    assert(chars::pieces(dot, set) =~= seq![dot]);
    let s = dir + seq!['/'] + dot;
    assert(s[0] == '/');
    assert forall|i: int| 0 <= i < chars::pieces(s, set).len() implies (
    #[trigger] chars::pieces(s, set)[i]).len() == 0 || chars::pieces(s, set)[i] == "."@ by {
        if i < old_parts.len() {
            assert(chars::pieces(s, set)[i] == old_parts[i]);
        }
    }
    let none = Seq::<char>::empty();
    lemma_pieces_break(dir, '/', none, set);
    chars::lemma_until_is(none, set, 0);
    assert(chars::pieces(none, set) =~= seq![none]);
    let u = dir + seq!['/'] + none;
    assert(u[0] == '/');
    assert forall|i: int| 0 <= i < chars::pieces(u, set).len() implies (
    #[trigger] chars::pieces(u, set)[i]).len() == 0 || chars::pieces(u, set)[i] == "."@ by {
        if i < old_parts.len() {
            assert(chars::pieces(u, set)[i] == old_parts[i]);
        }
    }
}

/// The set-up asks for a key where the provider needs one; elsewhere it goes on with
/// the key that there is, and writes the model as it was named.
pub proof fn law_keys_are_asked_for(m: OnboardingModel, typed: Seq<char>)
    requires
        m.stage == OnboardingStage::Model,
    ensures
        chars::trim(m.provider) == "deepseek"@ || chars::trim(m.provider) == "openai"@ <==> m.after(
            typed,
        ).stage == OnboardingStage::Key,
        m.after(typed).stage != OnboardingStage::Key ==> m.after(typed).file == Some(
            rendered(
                with_primary(
                    config_in(m.file),
                    m.provider,
                    m.url,
                    answer_or(m.default(), typed),
                    if m.current is Some {
                        (m.current->0).api_key
                    } else {
                        None
                    },
                ),
            ),
        ),
        m.after(typed).stage == OnboardingStage::Key ==> m.after(typed).file == m.file && m.after(
            typed,
        ).write is None,
{
}

}
