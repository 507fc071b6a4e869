use minipaw::adjustments::{write_proposal_at, AdjustmentDirective};
use minipaw::cli::settings::{
    config_advisor_mode, config_advisor_proposals, config_advisor_route, config_advisor_set,
    config_command, config_set, config_show, config_telegram,
};
use minipaw::cli::{CommandReply, Line};
use minipaw::config::read_file_config;
use minipaw::prompts::PromptStore;
use minipaw::table::Table;
use minipaw::types::{AdvisorMode, AgentChoice, MessageClass, TaskId};

fn words(args: &[&str]) -> Vec<String> {
    args.iter().map(|a| a.to_string()).collect()
}

fn store() -> PromptStore {
    PromptStore::install("/ws".to_owned(), Table::new(), Table::new(), Table::new())
}

fn printed(reply: &CommandReply) -> Vec<String> {
    reply
        .lines
        .iter()
        .map(|line| match line {
            Line::Printed(t) => t.clone(),
            Line::Complaint(t) => format!("! {t}"),
        })
        .collect()
}

const TOKEN: &str = "123456:abcdefghijklmnopqrstuvwxyz_ABC-123";

#[test]
fn model_settings_are_kept_unless_replaced() {
    let first = config_set(None, &words(&["set", "--url", "http://h", "--api-key", "sk"]));
    assert_eq!(first.code, 0);
    assert_eq!(
        printed(&first),
        vec!["provider=llamacpp", "url=http://h", "model=local-model", "api_key=<set>"]
    );
    let file = first.file.unwrap();
    let second = config_set(Some(&file), &words(&["set", "--model", "m2"]));
    let llm = read_file_config(second.file.as_deref()).primary_agent.unwrap();
    assert_eq!((llm.url.as_str(), llm.model.as_str()), ("http://h", "m2"));
    assert_eq!(llm.api_key.as_deref(), Some("sk"));
    let unknown = config_set(None, &words(&["set", "--mode"]));
    assert_eq!(printed(&unknown), vec!["! unknown config set option: --mode"]);
    let missing = config_set(None, &words(&["set", "--model"]));
    assert_eq!(printed(&missing), vec!["! --model requires a value"]);
    assert_eq!((missing.code, missing.file), (2, None));
    assert_eq!(config_set(None, &words(&["set", "--help"])).file, None);
}

#[test]
fn advisor_is_set_moded_and_routed() {
    let set = config_advisor_set(None, &words(&["set", "--api-key", "sk"]));
    assert_eq!(
        printed(&set),
        vec![
            "advisor.provider=deepseek",
            "advisor.url=https://api.deepseek.com/v1",
            "advisor.model=deepseek-chat",
            "advisor.api_key=<set>",
        ]
    );
    let file = set.file.unwrap();
    let moded = config_advisor_mode(Some(&file), &words(&["mode", "working"]));
    assert_eq!(printed(&moded), vec!["advisor.mode=work"]);
    let file = moded.file.unwrap();
    let routed = config_advisor_route(Some(&file), &words(&["route", "miniwhy", "advisor"]));
    assert_eq!(printed(&routed), vec!["advisor.routing.miniwhy=advisor"]);
    let advisor = read_file_config(routed.file.as_deref()).advisor.unwrap();
    assert_eq!(advisor.mode, AdvisorMode::Work);
    assert_eq!(advisor.route_for(MessageClass::MiniWhy), AgentChoice::Advisor);
    assert_eq!(
        printed(&config_advisor_mode(None, &words(&["mode", "trial"]))),
        vec!["! advisor mode update failed: advisor agent is not configured"]
    );
    assert_eq!(
        printed(&config_advisor_mode(None, &words(&["mode", "x"]))),
        vec!["! unknown advisor mode: x (expected training|trial|working)"]
    );
    assert_eq!(
        printed(&config_advisor_route(None, &words(&["route", "x", "advisor"]))),
        vec!["! unknown message class: x"]
    );
    assert_eq!(
        printed(&config_advisor_route(None, &words(&["route", "minihow", "x"]))),
        vec!["! unknown agent choice: x"]
    );
}

#[test]
fn telegram_is_set_paired_and_shown() {
    let set = config_telegram(None, &words(&["telegram", "set", "--token", TOKEN, "--chats", "5,x,-3"]));
    assert_eq!(
        printed(&set),
        vec!["telegram configured: token=123456:***-123 chats=-3,5"]
    );
    let file = set.file.unwrap();
    let paired = config_telegram(Some(&file), &words(&["telegram", "pair", "9"]));
    assert_eq!(printed(&paired), vec!["telegram chat paired: 9"]);
    let again = config_telegram(paired.file.as_deref(), &words(&["telegram", "pair", "9"]));
    assert_eq!(printed(&again), vec!["telegram chat already paired: 9"]);
    let unpaired = config_telegram(again.file.as_deref(), &words(&["telegram", "unpair", "9"]));
    assert_eq!(printed(&unpaired), vec!["telegram chat unpaired: 9"]);
    assert_eq!(unpaired.file.as_deref(), Some(file.as_str()));
    let shown = config_telegram(Some(&file), &words(&["telegram", "show"]));
    assert_eq!(printed(&shown), vec!["token=123456:***-123", "chats=-3,5"]);
    for (args, line) in [
        (vec!["telegram", "set", "--chats", "5"], "! telegram set requires --token <bot-token>"),
        (vec!["telegram", "set", "--token", TOKEN], "! telegram set requires --chats <chat-id[,chat-id...]>"),
        (
            vec!["telegram", "set", "--token", TOKEN, "--chats", "x"],
            "! --chats must contain at least one numeric chat id",
        ),
        (vec!["telegram", "set", "--other"], "! unknown telegram config option: --other"),
        (vec!["telegram", "pair", "x"], "! telegram pair requires a numeric chat id"),
        (vec!["telegram", "pair", "1"], "! telegram pair failed: telegram bot token is not configured"),
        (vec!["telegram", "unpair"], "! telegram unpair requires a numeric chat id"),
        (vec!["telegram", "unpair", "1"], "! telegram unpair failed: telegram bot token is not configured"),
    ] {
        let reply = config_telegram(None, &words(&args));
        assert_eq!(printed(&reply), vec![line]);
        assert_eq!((reply.code, reply.file), (2, None));
    }
}

#[test]
fn configuration_is_shown_without_secrets() {
    let file = config_set(None, &words(&["set", "--api-key", "secret-key"])).file.unwrap();
    let file = config_telegram(Some(&file), &words(&["telegram", "set", "--token", TOKEN, "--chats", "5"]))
        .file
        .unwrap();
    let shown = printed(&config_show(Some(&file)));
    assert!(shown.contains(&"api_key=<set>".to_owned()));
    assert!(shown.contains(&"telegram.token=123456:***-123".to_owned()));
    assert!(!shown.join("\n").contains("secret-key"));
    assert_eq!(printed(&config_show(None))[0], "model: not configured");
}

#[test]
fn proposals_are_listed_applied_and_rejected() {
    let mut store = store();
    assert_eq!(
        printed(&config_advisor_proposals(&mut store, &words(&["proposals"]))),
        vec!["no advisor proposals pending"]
    );
    let rule = AdjustmentDirective::RuleAppend {
        class: MessageClass::MiniHow,
        rule: "check twice".into(),
    };
    write_proposal_at(&mut store, TaskId(4), 10, &rule);
    write_proposal_at(&mut store, TaskId(5), 11, &rule);
    let listed = printed(&config_advisor_proposals(&mut store, &words(&["proposals", "list"])));
    assert_eq!(listed[0], "10-rule-append-t4 kind=rule-append [minihow] check twice");
    let shown =
        printed(&config_advisor_proposals(&mut store, &words(&["proposals", "show", "10-rule-append-t4"])));
    assert_eq!(
        shown[..5],
        ["id: 10-rule-append-t4", "kind: rule-append", "class: minihow", "task: t4", "created_at: 10"]
    );
    let applied =
        config_advisor_proposals(&mut store, &words(&["proposals", "apply", "10-rule-append-t4"]));
    assert!(printed(&applied)[0].starts_with("applied 10-rule-append-t4: appended rule "));
    assert!(store.read_class(MessageClass::MiniHow).contains("check twice"));
    let rejected =
        config_advisor_proposals(&mut store, &words(&["proposals", "reject", "11-rule-append-t5"]));
    assert_eq!(printed(&rejected), vec!["rejected 11-rule-append-t5"]);
    assert_eq!(store.proposals.len(), 0);
    let gone = config_advisor_proposals(&mut store, &words(&["proposals", "show", "zz"]));
    assert_eq!(printed(&gone), vec!["! proposal not found: zz"]);
    let usage = config_advisor_proposals(&mut store, &words(&["proposals", "apply"]));
    assert_eq!(printed(&usage), vec!["! usage: minipaw config advisor proposals apply <id>"]);
    let unknown = config_advisor_proposals(&mut store, &words(&["proposals", "zap"]));
    assert_eq!(printed(&unknown), vec!["! unknown proposals subcommand: zap"]);
}

#[test]
fn config_words_are_dispatched() {
    let mut store = store();
    assert_eq!(printed(&config_command(&mut store, None, &words(&["check"]))), vec!["config ok"]);
    assert_eq!(config_command(&mut store, None, &words(&["other"])).code, 2);
    let set = config_command(&mut store, None, &words(&["advisor", "set"]));
    let cleared = config_command(&mut store, set.file.as_deref(), &words(&["advisor", "clear"]));
    assert_eq!(printed(&cleared), vec!["advisor cleared"]);
    assert!(read_file_config(cleared.file.as_deref()).advisor.is_none());
    let shown = config_command(&mut store, None, &words(&["advisor", "show"]));
    assert_eq!(printed(&shown), vec!["advisor: not configured"]);
}
