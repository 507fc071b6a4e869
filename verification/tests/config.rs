use std::collections::BTreeSet;

use minipaw::config::{
    clear_advisor, default_workspace, pair_telegram_chat, parse_routing_block, read_file_config,
    render_file_config, unpair_telegram_chat, write_advisor_agent, write_advisor_mode,
    write_advisor_route, write_primary_config, write_telegram_config, AdvisorConfig, AgentConfig,
    Environment, FileConfig, LlmConfig, Routing, TelegramBotConfig,
};
use minipaw::json::{
    extract_json_bool, extract_json_i64_array, extract_json_string, extract_object, json_escape,
};
use minipaw::types::{AdvisorMode, AgentChoice, MessageClass};

#[test]
fn extracts_primary_config() {
    let text = r#"{"agents":{"primary":{"provider":"llamacpp","url":"http://host/v1","model":"qwen9b"}}}"#;
    let primary = extract_object(text, "primary").unwrap();
    assert_eq!(extract_json_string(primary, "model").unwrap(), "qwen9b");
}

#[test]
fn extracts_telegram_config() {
    let text = r#"{"telegram":{"bot_token":"123:abc","allowed_chats":[10,-20]}}"#;
    let telegram = extract_object(text, "telegram").unwrap();
    assert_eq!(
        extract_json_i64_array(telegram, "allowed_chats"),
        BTreeSet::from([-20, 10])
    );
}

#[test]
fn renders_telegram_without_dropping_primary_agent() {
    let config = FileConfig {
        primary_agent: Some(LlmConfig {
            provider: "llamacpp".into(),
            url: "http://host/v1".into(),
            model: "qwen9b".into(),
            api_key: None,
            thinking: false,
        }),
        telegram: Some(TelegramBotConfig {
            token: "123:abc".into(),
            allowed_chats: BTreeSet::from([10]),
        }),
        advisor: None,
    };

    let rendered = render_file_config(&config);

    assert!(rendered.contains("\"primary\""));
    assert!(rendered.contains("\"telegram\""));
    assert!(rendered.contains("\"allowed_chats\": [10]"));
}

#[test]
fn renders_and_reparses_advisor_block() {
    let mut routing = Routing::new();
    routing.insert(MessageClass::MiniWhy, AgentChoice::Advisor);
    routing.insert(MessageClass::MiniHow, AgentChoice::Primary);
    let config = FileConfig {
        primary_agent: Some(LlmConfig {
            provider: "llamacpp".into(),
            url: "http://host/v1".into(),
            model: "qwen9b".into(),
            api_key: None,
            thinking: false,
        }),
        telegram: None,
        advisor: Some(AdvisorConfig {
            mode: AdvisorMode::Trial,
            agent: LlmConfig {
                provider: "deepseek".into(),
                url: "https://api.deepseek.com/v1".into(),
                model: "deepseek-chat".into(),
                api_key: Some("sk-test".into()),
                thinking: false,
            },
            routing,
        }),
    };

    let rendered = render_file_config(&config);
    assert!(rendered.contains("\"advisor\""));
    assert!(rendered.contains("\"deepseek-chat\""));
    assert!(rendered.contains("\"advisor_mode\""));
    assert!(rendered.contains("\"miniwhy\": \"advisor\""));

    // round-trip parse
    let advisor_block = extract_object(&rendered, "advisor_mode").unwrap();
    let parsed_routing = parse_routing_block(advisor_block);
    assert_eq!(
        parsed_routing.get(MessageClass::MiniWhy),
        Some(AgentChoice::Advisor)
    );
    assert_eq!(read_file_config(Some(&rendered)), config);
}

fn model(name: &str) -> LlmConfig {
    LlmConfig {
        provider: "llamacpp".into(),
        url: "http://h/v1".into(),
        model: name.into(),
        api_key: Some("k".into()),
        thinking: false,
    }
}

#[test]
fn rendered_settings_read_back() {
    let config = FileConfig {
        primary_agent: Some(model("a \"quoted\" \\ {name}\n")),
        telegram: Some(TelegramBotConfig {
            token: "1:}".into(),
            allowed_chats: BTreeSet::from([i64::MIN, 0, i64::MAX]),
        }),
        advisor: Some(AdvisorConfig {
            mode: AdvisorMode::Work,
            agent: model("b"),
            routing: Routing::new(),
        }),
    };
    let rendered = render_file_config(&config);
    assert_eq!(read_file_config(Some(&rendered)), config);
    let none = FileConfig { primary_agent: None, telegram: None, advisor: None };
    assert_eq!(read_file_config(Some(&render_file_config(&none))), none);
    assert_eq!(read_file_config(None), none);
}

#[test]
fn edits_keep_whether_a_model_thinks() {
    let thinking = |name: &str| LlmConfig { thinking: true, ..model(name) };
    let config = FileConfig {
        primary_agent: Some(thinking("a")),
        telegram: None,
        advisor: Some(AdvisorConfig {
            mode: AdvisorMode::Work,
            agent: LlmConfig { api_key: None, ..thinking("b") },
            routing: Routing::new(),
        }),
    };
    let file = render_file_config(&config);
    assert!(file.contains("\"api_key\": \"k\",\n      \"thinking\": true\n    }"));
    assert_eq!(read_file_config(Some(&file)), config);
    let edited = write_telegram_config(Some(&file), "1:t", BTreeSet::from([3]));
    let read = read_file_config(Some(&edited));
    assert_eq!(read.primary_agent, config.primary_agent);
    assert_eq!(read.advisor, config.advisor);
    assert_eq!(read.telegram.unwrap().allowed_chats, BTreeSet::from([3]));
    let set = write_primary_config(Some(&edited), "openai", "http://x", "y", None);
    let primary = read_file_config(Some(&set)).primary_agent.unwrap();
    assert!(primary.thinking);
    assert_eq!((primary.model.as_str(), primary.api_key), ("y", None));
}

#[test]
fn edits_touch_their_own_part_only() {
    let first = write_primary_config(None, "llamacpp", "http://h", "m", Some("sk"));
    let second = write_telegram_config(Some(&first), "1:t", BTreeSet::from([3]));
    let third = write_advisor_agent(Some(&second), "openai", "http://a", "n", None);
    let all = read_file_config(Some(&third));
    assert_eq!(all.primary_agent.as_ref().unwrap().api_key.as_deref(), Some("sk"));
    assert_eq!(all.telegram.as_ref().unwrap().token, "1:t");
    assert_eq!(all.advisor.as_ref().unwrap().mode, AdvisorMode::Trial);
    let fourth = write_advisor_mode(Some(&third), AdvisorMode::Training).unwrap();
    let fifth = write_advisor_route(Some(&fourth), MessageClass::MiniHow, AgentChoice::Advisor).unwrap();
    let advisor = read_file_config(Some(&fifth)).advisor.unwrap();
    assert_eq!(advisor.mode, AdvisorMode::Training);
    assert_eq!(advisor.route_for(MessageClass::MiniHow), AgentChoice::Advisor);
    assert_eq!(advisor.route_for(MessageClass::MiniWhat), AgentChoice::Primary);
    let sixth = clear_advisor(Some(&fifth));
    let last = read_file_config(Some(&sixth));
    assert!(last.advisor.is_none());
    assert_eq!(last.primary_agent, all.primary_agent);
    assert_eq!(last.telegram, all.telegram);
    assert!(write_advisor_mode(Some(&sixth), AdvisorMode::Trial).is_err());
    assert!(write_advisor_route(None, MessageClass::MiniHow, AgentChoice::Primary).is_err());
}

#[test]
fn chats_are_paired_and_unpaired() {
    let file = write_telegram_config(None, "1:t", BTreeSet::from([3]));
    let (paired, new) = pair_telegram_chat(Some(&file), -9).unwrap();
    assert!(new);
    let (again, new) = pair_telegram_chat(Some(&paired), -9).unwrap();
    assert!(!new);
    assert_eq!(again, paired);
    let (unpaired, was) = unpair_telegram_chat(Some(&paired), -9).unwrap();
    assert!(was);
    assert_eq!(unpaired, file);
    let (still, was) = unpair_telegram_chat(Some(&file), -9).unwrap();
    assert!(!was);
    assert_eq!(still, file);
    assert!(pair_telegram_chat(None, 1).is_err());
    assert!(unpair_telegram_chat(Some("{}"), 1).is_err());
}

fn no_environment() -> Environment {
    Environment {
        allow_exec: None,
        exec_allowlist: None,
        telegram_token: None,
        telegram_chats: None,
        llm_provider: None,
        llm_url: None,
        llm_model: None,
        llm_api_key: None,
        llm_thinking: None,
    }
}

#[test]
fn environment_overrides_the_file() {
    let file = write_primary_config(None, "llamacpp", "http://h", "m", None);
    let file = write_telegram_config(Some(&file), "1:t", BTreeSet::from([3]));
    let plain = AgentConfig::from_env("/w".to_owned(), Some(&file), &no_environment());
    assert_eq!(plain.telegram_token.as_deref(), Some("1:t"));
    assert_eq!(plain.primary_agent.as_ref().unwrap().url, "http://h");
    assert!(!plain.allow_exec);
    let env = Environment {
        allow_exec: Some("yes".into()),
        exec_allowlist: Some("git, ls,,git".into()),
        telegram_token: Some("2:u".into()),
        telegram_chats: Some("4,x,-5".into()),
        llm_provider: Some("openai".into()),
        llm_url: Some("http://e".into()),
        llm_model: Some("n".into()),
        llm_api_key: Some("k".into()),
        llm_thinking: Some("1".into()),
    };
    let both = AgentConfig::from_env("/w".to_owned(), Some(&file), &env);
    assert_eq!(both.primary_agent.unwrap().url, "http://h");
    let set = AgentConfig::from_env("/w".to_owned(), None, &env);
    assert_eq!(set.workspace, "/w");
    assert!(set.allow_exec);
    assert_eq!(set.allowed_exec, vec!["git", "ls"]);
    assert_eq!(set.telegram_token.as_deref(), Some("2:u"));
    assert_eq!(set.telegram_allowed_chats, BTreeSet::from([-5, 4]));
    let primary = set.primary_agent.unwrap();
    assert_eq!((primary.provider.as_str(), primary.url.as_str()), ("openai", "http://e"));
    assert!(primary.thinking);
    let off = Environment { allow_exec: Some("on".into()), llm_url: None, ..env };
    let refused = AgentConfig::from_env("/w".to_owned(), None, &off);
    assert!(!refused.allow_exec);
    assert!(refused.primary_agent.is_none());
}

#[test]
fn constrained_settings_are_the_defaults() {
    let config = AgentConfig::constrained("/w".to_owned());
    assert!(!config.allow_exec);
    assert!(config.allowed_exec.is_empty());
    assert!(config.telegram_token.is_none());
    assert!(config.primary_agent.is_none());
    assert_eq!(
        (config.history_limit, config.max_file_bytes, config.max_tool_output_bytes, config.tool_timeout),
        (16, 16384, 24576, 10)
    );
}

#[test]
fn workspace_is_found_from_the_environment() {
    assert_eq!(default_workspace(Some("/m"), Some("/h")), "/m");
    assert_eq!(default_workspace(None, Some("/h")), "/h/.minipaw");
    assert_eq!(default_workspace(None, None), ".");
}

#[test]
fn values_are_escaped_and_read_back() {
    let value = "a\"b\\c\nd\re\tf\u{7}g→";
    let text = format!("{{\"k\": \"{}\", \"on\": true}}", json_escape(value));
    assert_eq!(extract_json_string(&text, "k").unwrap(), "a\"b\\c\nd\re\tf g→");
    assert_eq!(extract_json_bool(&text, "on"), Some(true));
    assert_eq!(extract_json_bool(&text, "k"), None);
    assert_eq!(extract_json_string(&text, "missing"), None);
}

#[test]
fn objects_end_where_their_braces_do() {
    let text = r#"{"a": {"x": "}", "y": {"z": "\"{"}}, "b": {}}"#;
    assert_eq!(extract_object(text, "a"), Some(r#"{"x": "}", "y": {"z": "\"{"}}"#));
    assert_eq!(extract_object(text, "b"), Some("{}"));
    assert_eq!(extract_object(text, "c"), None);
    assert_eq!(extract_object("{\"a\": {", "a"), None);
    assert_eq!(
        extract_json_i64_array("{\"l\": [3, 1,x, 3,-2]}", "l"),
        BTreeSet::from([-2, 1, 3])
    );
}
