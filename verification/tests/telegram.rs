use std::collections::BTreeSet;

use minipaw::channels::telegram::{
    classify_message_kind, get_updates, get_updates_args, normalize_action_text, pairing_text,
    parse_updates, send_message, send_message_args, CurlReply, MessageKind, TelegramAdmission,
    TelegramChannel, TelegramConfig, TelegramMessage,
};
use minipaw::channels::telegram_agent::TelegramAgent;

#[test]
fn rejects_unknown_chat() {
    let channel = TelegramChannel::new(TelegramConfig {
        token: "token".to_owned(),
        allowed_chats: BTreeSet::from([7]),
    });

    assert!(channel
        .accept_message(TelegramMessage {
            update_id: 1,
            chat_id: 8,
            text: "hi".into(),
        })
        .is_err());
}

#[test]
fn unknown_chat_gets_pairing_instructions() {
    let channel = TelegramChannel::new(TelegramConfig {
        token: "token".to_owned(),
        allowed_chats: BTreeSet::from([7]),
    });

    let admission = channel.admit_message(TelegramMessage {
        update_id: 1,
        chat_id: 8,
        text: "hi".into(),
    });

    match admission {
        TelegramAdmission::PairingRequired(text) => {
            assert!(text.contains("chat_id=8"));
            assert!(text.contains("minipaw config telegram pair 8"));
        }
        _ => panic!("expected pairing instructions"),
    }
}

#[test]
fn classifies_knowledge_question() {
    assert_eq!(
        classify_message_kind("what time is it?"),
        MessageKind::Knowledge
    );
    assert_eq!(
        classify_message_kind("how does sqlite work?"),
        MessageKind::Knowledge
    );
    assert_eq!(
        classify_message_kind("read about sqlite"),
        MessageKind::Knowledge
    );
}

#[test]
fn classifies_slash_command_as_action() {
    assert_eq!(classify_message_kind("/ls src"), MessageKind::Action);
    assert_eq!(classify_message_kind("/read README.md"), MessageKind::Action);
    assert_eq!(classify_message_kind("/exec git status"), MessageKind::Action);
    assert_eq!(classify_message_kind("/help"), MessageKind::Knowledge);
}

#[test]
fn classifies_natural_language_action() {
    assert_eq!(classify_message_kind("list src"), MessageKind::Action);
    assert_eq!(classify_message_kind("ls ."), MessageKind::Action);
    assert_eq!(classify_message_kind("read src/main.rs"), MessageKind::Action);
    assert_eq!(classify_message_kind("read README.md"), MessageKind::Action);
    assert_eq!(classify_message_kind("run git status"), MessageKind::Action);
}

#[test]
fn classifies_indirect_action_phrases() {
    assert_eq!(classify_message_kind("can you list src"), MessageKind::Action);
    assert_eq!(
        classify_message_kind("please run git status"),
        MessageKind::Action
    );
    assert_eq!(
        classify_message_kind("could you read src/main.rs"),
        MessageKind::Action
    );
}

#[test]
fn normalizes_polite_prefixes() {
    assert_eq!(normalize_action_text("can you list src"), "list src");
    assert_eq!(
        normalize_action_text("please read src/main.rs"),
        "read src/main.rs"
    );
    assert_eq!(normalize_action_text("could you please run git status"), "run git status");
    assert_eq!(normalize_action_text("list src"), "list src");
}

#[test]
fn parses_updates_response() {
    let body = r#"{"ok":true,"result":[{"update_id":7,"message":{"chat":{"id":42,"type":"private"},"text":"hello\nworld"}}]}"#;
    let updates = parse_updates(body);

    assert_eq!(updates.len(), 1);
    assert_eq!(updates[0].update_id, 7);
    assert_eq!(updates[0].chat_id, 42);
    assert_eq!(updates[0].text, "hello\nworld");
}

#[test]
fn decodes_unicode_escapes_in_telegram_text() {
    // 告 = 告, 诉 = 诉, 我 = 我, 等 = 等, 于 = 于, 多 = 多, 少 = 少
    let body = r#"{"ok":true,"result":[{"update_id":1,"message":{"chat":{"id":42,"type":"private"},"text":"告诉我8*17等于多少"}}]}"#;
    let updates = parse_updates(body);

    assert_eq!(updates.len(), 1);
    assert_eq!(updates[0].text, "告诉我8*17等于多少");
}

#[test]
fn decodes_surrogate_pair_emoji() {
    // 😀 = U+1F600, encoded as surrogate pair 😀
    let body = r#"{"ok":true,"result":[{"update_id":1,"message":{"chat":{"id":42,"type":"private"},"text":"hi 😀"}}]}"#;
    let updates = parse_updates(body);

    assert_eq!(updates.len(), 1);
    assert_eq!(updates[0].text, "hi 😀");
}

fn text_of(encoded: &str) -> String {
    let body = format!(
        "{{\"result\":[{{\"update_id\":1,\"message\":{{\"chat\":{{\"id\":-42}},\"text\":\"{encoded}\"}}}}]}}"
    );
    let updates = parse_updates(&body);
    assert_eq!(updates.len(), 1);
    assert_eq!(updates[0].chat_id, -42);
    updates[0].text.clone()
}

#[test]
fn escapes_are_decoded() {
    assert_eq!(text_of("\\u544a\\u8BC9\\u62118*17"), "告诉我8*17");
    assert_eq!(text_of("hi \\uD83D\\uDE00!"), "hi 😀!");
    assert_eq!(text_of("a\\\"b\\\\c\\td\\re"), "a\"b\\c\td\re");
}

#[test]
fn updates_without_text_are_passed_over() {
    let body = "{\"ok\":true,\"result\":[{\"update_id\":1,\"message\":{\"chat\":{\"id\":5}}},{\"update_id\":2,\"message\":{\"chat\":{\"id\":6},\"text\":\"x\"}}]}";
    let updates = parse_updates(body);
    assert_eq!(updates.len(), 1);
    assert_eq!((updates[0].update_id, updates[0].chat_id), (2, 6));
    assert!(parse_updates("{}").is_empty());
}

#[test]
fn paired_chat_is_admitted() {
    let channel = TelegramChannel::new(TelegramConfig {
        token: "token".to_owned(),
        allowed_chats: BTreeSet::from([7]),
    });
    assert!(channel.config.validate_chat(7));
    let text = channel
        .accept_message(TelegramMessage { update_id: 1, chat_id: 7, text: "hi".into() })
        .unwrap();
    assert_eq!(text, "hi");
    match channel.admit_message(TelegramMessage { update_id: 1, chat_id: 7, text: "hi".into() }) {
        TelegramAdmission::Accepted(text) => assert_eq!(text, "hi"),
        TelegramAdmission::PairingRequired(_) => panic!("the chat is paired"),
    }
    assert!(pairing_text(-9).contains("chat_id=-9"));
}

#[test]
fn update_request_names_the_offset_and_both_timeouts() {
    let plain = get_updates_args("tok", None, 20);
    assert!(plain.contains(&"25".to_owned()));
    assert_eq!(
        plain.last().unwrap(),
        "https://api.telegram.org/bottok/getUpdates?timeout=20"
    );
    let from = get_updates_args("tok", Some(-3), 0);
    assert_eq!(
        from.last().unwrap(),
        "https://api.telegram.org/bottok/getUpdates?timeout=0&offset=-3"
    );
}

#[test]
fn update_replies_are_read_or_refused() {
    assert_eq!(
        get_updates(&CurlReply::Failed("none".into())).unwrap_err(),
        "curl getUpdates failed: none"
    );
    let exited = get_updates(&CurlReply::Exited {
        success: false,
        stdout: vec![],
        stderr: b"curl: (22) \xff\n".to_vec(),
    })
    .unwrap_err();
    assert_eq!(exited, "curl: (22) \u{fffd}\n");
    let body = b"{\"ok\":true,\"result\":[{\"update_id\":7,\"message\":{\"chat\":{\"id\":42},\"text\":\"a\xffb\"}}]}";
    let updates = get_updates(&CurlReply::Exited {
        success: true,
        stdout: body.to_vec(),
        stderr: vec![],
    })
    .unwrap();
    assert_eq!(updates.len(), 1);
    assert_eq!(updates[0].text, "a\u{fffd}b");
}

#[test]
fn message_request_encodes_the_text() {
    let args = send_message_args("tok", -5, "a b");
    assert!(args.iter().any(|a| a == "https://api.telegram.org/bottok/sendMessage"));
    assert!(args.iter().any(|a| a.contains("-5")));
    assert!(args.iter().any(|a| a.contains("a b")));
    assert_eq!(
        send_message(&CurlReply::Failed("none".into())).unwrap_err(),
        "curl sendMessage failed: none"
    );
    assert!(send_message(&CurlReply::Exited { success: true, stdout: vec![], stderr: vec![] }).is_ok());
    assert_eq!(
        send_message(&CurlReply::Exited { success: false, stdout: vec![], stderr: b"no".to_vec() })
            .unwrap_err(),
        "no"
    );
}

#[test]
fn agent_command_names_a_chat_and_a_text() {
    let agent = TelegramAgent::new("tok".to_owned());
    assert_eq!(agent.name(), "telegram");
    assert_eq!(agent.request(" -12 : hello: there ").unwrap(), (-12, "hello: there".to_owned()));
    assert_eq!(
        agent.request("12 hello").unwrap_err(),
        "telegram agent: expected <chat_id>:<message>"
    );
    assert_eq!(agent.request("x:hello").unwrap_err(), "telegram agent: invalid chat_id");
    assert_eq!(agent.execute(Ok(())).unwrap(), "sent");
    assert_eq!(agent.execute(Err("down".to_owned())).unwrap_err(), "down");
}
