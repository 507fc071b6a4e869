use minipaw::cli::gateway::{parse_simulated_gateway_event, SimulatedGatewayEvent};
use minipaw::cli::{cap_gateway_text, validate_telegram_token};

#[test]
fn parses_simulated_telegram_event() {
    assert_eq!(
        parse_simulated_gateway_event("telegram 123 hello there"),
        Some(SimulatedGatewayEvent::Telegram {
            chat_id: 123,
            text: "hello there".to_owned(),
        })
    );
}

#[test]
fn parses_simulated_agent_event() {
    assert_eq!(
        parse_simulated_gateway_event("agent agent:main:telegram:chat:123 forwarded note"),
        Some(SimulatedGatewayEvent::Agent {
            session_key: "agent:main:telegram:chat:123".to_owned(),
            text: "forwarded note".to_owned(),
        })
    );
}

#[test]
fn caps_gateway_text_on_char_boundary() {
    let capped = cap_gateway_text("abcédef", 5);

    assert_eq!(capped, "abcé [truncated]");
}

#[test]
fn rejects_malformed_telegram_token() {
    assert_eq!(
        validate_telegram_token("123:abc\",").unwrap_err(),
        "token secret is too short"
    );
    assert_eq!(
        validate_telegram_token("123:abcdefghijklmnopqrstuvwxyz\",").unwrap_err(),
        "token secret contains invalid characters"
    );
}

#[test]
fn accepts_well_formed_telegram_token_shape() {
    assert!(validate_telegram_token("123456:abcdefghijklmnopqrstuvwxyz_ABC-123").is_ok());
}
