use minipaw::numbers::{
    decimal_of, parse_i64, parse_u64, parse_unsigned, parse_usize, signed_of, usize_text,
    NumberError,
};
use minipaw::table::Table;
use minipaw::text;
use minipaw::types::{
    now_epoch_secs, secs_or_zero, AdvisorMode, AgentChoice, MessageClass, TaskId, WorkerId,
};

#[test]
fn numbers_are_read_like_the_standard_library_does() {
    for s in [
        "", "+", "-", "0", "+7", "-0", "007", "18446744073709551615", "18446744073709551616",
        "9223372036854775807", "9223372036854775808", "-9223372036854775808",
        "-9223372036854775809", " 1", "1 ", "1x", "+-1", "--1", "٣",
    ] {
        assert_eq!(parse_u64(s), s.parse::<u64>().ok(), "{s:?}");
        assert_eq!(parse_usize(s), s.parse::<usize>().ok(), "{s:?}");
        assert_eq!(parse_i64(s), s.parse::<i64>().ok(), "{s:?}");
        let ours = parse_unsigned(s, 10, 65535).map_err(|e| e.message().to_owned());
        let theirs = s.parse::<u16>().map(|n| n as u64).map_err(|e| e.to_string());
        assert_eq!(ours, theirs, "{s:?}");
    }
    assert_eq!(parse_unsigned("fF", 16, u64::MAX).ok(), Some(255));
    assert!(matches!(parse_unsigned("g", 16, 9), Err(NumberError::InvalidDigit)));
    assert!(matches!(parse_unsigned("", 16, 9), Err(NumberError::Empty)));
    assert!(matches!(parse_unsigned("a", 16, 9), Err(NumberError::Overflow)));
}

#[test]
fn numbers_are_written_in_decimal() {
    for n in [0u64, 9, 10, 1234567890, u64::MAX] {
        assert_eq!(decimal_of(n), n.to_string());
        assert_eq!(parse_u64(&decimal_of(n)), Some(n));
    }
    for n in [0i64, -1, 42, i64::MIN, i64::MAX] {
        assert_eq!(signed_of(n), n.to_string());
        assert_eq!(parse_i64(&signed_of(n)), Some(n));
    }
    assert_eq!(usize_text(120), "120");
}

#[test]
fn character_sets_agree_with_the_standard_library() {
    for code in 0..=0x10ffffu32 {
        if let Some(c) = char::from_u32(code) {
            let s = c.to_string();
            assert_eq!(text::trim(&s).is_empty(), s.trim().is_empty(), "{code:x}");
            assert_eq!(
                minipaw::json::json_escape(&s) == " ",
                c == ' ' || c.is_control() && !"\n\r\t".contains(c),
                "{code:x}"
            );
        }
    }
}

#[test]
fn tables_are_sorted_maps() {
    let mut t = Table::new();
    t.insert("b", "2");
    t.insert("a", "1");
    t.insert("b", "3");
    assert_eq!(t.len(), 2);
    assert_eq!((t.key(0), t.value(0)), ("a", "1"));
    assert_eq!(t.get("b"), Some("3"));
    let before = (t.key(0).to_owned(), t.value(0).to_owned(), t.len());
    t.remove("a");
    t.insert("a", "1");
    assert_eq!((t.key(0).to_owned(), t.value(0).to_owned(), t.len()), before);
    t.remove("a");
    t.remove("c");
    assert!(!t.has("a"));
    assert_eq!(t.len(), 1);
}

#[test]
fn labels_parse_back() {
    for class in [MessageClass::MiniHow, MessageClass::MiniWhy, MessageClass::MiniWhat] {
        assert_eq!(MessageClass::parse(class.label()), Some(class));
    }
    for mode in [AdvisorMode::Training, AdvisorMode::Trial, AdvisorMode::Work] {
        assert_eq!(AdvisorMode::parse(mode.label()), Some(mode));
    }
    for choice in [AgentChoice::Primary, AgentChoice::Advisor] {
        assert_eq!(AgentChoice::parse(choice.label()), Some(choice));
    }
    assert_eq!(AdvisorMode::parse(" Train "), Some(AdvisorMode::Training));
    assert_eq!(AdvisorMode::parse("working"), Some(AdvisorMode::Work));
    assert_eq!(AdvisorMode::parse("off"), None);
    assert_eq!((TaskId(7).label(), WorkerId(3).label()), ("t7".to_owned(), "w3".to_owned()));
}

#[test]
fn clock_is_read_in_seconds() {
    assert_eq!(secs_or_zero(None), 0);
    assert_eq!(secs_or_zero(Some(5)), 5);
    assert!(now_epoch_secs() > 1_600_000_000);
}
