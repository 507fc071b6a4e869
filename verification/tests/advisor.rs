use minipaw::advisor::{compare, DivergenceVerdict};
use minipaw::types::{AgentChoice, MessageClass};

#[test]
fn identical_outputs_match() {
    let record = compare(
        MessageClass::MiniWhat,
        AgentChoice::Primary,
        "the time is 12:34",
        "the time is 12:34",
    );
    assert_eq!(record.verdict, DivergenceVerdict::Match);
    assert!(record.shared as f32 / record.total as f32 > 0.99);
}

#[test]
fn unrelated_outputs_diverge() {
    let record = compare(
        MessageClass::MiniHow,
        AgentChoice::Primary,
        "fifteen apples are stored in the basket",
        "the kernel version reported by uname is 6.12",
    );
    assert_eq!(record.verdict, DivergenceVerdict::Divergent);
    assert!((record.shared as f32 / record.total as f32) < 0.35);
}

#[test]
fn partial_overlap_is_close() {
    let record = compare(
        MessageClass::MiniWhy,
        AgentChoice::Advisor,
        "the agent failed because the token expired",
        "the agent failed when the api token rotated",
    );
    assert_eq!(record.verdict, DivergenceVerdict::Close);
}

#[test]
fn texts_without_words_match() {
    let record = compare(MessageClass::MiniHow, AgentChoice::Primary, "a b", "-- 1");
    assert_eq!((record.shared, record.total), (0, 0));
    assert_eq!(record.verdict, DivergenceVerdict::Match);
}

#[test]
fn words_count_once_and_without_case() {
    let record = compare(
        MessageClass::MiniHow,
        AgentChoice::Advisor,
        "Alpha alpha beta gamma delta",
        "ALPHA beta-gamma omega",
    );
    assert_eq!((record.shared, record.total), (3, 5));
    assert_eq!(record.verdict, DivergenceVerdict::Close);
    let swapped = compare(
        MessageClass::MiniHow,
        AgentChoice::Advisor,
        "ALPHA beta-gamma omega",
        "Alpha alpha beta gamma delta",
    );
    assert_eq!((swapped.shared, swapped.total), (3, 5));
}

#[test]
fn record_is_rendered_with_capped_answers() {
    let long = "x".repeat(700);
    let record = compare(MessageClass::MiniHow, AgentChoice::Primary, &long, "yes indeed");
    assert_eq!(
        record.render("0.00"),
        format!(
            "[advisor] class=minihow served_by=primary similarity=0.00 verdict=Divergent\n--- primary ---\n{}…\n--- advisor ---\nyes indeed",
            "x".repeat(600)
        )
    );
}

#[test]
fn words_are_ascii_runs() {
    let record = compare(
        MessageClass::MiniWhat,
        AgentChoice::Primary,
        "größe→données",
        "données, größe!",
    );
    assert_eq!((record.shared, record.total), (1, 1));
}
