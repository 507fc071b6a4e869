use minipaw::adjustments::{
    apply_proposal, apply_training, find_proposal, list_proposals, parse_directive,
    reject_proposal, write_proposal, write_proposal_at, AdjustmentDirective, ProposalEntry,
};
use minipaw::prompts::PromptStore;
use minipaw::skills::SkillRegistry;
use minipaw::table::Table;
use minipaw::types::{MessageClass, TaskId};

fn fresh_store() -> PromptStore {
    PromptStore::install("/ws".to_owned(), Table::new(), Table::new(), Table::new())
}

#[test]
fn parses_no_change() {
    assert_eq!(
        parse_directive(MessageClass::MiniHow, "NO_CHANGE\n"),
        Some(AdjustmentDirective::NoChange)
    );
}

#[test]
fn parses_rule_append() {
    let d = parse_directive(
        MessageClass::MiniHow,
        "PROMPT_RULE_APPEND: always print intermediates labeled\n",
    );
    assert_eq!(
        d,
        Some(AdjustmentDirective::RuleAppend {
            class: MessageClass::MiniHow,
            rule: "always print intermediates labeled".into(),
        })
    );
}

#[test]
fn parses_skill_new() {
    let d = parse_directive(
        MessageClass::MiniWhat,
        "SKILL_NEW: disk-free | Show free disk space | df -h\n",
    );
    assert!(matches!(d, Some(AdjustmentDirective::SkillNew { .. })));
}

#[test]
fn rejects_skill_with_invalid_name() {
    let d = parse_directive(
        MessageClass::MiniWhat,
        "SKILL_NEW: bad name! | desc | echo\n",
    );
    assert!(d.is_none());
}

#[test]
fn ignores_unrecognized_directive() {
    assert!(parse_directive(MessageClass::MiniHow, "explain it differently").is_none());
}

#[test]
fn apply_training_appends_rule() {
    let mut store = fresh_store();
    let outcome = apply_training(
        &mut store,
        &AdjustmentDirective::RuleAppend {
            class: MessageClass::MiniHow,
            rule: "test rule".into(),
        },
        None,
    );
    assert!(outcome.contains("rule"));
    let updated = store.read_class(MessageClass::MiniHow);
    assert!(updated.contains("test rule"));
}

#[test]
fn directive_may_stand_behind_blank_lines_and_quote_marks() {
    assert_eq!(
        parse_directive(MessageClass::MiniWhy, "\n  \n> NO_CHANGE because\n"),
        Some(AdjustmentDirective::NoChange)
    );
    assert_eq!(parse_directive(MessageClass::MiniWhy, " \n>> \n"), None);
}

#[test]
fn rules_are_limited_in_length() {
    let fits = format!("PROMPT_RULE_APPEND: {}", "x".repeat(400));
    let long = format!("PROMPT_RULE_APPEND: {}", "x".repeat(401));
    assert!(parse_directive(MessageClass::MiniHow, &fits).is_some());
    assert!(parse_directive(MessageClass::MiniHow, &long).is_none());
    assert!(parse_directive(MessageClass::MiniHow, "PROMPT_RULE_APPEND:   ").is_none());
}

#[test]
fn skills_need_three_parts() {
    assert!(parse_directive(MessageClass::MiniHow, "SKILL_NEW: a | b").is_none());
    assert!(parse_directive(MessageClass::MiniHow, "SKILL_NEW: a | b | c | d").is_none());
    assert!(parse_directive(MessageClass::MiniHow, "SKILL_NEW: a |  | c").is_none());
    assert!(parse_directive(MessageClass::MiniHow, "SKILL_NEW: a | b | ").is_none());
    let name = "n".repeat(65);
    assert!(parse_directive(MessageClass::MiniHow, &format!("SKILL_NEW: {name} | b | c")).is_none());
}

#[test]
fn summaries_are_one_line_and_capped() {
    let d = AdjustmentDirective::RuleAppend {
        class: MessageClass::MiniHow,
        rule: "a\nb".into(),
    };
    assert_eq!(d.kind(), "rule-append");
    assert_eq!(d.summary(), "rule-append [minihow]: a b");
    let long = AdjustmentDirective::SkillNew {
        name: "s".into(),
        description: "é".repeat(61),
        command: "c".into(),
    };
    assert_eq!(long.kind(), "skill-new");
    assert_eq!(long.summary(), format!("skill-new [s]: {}…", "é".repeat(60)));
    assert_eq!(AdjustmentDirective::NoChange.kind(), "no-change");
    assert_eq!(AdjustmentDirective::NoChange.summary(), "no change suggested");
}

#[test]
fn rules_for_a_subclass_go_to_its_overlay() {
    let mut store = fresh_store();
    let rule = AdjustmentDirective::RuleAppend {
        class: MessageClass::MiniHow,
        rule: "turn first".into(),
    };
    let before = store.read_class(MessageClass::MiniHow);
    let outcome = apply_training(&mut store, &rule, Some("transport"));
    assert_eq!(outcome, "appended rule 1 to minihow.transport.md");
    assert_eq!(
        store.read_subclass(MessageClass::MiniHow, "transport").unwrap(),
        "1. turn first\n"
    );
    assert_eq!(store.read_class(MessageClass::MiniHow), before);
    let again = apply_training(&mut store, &rule, Some("transport"));
    assert_eq!(again, "appended rule 2 to minihow.transport.md");
}

#[test]
fn applied_skill_is_loaded() {
    let mut store = fresh_store();
    let d = AdjustmentDirective::SkillNew {
        name: "disk-free".into(),
        description: "Show free disk space".into(),
        command: "df -h".into(),
    };
    assert_eq!(
        apply_training(&mut store, &d, None),
        "wrote skill /ws/skills/disk-free.md"
    );
    let skills = SkillRegistry::load(&store.skills);
    let skill = skills.find("DISK-free").unwrap();
    assert_eq!(skill.description, "Show free disk space");
    assert_eq!(skill.command.as_deref(), Some("df -h"));
    assert_eq!(apply_training(&mut store, &AdjustmentDirective::NoChange, None), "no change");
}

#[test]
fn proposals_are_kept_found_and_applied() {
    let mut store = fresh_store();
    let d = AdjustmentDirective::RuleAppend {
        class: MessageClass::MiniWhy,
        rule: "name your sources".into(),
    };
    let path = write_proposal_at(&mut store, TaskId(7), 1000, &d);
    assert_eq!(path, "/ws/proposals/1000-rule-append-t7.md");
    let list = list_proposals(&store);
    assert_eq!(list.len(), 1);
    assert_eq!(list[0].path, path);
    let p = find_proposal(&store, "1000-rule-append-t7").unwrap();
    assert_eq!(p.id, "1000-rule-append-t7");
    assert_eq!(p.path, path);
    assert_eq!(p.kind, "rule-append");
    assert_eq!(p.class, Some(MessageClass::MiniWhy));
    assert_eq!(p.task_id, Some(TaskId(7)));
    assert_eq!(p.created_at, 1000);
    assert_eq!(p.body, "name your sources\n");
    let outcome = apply_proposal(&mut store, &p).unwrap();
    assert_eq!(outcome, "appended rule 1 to miniwhy.md");
    assert!(store.read_class(MessageClass::MiniWhy).ends_with("1. name your sources\n"));
    assert!(list_proposals(&store).is_empty());
}

#[test]
fn proposed_skill_is_applied_and_rejected_proposal_is_dropped() {
    let mut store = fresh_store();
    let d = AdjustmentDirective::SkillNew {
        name: "up".into(),
        description: "Show: uptime".into(),
        command: "uptime -p".into(),
    };
    let first = write_proposal_at(&mut store, TaskId(1), 5, &d);
    assert_eq!(first, "/ws/proposals/5-skill-new-t1.md");
    write_proposal_at(&mut store, TaskId(2), 6, &AdjustmentDirective::NoChange);
    let second = find_proposal(&store, "6-no-change-t2").unwrap();
    reject_proposal(&mut store, &second);
    assert!(find_proposal(&store, "6-no-change-t2").is_none());
    let p = find_proposal(&store, "5-skill-new-t1").unwrap();
    assert_eq!(p.path, first);
    assert_eq!(p.class, None);
    assert_eq!(apply_proposal(&mut store, &p).unwrap(), "wrote skill /ws/skills/up.md");
    let skills = SkillRegistry::load(&store.skills);
    assert_eq!(skills.find("up").unwrap().description, "Show: uptime");
    assert!(list_proposals(&store).is_empty());
}

#[test]
fn malformed_proposal_is_refused_and_stays() {
    let mut store = fresh_store();
    store.proposals.insert("x.md", "---\nkind: rule-append\n---\n\nno class\n");
    store.proposals.insert("y.md", "no front matter");
    store.proposals.insert("z.txt", "---\nkind: no-change\n---\n");
    let list = list_proposals(&store);
    assert_eq!(list.len(), 1);
    let p: &ProposalEntry = &list[0];
    assert_eq!(p.id, "x");
    assert_eq!(apply_proposal(&mut store, p).unwrap_err(), "proposal x is malformed");
    assert!(find_proposal(&store, "x").is_some());
}

#[test]
fn proposals_are_read_and_dropped_at_their_path() {
    let text = "---\nkind: skill-new\nskill_name: a\nskill_description: b\nskill_exec: c\n---\n";
    let mut store = fresh_store();
    store.proposals.insert(".md", text);
    let hidden = find_proposal(&store, "").unwrap();
    assert_eq!(hidden.path, "/ws/proposals/.md");
    assert_eq!(apply_proposal(&mut store, &hidden).unwrap(), "wrote skill /ws/skills/a.md");
    assert!(find_proposal(&store, "").is_none());
    store.proposals.insert("z.md", text);
    let mut elsewhere = find_proposal(&store, "z").unwrap();
    elsewhere.path = "/other/proposals/z.md".to_owned();
    reject_proposal(&mut store, &elsewhere);
    assert!(find_proposal(&store, "z").is_some());
    assert_eq!(
        apply_proposal(&mut store, &elsewhere).unwrap_err(),
        "proposal z is malformed"
    );
}

#[test]
fn proposal_of_now_is_kept_under_the_clock() {
    let mut store = fresh_store();
    let path = write_proposal(&mut store, TaskId(3), &AdjustmentDirective::NoChange);
    assert!(path.starts_with("/ws/proposals/"));
    assert!(path.ends_with("-no-change-t3.md"));
    let list = list_proposals(&store);
    assert_eq!(list.len(), 1);
    assert!(list[0].created_at > 1_600_000_000);
}
