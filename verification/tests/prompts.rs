use minipaw::prompts::{next_rule_number, substitute, PromptStore};
use minipaw::table::Table;
use minipaw::types::MessageClass;

#[test]
fn substitutes_template_variables() {
    let out = substitute("hello {{name}} on {{os}}", &[("name", "world"), ("os", "linux")]);
    assert_eq!(out, "hello world on linux");
}

#[test]
fn next_rule_number_finds_highest() {
    let text = "Header\n1. first\n2. second\n9. ninth\nfooter";
    assert_eq!(next_rule_number(text), 10);
}

#[test]
fn next_rule_number_starts_at_one_when_no_rules() {
    assert_eq!(next_rule_number("no rules here"), 1);
}

fn fresh_store() -> PromptStore {
    PromptStore::install("/ws".to_owned(), Table::new(), Table::new(), Table::new())
}

#[test]
fn install_writes_defaults_then_persists_edits() {
    let mut store = fresh_store();
    let original = store.read_class(MessageClass::MiniWhy);
    assert!(original.contains("analysis advisor"));

    // Operator edit survives across reads.
    store.prompts.insert("miniwhy.md", "custom\n");
    assert_eq!(store.read_class(MessageClass::MiniWhy), "custom\n");

    // append_rule increments the rule number.
    store.prompts.insert("minihow.md", "intro\n1. first\n2. second\n");
    let n = store.append_rule(MessageClass::MiniHow, "the new rule");
    assert_eq!(n, 3);
    let updated = store.read_class(MessageClass::MiniHow);
    assert!(updated.contains("3. the new rule"));
}

#[test]
fn install_again_keeps_what_is_there() {
    let mut store = fresh_store();
    store.prompts.insert("miniwhat.md", "mine");
    let again = PromptStore::install(
        store.workspace().to_owned(),
        store.prompts.clone(),
        store.skills.clone(),
        store.proposals.clone(),
    );
    assert_eq!(again.read_class(MessageClass::MiniWhat), "mine");
    assert_eq!(again.prompts.len(), store.prompts.len());
    assert_eq!(
        again.read_class(MessageClass::MiniHow),
        store.read_class(MessageClass::MiniHow)
    );
}

#[test]
fn overlay_is_restored_to_its_snapshot() {
    let mut store = fresh_store();
    let before = store.snapshot_subclass(MessageClass::MiniHow, "survey");
    assert_eq!(before, "");
    assert_eq!(store.append_rule_to_subclass(MessageClass::MiniHow, "survey", "look"), 1);
    assert_eq!(store.read_subclass(MessageClass::MiniHow, "survey").unwrap(), "1. look\n");
    let vars = [("os_info", "linux")];
    let with = store.render_with_subclass(MessageClass::MiniHow, Some("survey"), &vars);
    assert!(with.contains("1. look"));
    assert!(with.starts_with(&store.render(MessageClass::MiniHow, &vars)));
    store.restore_subclass(MessageClass::MiniHow, "survey", &before);
    assert_eq!(store.snapshot_subclass(MessageClass::MiniHow, "survey"), before);
    assert!(store.read_subclass(MessageClass::MiniHow, "survey").is_none());
}

#[test]
fn placeholders_without_a_value_stay() {
    assert_eq!(substitute("{{a}}{{b}}", &[("a", "{{b}}"), ("b", "x")]), "xx");
    assert_eq!(substitute("{{c}} {d}", &[("d", "x")]), "{{c}} {d}");
    let store = fresh_store();
    assert_eq!(store.render_adjust_meta(&[]), store.read_adjust_meta());
}

#[test]
fn rules_count_up() {
    let mut store = fresh_store();
    store.prompts.insert("miniwhat.md", "intro\n7. ");
    assert_eq!(store.append_rule(MessageClass::MiniWhat, " one \n"), 8);
    assert_eq!(store.append_rule(MessageClass::MiniWhat, "two"), 9);
    assert_eq!(store.read_class(MessageClass::MiniWhat), "intro\n7.\n8. one\n9. two\n");
    assert_eq!(next_rule_number("  12. x\n3. y\n5.z\n99 . w"), 13);
}
