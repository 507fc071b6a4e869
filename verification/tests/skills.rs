use minipaw::skills::{parse_skill_file, Skill, SkillRegistry};
use minipaw::table::Table;

#[test]
fn parses_skill_with_exec() {
    let content =
        "---\nname: current-time\ndescription: Get the current date and time\nexec: date\n---\n";
    let skill = parse_skill_file(content).unwrap();
    assert_eq!(skill.name, "current-time");
    assert_eq!(skill.description, "Get the current date and time");
    assert_eq!(skill.command.as_deref(), Some("date"));
}

#[test]
fn parses_skill_without_exec() {
    let content = "---\nname: greet\ndescription: Greet the user warmly\n---\n";
    let skill = parse_skill_file(content).unwrap();
    assert_eq!(skill.name, "greet");
    assert!(skill.command.is_none());
}

#[test]
fn rejects_missing_frontmatter() {
    assert!(parse_skill_file("no frontmatter here").is_none());
    assert!(parse_skill_file("").is_none());
}

#[test]
fn index_text_lists_all_skills() {
    let registry = SkillRegistry {
        skills: vec![
            Skill {
                name: "current-time".into(),
                description: "Get current date and time".into(),
                command: Some("date".into()),
            },
            Skill {
                name: "greet".into(),
                description: "Greet the user".into(),
                command: None,
            },
        ],
    };
    let text = registry.index_text();
    assert!(text.contains("current-time: Get current date and time"));
    assert!(text.contains("greet: Greet the user"));
}

#[test]
fn find_is_case_insensitive() {
    let registry = SkillRegistry {
        skills: vec![Skill {
            name: "current-time".into(),
            description: "desc".into(),
            command: Some("date".into()),
        }],
    };
    assert!(registry.find("current-time").is_some());
    assert!(registry.find("Current-Time").is_some());
    assert!(registry.find("unknown").is_none());
}

#[test]
fn match_for_input_returns_executable_skill_on_term_overlap() {
    let registry = SkillRegistry {
        skills: vec![
            Skill {
                name: "current-time".into(),
                description: "Get the current date and time on the local machine".into(),
                command: Some("date".into()),
            },
            Skill {
                name: "greet".into(),
                description: "Greet the user warmly".into(),
                command: None,
            },
        ],
    };
    // Input shares "time" with current-time name/description.
    assert!(registry.match_for_input("what time is it").is_some());
    // Skill without a command is ignored even if terms match.
    assert!(registry.match_for_input("greet me").is_none());
    // No overlap at all.
    assert!(registry.match_for_input("list my files").is_none());
}

#[test]
fn exec_programs_yields_program_names() {
    let registry = SkillRegistry {
        skills: vec![
            Skill {
                name: "a".into(),
                description: "d".into(),
                command: Some("date -u".into()),
            },
            Skill {
                name: "b".into(),
                description: "d".into(),
                command: None,
            },
        ],
    };
    let progs = registry.exec_programs();
    assert_eq!(progs, vec!["date"]);
}

#[test]
fn directory_is_loaded_in_the_order_of_file_names() {
    let mut files = Table::new();
    files.insert("b.md", "---\nname: two\ndescription: second\n---\n");
    files.insert("a.md", "\n---\nname: one\ndescription: first\nname: uno\n---\nbody");
    files.insert("c.txt", "---\nname: three\ndescription: third\n---\n");
    files.insert("d.md", "---\nname: four\n---\n");
    files.insert(".md", "---\nname: five\ndescription: fifth\n---\n");
    let registry = SkillRegistry::load(&files);
    let names: Vec<&str> = registry.skills().iter().map(|s| s.name.as_str()).collect();
    assert_eq!(names, vec!["uno", "two"]);
    assert!(!registry.is_empty());
    assert!(SkillRegistry::load(&Table::new()).is_empty());
    assert_eq!(SkillRegistry::load(&Table::new()).index_text(), "");
}
