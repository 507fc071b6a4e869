use minipaw::machine::detect_os_info;
use minipaw::session::{
    collect_directives, data_query_is_safe, done_payload, quote_balance, requested_data,
};

#[test]
fn directives_are_collected_in_order() {
    let reply = "thinking\n  EXEC: ls\nmore\nDONE: yes \nEXEC: pwd";
    assert_eq!(collect_directives(reply), vec!["EXEC: ls", "DONE: yes", "EXEC: pwd"]);
    assert!(collect_directives("no directive").is_empty());
}

#[test]
fn commands_span_lines_until_their_quotes_close() {
    let reply = "EXEC: python3 -c \"\nprint(1)\n\"\nDONE: x";
    assert_eq!(
        collect_directives(reply),
        vec!["EXEC: python3 -c \"\nprint(1)\n\"", "DONE: x"]
    );
    assert_eq!(
        collect_directives("EXEC: echo 'a\nEXEC: b"),
        vec!["EXEC: echo 'a", "EXEC: b"]
    );
}

#[test]
fn quotes_balance_with_escapes() {
    assert_eq!(quote_balance("a 'b' \"c\""), 0);
    assert_eq!(quote_balance("\"a\\\"b\""), 0);
    assert_ne!(quote_balance("\"a\\\""), 0);
    assert_eq!(quote_balance("'a\\'"), 0);
    assert_ne!(quote_balance("it's"), 0);
    assert_eq!(quote_balance("\"it's\""), 0);
    assert_eq!(quote_balance("it\\'s"), 0);
    assert_eq!(quote_balance("5\\\" disk"), 0);
    assert_ne!(quote_balance("\\\\'"), 0);
    assert_eq!(
        collect_directives("EXEC: echo it\\'s\nfine"),
        vec!["EXEC: echo it\\'s"]
    );
}

#[test]
fn searches_are_plain() {
    assert!(data_query_is_safe("sqlite setup & more"));
    for q in ["a|b", "a;b", "a && b", "$(x)", "exec.run", "/etc", "a >> b", "a < b"] {
        assert!(!data_query_is_safe(q));
    }
    assert_eq!(requested_data(" DATA:  x y \nrest").as_deref(), Some("x y"));
    assert_eq!(requested_data("first\nDATA: x"), None);
}

#[test]
fn answers_follow_the_first_mark() {
    assert_eq!(done_payload("x DONE: a\nDONE: b", "DONE: b"), "a\nDONE: b");
}

#[test]
fn system_is_described() {
    let release = "NAME=x\nPRETTY_NAME=\"Debian 12\"\nID=debian\n";
    assert_eq!(detect_os_info(Some(release), None), "Debian 12 (package manager: apt)");
    assert_eq!(
        detect_os_info(Some("PRETTY_NAME=Plan\n"), None),
        "Plan (package manager: the system package manager)"
    );
    assert_eq!(
        detect_os_info(Some("PRETTY_NAME=A\nID=arch\n"), None),
        "A (package manager: pacman)"
    );
    assert_eq!(detect_os_info(Some("ID=arch\n"), Some(b"Linux 6 x\n")), "Linux 6 x");
    assert_eq!(detect_os_info(None, Some(&[0xff])), "Unix");
    assert_eq!(detect_os_info(None, None), "Unix");
}
