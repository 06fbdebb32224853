use imap2slack::config::filter::{config_template, Config, ConfigError, Filter, Key};
use imap2slack::imap_extention::fetch::Mail;

fn mail(subject: &str, text: &str) -> Mail {
    Mail {
        uid: 1,
        flags: String::new(),
        from: "a@example.org".to_string(),
        to: "b@example.org".to_string(),
        cc: String::new(),
        bcc: String::new(),
        reply_to: String::new(),
        subject: subject.to_string(),
        date: String::new(),
        text: text.to_string(),
        headers: Vec::new(),
    }
}

fn list(items: &[&str]) -> Option<Vec<String>> {
    Some(items.iter().map(|s| s.to_string()).collect())
}

fn filter() -> Filter {
    Filter {
        subject_case_sensitive: true,
        subject_contains: None,
        subject_not_contains: None,
        message_regex: None,
        message_not_regex: None,
    }
}

fn check(f: &Filter, subject: &str, text: &str) -> bool {
    f.check(&mail(subject, text), &"f".to_string()).unwrap()
}

#[test]
fn subject_contains_asks_for_every_string() {
    let f = Filter { subject_contains: list(&["a", "b"]), ..filter() };
    assert!(check(&f, "xaxbx", ""));
    assert!(check(&f, "ba", ""));
    assert!(!check(&f, "only a", ""));
    assert!(!check(&f, "only b here", "a"));
    assert!(!check(&f, "", "a b"));
}

#[test]
fn message_regex_asks_for_every_pattern() {
    let f = Filter { message_regex: list(&["foo", "bar"]), ..filter() };
    assert!(check(&f, "", "a foo and a bar"));
    assert!(check(&f, "", "barfoo"));
    assert!(!check(&f, "", "only foo"));
    assert!(!check(&f, "", "only bar"));
    assert!(!check(&f, "foo bar", "neither"));
}

#[test]
fn subject_not_contains_asks_for_no_string() {
    let f = Filter { subject_not_contains: list(&["TEST", "REMINDER"]), ..filter() };
    assert!(check(&f, "hello", ""));
    assert!(!check(&f, "a TEST", ""));
    assert!(!check(&f, "REMINDER: x", ""));
    assert!(check(&f, "a test", ""));
}

#[test]
fn message_not_regex_asks_for_no_pattern() {
    let f = Filter { message_not_regex: list(&["^unsubscribe", r"\d{4}"]), ..filter() };
    assert!(check(&f, "", "hello 123"));
    assert!(!check(&f, "", "unsubscribe here"));
    assert!(!check(&f, "", "call 5551"));
    assert!(check(&f, "", "please unsubscribe"));
}

#[test]
fn capitals_count_only_where_asked() {
    let loose = Filter {
        subject_case_sensitive: false,
        subject_contains: list(&["[Something]"]),
        subject_not_contains: list(&["TEST"]),
        ..filter()
    };
    assert!(check(&loose, "[SOMETHING] hi", ""));
    assert!(check(&loose, "re: [something]", ""));
    assert!(!check(&loose, "[Something] test", ""));
    assert!(!check(&loose, "[Something] TeSt", ""));
    let strict = Filter { subject_case_sensitive: true, ..loose.clone() };
    assert!(!check(&strict, "[SOMETHING] hi", ""));
    assert!(check(&strict, "[Something] test", ""));
    assert!(!check(&strict, "[Something] TEST", ""));
    let umlaut = Filter {
        subject_case_sensitive: false,
        subject_contains: list(&["ÄRGER"]),
        ..filter()
    };
    assert!(check(&umlaut, "kein ärger", ""));
}

#[test]
fn all_four_demands_have_to_be_met() {
    let f = Filter {
        subject_case_sensitive: true,
        subject_contains: list(&["a"]),
        subject_not_contains: list(&["z"]),
        message_regex: list(&["x+"]),
        message_not_regex: list(&["y"]),
    };
    assert!(check(&f, "a", "xx"));
    assert!(!check(&f, "b", "xx"));
    assert!(!check(&f, "az", "xx"));
    assert!(!check(&f, "a", "w"));
    assert!(!check(&f, "a", "xy"));
}

#[test]
fn lists_left_out_or_empty_ask_for_nothing() {
    assert!(check(&filter(), "", ""));
    assert!(check(&filter(), "anything", "at all"));
    let empty = Filter {
        subject_case_sensitive: false,
        subject_contains: list(&[]),
        subject_not_contains: list(&[]),
        message_regex: list(&[]),
        message_not_regex: list(&[]),
    };
    assert!(check(&empty, "anything", "at all"));
    let placeholder = Filter::placeholder();
    assert!(!placeholder.subject_case_sensitive);
    assert_eq!(placeholder.subject_contains, Some(Vec::new()));
    assert_eq!(placeholder.subject_not_contains, Some(Vec::new()));
    assert_eq!(placeholder.message_regex, Some(Vec::new()));
    assert_eq!(placeholder.message_not_regex, Some(Vec::new()));
    assert!(check(&placeholder, "anything", "at all"));
}

#[test]
fn the_empty_string_and_the_empty_pattern_are_found_everywhere() {
    let f = Filter { subject_contains: list(&[""]), message_regex: list(&[""]), ..filter() };
    assert!(check(&f, "", ""));
    let g = Filter { subject_not_contains: list(&[""]), ..filter() };
    assert!(!check(&g, "x", ""));
    let h = Filter { message_not_regex: list(&[""]), ..filter() };
    assert!(!check(&h, "", "x"));
}

#[test]
fn a_bad_pattern_is_an_error_of_the_configuration() {
    let f = Filter { message_regex: list(&["ok", "(unclosed"]), ..filter() };
    match f.compile("Filter_9") {
        Err(ConfigError::InvalidRegex { filter, key, detail }) => {
            assert_eq!(filter, "Filter_9");
            assert_eq!(key, Key::MessageRegex);
            assert!(!detail.is_empty());
        }
        _ => panic!("the pattern should have been refused"),
    }
    let g = Filter { message_regex: list(&["fine"]), message_not_regex: list(&["[z-a]"]), ..filter() };
    match g.check(&mail("", ""), &"G".to_string()) {
        Err(ConfigError::InvalidRegex { filter, key, .. }) => {
            assert_eq!(filter, "G");
            assert_eq!(key, Key::MessageNotRegex);
        }
        _ => panic!("the pattern should have been refused"),
    }
    let both = Filter { message_regex: list(&["("]), message_not_regex: list(&[")"]), ..filter() };
    assert!(matches!(
        both.compile("b"),
        Err(ConfigError::InvalidRegex { key: Key::MessageRegex, .. })
    ));
}

#[test]
fn a_compiled_filter_judges_like_the_filter() {
    let f = Filter {
        subject_case_sensitive: false,
        subject_contains: list(&["news"]),
        subject_not_contains: None,
        message_regex: list(&[r"^\s*Dear", r"(?i)regards"]),
        message_not_regex: list(&["lottery"]),
    };
    let m = f.compile("f").unwrap();
    assert!(m.check(&mail("Weekly NEWS", "Dear all,\nbest REGARDS")));
    assert!(!m.check(&mail("Weekly NEWS", "Dear all, you won the lottery. regards")));
    assert!(m.subject_contains("the news"));
    assert!(!m.subject_contains("the new"));
    assert!(m.subject_not_contains("whatever"));
    assert!(m.message_regex("  Dear x, regards"));
    assert!(!m.message_regex("Hello x, regards"));
    assert!(m.message_not_regex("nothing"));
    assert!(!m.message_not_regex("a lottery"));
}

#[test]
fn the_table_keeps_one_filter_to_a_name() {
    let mut table = Config::new();
    assert_eq!(table.len(), 0);
    assert!(table.check_exist(&"a".to_string()).is_none());
    table.insert("a".to_string(), Filter { subject_contains: list(&["1"]), ..filter() });
    table.insert("b".to_string(), Filter { subject_contains: list(&["2"]), ..filter() });
    assert_eq!(table.len(), 2);
    table.insert("a".to_string(), Filter { subject_contains: list(&["3"]), ..filter() });
    assert_eq!(table.len(), 2);
    assert_eq!(table.check_exist(&"a".to_string()).unwrap().subject_contains, list(&["3"]));
    assert_eq!(table.check_exist(&"b".to_string()).unwrap().subject_contains, list(&["2"]));
    assert!(table.check_exist(&"A".to_string()).is_none());
    assert_eq!(table.entry(0).name, "a");
    assert_eq!(table.entry(1).name, "b");
}

#[test]
fn a_placeholder_stands_in_for_a_missing_filter() {
    let mut table = config_template();
    assert!(table.check_exist(&"Filter_2".to_string()).is_none());
    table.add_placeholder(&"Filter_2".to_string());
    assert_eq!(table.len(), 2);
    let added = table.check_exist(&"Filter_2".to_string()).unwrap();
    assert!(!added.subject_case_sensitive);
    assert_eq!(added.subject_contains, Some(Vec::new()));
    assert_eq!(added.message_not_regex, Some(Vec::new()));
    assert!(table.check_exist(&"Filter_1".to_string()).is_some());
}

#[test]
fn the_template_shows_one_filter() {
    let table = config_template();
    assert_eq!(table.len(), 1);
    let entry = table.entry(0);
    assert_eq!(entry.name, "Filter_1");
    assert!(!entry.filter.subject_case_sensitive);
    assert_eq!(entry.filter.subject_contains, list(&["[Something]"]));
    assert_eq!(entry.filter.subject_not_contains, list(&["TEST", "REMINDER"]));
    assert_eq!(entry.filter.message_regex, list(&["WRITE A REGULAR EXPRESSION"]));
    assert_eq!(entry.filter.message_not_regex, list(&["WRITE A REGULAR EXPRESSION"]));
}
