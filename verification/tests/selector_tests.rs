use nx_picker::commands::CommandEntry;
use nx_picker::project::ProjectType;
use nx_picker::selector::Selector;

fn entry(project: &str, command: &str, sub: Option<&str>) -> CommandEntry {
    CommandEntry {
        project_type: ProjectType::Application,
        framework_name: None,
        project_name: project.to_string(),
        command: command.to_string(),
        subcommand: sub.map(|s| s.to_string()),
    }
}

fn sample() -> Vec<CommandEntry> {
    vec![
        entry("web", "build", None),
        entry("web", "test", None),
        entry("web", "test", Some("ci")),
        entry("api", "serve", None),
    ]
}

fn shown(s: &Selector) -> Vec<String> {
    s.display_commands.iter().map(|e| e.to_nx_command()).collect()
}

#[test]
fn new_selector_shows_everything_cursor_first() {
    let s = Selector::new(sample());
    assert_eq!(shown(&s), vec!["web:build", "web:test", "web:test:ci", "api:serve"]);
    assert_eq!(s.cursor, Some(0));
    let empty = Selector::new(Vec::new());
    assert_eq!(empty.cursor, None);
}

#[test]
fn empty_query_restores_the_full_list() {
    let mut s = Selector::new(sample());
    s.set_query("web:test:ci");
    assert!(shown(&s).len() < 4);
    s.set_query("");
    assert_eq!(shown(&s), vec!["web:build", "web:test", "web:test:ci", "api:serve"]);
    assert_eq!(s.cursor, Some(0));
}

#[test]
fn round_trip_query_then_empty_is_identity() {
    // querying, then clearing, hands back the pre-filter list in the same order
    let mut s = Selector::new(sample());
    let before = shown(&s);
    s.set_query("web:test:ci");
    s.set_query("");
    assert_eq!(shown(&s), before);
}

#[test]
fn punctuation_only_query_is_idle() {
    let mut s = Selector::new(sample());
    s.set_query("[]--  ::");
    assert_eq!(shown(&s).len(), 4);
}

#[test]
fn matching_filters_and_ranks() {
    let mut s = Selector::new(sample());
    s.set_query("webtest");
    let got = shown(&s);
    assert!(got.contains(&"web:test".to_string()));
    assert!(got.contains(&"web:test:ci".to_string()));
    assert!(!got.contains(&"api:serve".to_string()));
    assert_eq!(s.cursor, Some(0));
}

#[test]
fn no_match_clears_the_cursor() {
    let mut s = Selector::new(sample());
    s.set_query("zzzzzz");
    assert_eq!(shown(&s).len(), 0);
    assert_eq!(s.cursor, None);
}

#[test]
fn query_case_is_ignored() {
    // the scoring target is lower-cased, and so is the query: an upper-case
    // query still matches lower-case entries
    let mut s = Selector::new(sample());
    s.set_query("WEBTEST");
    assert!(shown(&s).contains(&"web:test".to_string()));
}

#[test]
fn query_punctuation_is_stripped() {
    let mut s = Selector::new(sample());
    s.set_query("w-e-b [test]");
    assert!(shown(&s).contains(&"web:test".to_string()));
}

#[test]
fn keyword_first_queries_match_via_reversed_words() {
    let mut s = Selector::new(sample());
    s.set_query("buildweb");
    assert!(shown(&s).contains(&"web:build".to_string()));
}

#[test]
fn cursor_wraps_forward_and_backward() {
    let mut s = Selector::new(sample());
    assert_eq!(s.cursor, Some(0));
    s.next();
    assert_eq!(s.cursor, Some(1));
    s.next();
    s.next();
    assert_eq!(s.cursor, Some(3));
    s.next();
    assert_eq!(s.cursor, Some(0));
    s.previous();
    assert_eq!(s.cursor, Some(3));
    s.previous();
    assert_eq!(s.cursor, Some(2));
}

#[test]
fn moves_are_no_ops_on_an_empty_view() {
    let mut s = Selector::new(Vec::new());
    s.next();
    assert_eq!(s.cursor, None);
    s.previous();
    assert_eq!(s.cursor, None);
}

#[test]
fn commit_hands_back_the_entry_under_the_cursor() {
    let mut s = Selector::new(sample());
    s.next();
    let chosen = s.commit().unwrap();
    assert_eq!(chosen.to_nx_command(), "web:test");
    let empty = Selector::new(Vec::new());
    assert!(empty.commit().is_none());
}
