use nx_picker::flags::{parse_args, Flag};
use nx_picker::scan::{ScanEngine, ScanEntry};
use nx_picker::state::State;

fn args(list: &[&str]) -> Vec<String> {
    list.iter().map(|s| s.to_string()).collect()
}

#[test]
fn known_options_map_to_flags_in_order() {
    let flags = parse_args(&args(&["picker", "-h", "--version", "-d", "--verbose", "-E"]));
    assert_eq!(flags, vec![Flag::Help, Flag::Version, Flag::Debug, Flag::Verbose, Flag::Error]);
}

#[test]
fn unknown_arguments_are_passed_over() {
    let flags = parse_args(&args(&["picker", "some/path", "--wat"]));
    assert_eq!(flags.len(), 0);
}

#[test]
fn short_and_long_forms_agree() {
    assert_eq!(parse_args(&args(&["-v"])), parse_args(&args(&["--version"])));
    assert_eq!(parse_args(&args(&["-V"])), vec![Flag::Verbose]);
}

#[test]
fn state_starts_clear_and_remembers_switches() {
    let mut state = State::new();
    let store = state.lock();
    assert!(!store.verbose_enabled);
    assert!(!store.error_enabled);
    state.enable_verbose();
    assert!(state.lock().verbose_enabled);
    assert!(!state.lock().error_enabled);
    state.enable_error();
    assert!(state.lock().error_enabled);
    assert!(state.lock().verbose_enabled);
}

fn file(path: &str, base: &str) -> ScanEntry {
    ScanEntry { path: path.to_string(), base_name: base.to_string(), is_dir: false }
}

fn dir(path: &str, base: &str) -> ScanEntry {
    ScanEntry { path: path.to_string(), base_name: base.to_string(), is_dir: true }
}

#[test]
fn scan_engine_keeps_matches_and_queues_subdirs() {
    let mut eng = ScanEngine::new("repo".to_string());
    let root = eng.next_dir().unwrap();
    assert_eq!(root, "repo");
    let entries = vec![
        file("repo/readme.md", "readme.md"),
        file("repo/project.json", "project.json"),
        dir("repo/apps", "apps"),
        dir("repo/node_modules", "node_modules"),
    ];
    let targets = vec!["project.json".to_string()];
    eng.record_dir(&entries, &targets, "node_modules");
    assert_eq!(eng.found, vec!["repo/project.json".to_string()]);
    // the ignored directory name is never queued
    let next = eng.next_dir().unwrap();
    assert_eq!(next, "repo/apps");
    assert!(eng.next_dir().is_none());
}

#[test]
fn scan_engine_visits_until_the_worklist_drains() {
    let mut eng = ScanEngine::new("r".to_string());
    let r = eng.next_dir().unwrap();
    let entries = vec![dir("r/a", "a"), dir("r/b", "b")];
    eng.record_dir(&entries, &Vec::new(), "node_modules");
    let _ = r;
    let first = eng.next_dir().unwrap();
    let second = eng.next_dir().unwrap();
    assert_eq!(
        { let mut v = vec![first, second]; v.sort(); v },
        vec!["r/a".to_string(), "r/b".to_string()]
    );
    assert!(eng.next_dir().is_none());
    assert_eq!(eng.found.len(), 0);
}
