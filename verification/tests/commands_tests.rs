use nx_picker::commands::{construct, flatten_projects, CommandEntry};
use nx_picker::frameworks::known_frameworks;
use nx_picker::project::{Project, ProjectType, Task};

fn task(command: &str, subs: &[&str]) -> Task {
    Task {
        command: command.to_string(),
        subcommands: subs.iter().map(|s| s.to_string()).collect(),
    }
}

fn project(name: &str, tasks: Vec<Task>) -> Project {
    Project { name: name.to_string(), project_type: ProjectType::Application, tasks, framework: None }
}

fn canons(entries: &[CommandEntry]) -> Vec<String> {
    entries.iter().map(|e| e.to_nx_command()).collect()
}

#[test]
fn task_with_k_subcommands_yields_k_plus_one_entries() {
    // one task with two sub-variants: three entries before deduplication
    let ps = vec![project("web", vec![task("test", &["ci", "local"])])];
    let flat = flatten_projects(&ps);
    assert_eq!(flat.len(), 3);
    assert_eq!(canons(&flat), vec!["web:test", "web:test:ci", "web:test:local"]);
    // a task with no sub-variants still yields its one bare entry
    let ps = vec![project("web", vec![task("build", &[])])];
    assert_eq!(flatten_projects(&ps).len(), 1);
}

#[test]
fn scenario_descriptor_yields_sorted_entries() {
    let content = r#"{"name":"web","projectType":"application","targets":{"build":{},"test":{"configurations":{"ci":{},"local":{}}}}}"#;
    let p = Project::parse_config(content).unwrap();
    let r = construct(&vec![p]);
    assert_eq!(canons(&r), vec!["web:build", "web:test", "web:test:ci", "web:test:local"]);
}

#[test]
fn no_false_dedup_across_projects() {
    let ps = vec![
        project("projA", vec![task("build", &[])]),
        project("projB", vec![task("build", &[])]),
    ];
    let r = construct(&ps);
    assert_eq!(canons(&r), vec!["projA:build", "projB:build"]);
}

#[test]
fn no_two_entries_share_a_canonical_string() {
    // the declared build task and the framework's generic build command
    // collide; exactly one survives
    let fs = known_frameworks();
    let angular = fs.into_iter().find(|f| f.name == "angular").unwrap();
    let mut p = project("web", vec![task("build", &[]), task("lint", &[])]);
    p.framework = Some(angular);
    let r = construct(&vec![p]);
    let mut keys = canons(&r);
    assert_eq!(keys, vec!["web:build", "web:lint", "web:serve"]);
    keys.dedup();
    assert_eq!(keys.len(), 3);
}

#[test]
fn survivor_is_the_first_built_entry() {
    // two projects with the same name declare the same task; the first
    // discovered one's entry survives, recognizable by its kind
    let mut first = project("web", vec![task("build", &[])]);
    first.project_type = ProjectType::Library;
    let second = project("web", vec![task("build", &[])]);
    let r = construct(&vec![first, second]);
    assert_eq!(r.len(), 1);
    assert!(matches!(r[0].project_type, ProjectType::Library));
}

#[test]
fn display_string_formats() {
    let e = CommandEntry {
        project_type: ProjectType::Application,
        framework_name: Some("angular".to_string()),
        project_name: "web".to_string(),
        command: "test".to_string(),
        subcommand: Some("ci".to_string()),
    };
    assert_eq!(e.display_string(), "[app:angular] web:test:ci");
    assert_eq!(e.to_nx_command(), "web:test:ci");
    assert_eq!(e.command_display(), "test:ci");
    assert_eq!(e.project_type_display(), "app");
    let e = CommandEntry {
        project_type: ProjectType::Library,
        framework_name: None,
        project_name: "ui".to_string(),
        command: "build".to_string(),
        subcommand: None,
    };
    assert_eq!(e.display_string(), "[lib] ui:build");
    assert_eq!(e.to_nx_command(), "ui:build");
    assert_eq!(e.command_display(), "build");
    assert_eq!(e.project_type_display(), "lib");
}

#[test]
fn framework_commands_are_added_for_matched_projects() {
    let fs = known_frameworks();
    let nextjs = fs.into_iter().find(|f| f.name == "nextjs").unwrap();
    let mut p = project("site", vec![]);
    p.framework = Some(nextjs);
    let r = construct(&vec![p]);
    assert_eq!(canons(&r), vec!["site:build", "site:dev", "site:start"]);
    assert_eq!(r[0].framework_name.as_deref(), Some("nextjs"));
}
