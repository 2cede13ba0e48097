use nx_picker::project::{Project, ProjectError, ProjectType};

#[test]
fn parses_name_kind_and_tasks() {
    let content = r#"{"name":"web","projectType":"application","targets":{"build":{},"test":{"configurations":{"ci":{},"local":{}}}}}"#;
    let p = Project::parse_config(content).unwrap();
    assert_eq!(p.name, "web");
    assert!(matches!(p.project_type, ProjectType::Application));
    assert!(p.framework.is_none());
    assert_eq!(p.tasks.len(), 2);
    assert_eq!(p.tasks[0].command, "build");
    assert_eq!(p.tasks[0].subcommands.len(), 0);
    assert_eq!(p.tasks[1].command, "test");
    assert_eq!(p.tasks[1].subcommands, vec!["ci".to_string(), "local".to_string()]);
}

#[test]
fn library_kind_is_recognized() {
    let p = Project::parse_config(r#"{"name":"ui","projectType":"library"}"#).unwrap();
    assert!(matches!(p.project_type, ProjectType::Library));
}

#[test]
fn absent_kind_defaults_to_application() {
    let p = Project::parse_config(r#"{"name":"ui"}"#).unwrap();
    assert!(matches!(p.project_type, ProjectType::Application));
}

#[test]
fn unrecognized_kind_defaults_to_application() {
    let p = Project::parse_config(r#"{"name":"ui","projectType":"plugin"}"#).unwrap();
    assert!(matches!(p.project_type, ProjectType::Application));
}

#[test]
fn non_string_kind_defaults_to_application() {
    let p = Project::parse_config(r#"{"name":"ui","projectType":7}"#).unwrap();
    assert!(matches!(p.project_type, ProjectType::Application));
}

#[test]
fn absent_targets_means_no_tasks() {
    let p = Project::parse_config(r#"{"name":"ui"}"#).unwrap();
    assert_eq!(p.tasks.len(), 0);
}

#[test]
fn non_object_targets_means_no_tasks() {
    let p = Project::parse_config(r#"{"name":"ui","targets":[1,2]}"#).unwrap();
    assert_eq!(p.tasks.len(), 0);
}

#[test]
fn non_object_configurations_means_no_subcommands() {
    let p =
        Project::parse_config(r#"{"name":"ui","targets":{"build":{"configurations":5}}}"#).unwrap();
    assert_eq!(p.tasks.len(), 1);
    assert_eq!(p.tasks[0].subcommands.len(), 0);
}

#[test]
fn malformed_document_is_a_parse_error() {
    let r = Project::parse_config("{not json");
    assert!(matches!(r, Err(ProjectError::JsonParseError(_))));
}

#[test]
fn missing_name_is_fatal() {
    let r = Project::parse_config(r#"{"projectType":"library"}"#);
    match r {
        Err(ProjectError::MissingField(f)) => assert_eq!(f, "name"),
        _ => panic!("expected a missing-field failure"),
    }
}

#[test]
fn non_string_name_is_fatal() {
    let r = Project::parse_config(r#"{"name":42}"#);
    assert!(matches!(r, Err(ProjectError::MissingField(_))));
}

#[test]
fn non_object_document_is_missing_name() {
    let r = Project::parse_config("[1,2,3]");
    assert!(matches!(r, Err(ProjectError::MissingField(_))));
}

#[test]
fn error_messages_name_the_reason() {
    let m = ProjectError::MissingField("name".to_string()).message();
    assert_eq!(m, "Missing required field: name");
    let m = ProjectError::IoError("denied".to_string()).message();
    assert_eq!(m, "IO error: denied");
    let m = ProjectError::JsonParseError("bad".to_string()).message();
    assert_eq!(m, "JSON parsing error: bad");
}
