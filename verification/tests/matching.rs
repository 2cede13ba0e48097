use nx_picker::discovery::{discover_from_inputs, process_descriptor, DescriptorInput};
use nx_picker::frameworks::known_frameworks;
use nx_picker::matcher::{deep_match, detect_framework, shallow_match, FileProbe};
use nx_picker::project::ProjectError;

fn strings(names: &[&str]) -> Vec<String> {
    names.iter().map(|s| s.to_string()).collect()
}

#[test]
fn registry_declaration_order() {
    let fs = known_frameworks();
    let names: Vec<&str> = fs.iter().map(|f| f.name.as_str()).collect();
    assert_eq!(names, vec!["nextjs", "nuxt", "angular", "nestjs", "cypress", "Vite"]);
}

#[test]
fn identity_file_matches_shallowly() {
    let fs = known_frameworks();
    let dir = strings(&["package.json", "angular.json"]);
    let r = shallow_match(&fs, &dir, "{}");
    assert_eq!(r, Some(2));
}

#[test]
fn keyword_matches_shallowly() {
    let fs = known_frameworks();
    let dir = strings(&["package.json"]);
    let r = shallow_match(&fs, &dir, r#"{"deps":"@angular/core"}"#);
    assert_eq!(r, Some(2));
}

#[test]
fn declaration_order_breaks_ties() {
    // both the angular marker file and the vite marker file are present;
    // angular is declared earlier and must win
    let fs = known_frameworks();
    let dir = strings(&["angular.json", "vite.config.ts"]);
    let r = shallow_match(&fs, &dir, "{}");
    assert_eq!(r, Some(2));
    // a file-based match earlier in the registry beats a keyword-based one later
    let dir = strings(&["next.config.js"]);
    let r = shallow_match(&fs, &dir, r#"{"deps":"@angular/core"}"#);
    assert_eq!(r, Some(0));
}

#[test]
fn no_match_is_a_normal_outcome() {
    let fs = known_frameworks();
    let dir = strings(&["package.json"]);
    assert_eq!(shallow_match(&fs, &dir, "{}"), None);
    let r = detect_framework(&fs, &dir, "{}", &Vec::new());
    assert_eq!(r, Ok(None));
}

#[test]
fn deep_match_reads_the_named_file() {
    let fs = known_frameworks();
    let probes = vec![(
        "src/main.ts".to_string(),
        FileProbe::Content("import x from '@nestjs/common';".to_string()),
    )];
    assert_eq!(deep_match(&fs, &probes), Ok(Some(3)));
    let probes = vec![(
        "src/main.ts".to_string(),
        FileProbe::Content("console.log('hi');".to_string()),
    )];
    assert_eq!(deep_match(&fs, &probes), Ok(None));
    let probes = vec![("src/main.ts".to_string(), FileProbe::Absent)];
    assert_eq!(deep_match(&fs, &probes), Ok(None));
}

#[test]
fn unreadable_deep_file_fails_the_attempt() {
    let fs = known_frameworks();
    let probes = vec![("src/main.ts".to_string(), FileProbe::Unreadable("denied".to_string()))];
    assert_eq!(deep_match(&fs, &probes), Err(()));
}

#[test]
fn shallow_match_wins_over_deep_match() {
    // the deep probe would identify nestjs, but the angular marker file is
    // present, so the shallow pass decides first
    let fs = known_frameworks();
    let dir = strings(&["angular.json"]);
    let probes = vec![(
        "src/main.ts".to_string(),
        FileProbe::Content("import x from '@nestjs/common';".to_string()),
    )];
    let r = detect_framework(&fs, &dir, "{}", &probes);
    assert_eq!(r, Ok(Some(2)));
}

#[test]
fn process_attaches_the_framework() {
    let fs = known_frameworks();
    let input = DescriptorInput {
        path: "apps/web/project.json".to_string(),
        content: Ok(r#"{"name":"web","targets":{"build":{}}}"#.to_string()),
        dir_files: strings(&["project.json", "next.config.js"]),
        probes: Vec::new(),
    };
    let p = process_descriptor(&fs, &input).unwrap();
    assert_eq!(p.name, "web");
    assert_eq!(p.framework.as_ref().unwrap().name, "nextjs");
}

#[test]
fn unreadable_descriptor_is_an_io_error() {
    let fs = known_frameworks();
    let input = DescriptorInput {
        path: "apps/web/project.json".to_string(),
        content: Err("permission denied".to_string()),
        dir_files: Vec::new(),
        probes: Vec::new(),
    };
    match process_descriptor(&fs, &input) {
        Err(ProjectError::IoError(m)) => assert_eq!(m, "permission denied"),
        _ => panic!("expected an io failure"),
    }
}

#[test]
fn unreadable_deep_file_fails_the_project() {
    let fs = known_frameworks();
    let input = DescriptorInput {
        path: "apps/web/project.json".to_string(),
        content: Ok(r#"{"name":"web"}"#.to_string()),
        dir_files: strings(&["project.json"]),
        probes: vec![("src/main.ts".to_string(), FileProbe::Unreadable("denied".to_string()))],
    };
    assert!(matches!(process_descriptor(&fs, &input), Err(ProjectError::IoError(_))));
}

fn valid_input(name: &str) -> DescriptorInput {
    DescriptorInput {
        path: format!("apps/{}/project.json", name),
        content: Ok(format!(r#"{{"name":"{}","targets":{{"build":{{}}}}}}"#, name)),
        dir_files: strings(&["project.json"]),
        probes: Vec::new(),
    }
}

#[test]
fn invalid_descriptor_is_skipped_with_a_diagnostic() {
    // three valid descriptors and one with invalid syntax: discovery yields
    // exactly the three projects, and one diagnostic naming the bad path
    let fs = known_frameworks();
    let inputs = vec![
        valid_input("one"),
        DescriptorInput {
            path: "apps/broken/project.json".to_string(),
            content: Ok("{not valid".to_string()),
            dir_files: strings(&["project.json"]),
            probes: Vec::new(),
        },
        valid_input("two"),
        valid_input("three"),
    ];
    let (projects, diags) = discover_from_inputs(&fs, &inputs);
    assert_eq!(projects.len(), 3);
    let names: Vec<&str> = projects.iter().map(|p| p.name.as_str()).collect();
    assert_eq!(names, vec!["one", "two", "three"]);
    assert_eq!(diags.len(), 1);
    assert!(diags[0].contains("apps/broken/project.json"));
}
