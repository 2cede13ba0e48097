//! The project data model and the descriptor parser: a descriptor document
//! yields a project name, a kind, and the declared tasks with their
//! sub-variants. Per-file failures are values, never panics, so one bad
//! descriptor cannot abort a workspace scan.

use vstd::prelude::*;

use crate::json::{json_doc_of, obj_get, parse_json, spec_obj_get, JsonValue};
use crate::strings::str_eq;
use vstd::string::StringExecFns;

verus! {

/// The kind a project declares: an application unless it says `library`.
#[derive(Clone, Copy, Debug, PartialEq, Eq, Structural)]
pub enum ProjectType {
    Application,
    Library,
}

/// One declared unit of work: a bare command plus optional named variants.
#[derive(Debug)]
pub struct Task {
    pub command: String,
    pub subcommands: Vec<String>,
}

/// A (relative path, keyword) pair: the framework is identified when the
/// named file exists and contains the keyword.
#[derive(Debug)]
pub struct DeepDetectionMatcher {
    pub path: String,
    pub keyword: String,
}

/// A known tooling identity, consulted in fixed declaration order.
#[derive(Debug)]
pub struct Framework {
    pub name: String,
    pub identity_files: Vec<String>,
    pub proj_identity_keywords: Vec<String>,
    pub deep_detection_matchers: Vec<DeepDetectionMatcher>,
    pub commands: Vec<String>,
}

/// One workspace sub-project, as parsed from its descriptor file. The
/// `framework` field starts out `None` and is attached by discovery.
#[derive(Debug)]
pub struct Project {
    pub name: String,
    pub project_type: ProjectType,
    pub tasks: Vec<Task>,
    pub framework: Option<Framework>,
}

/// Why one descriptor could not be turned into a project.
#[derive(Debug)]
pub enum ProjectError {
    IoError(String),
    JsonParseError(String),
    MissingField(String),
}

/// The diagnostic text for each failure kind.
pub open spec fn spec_error_message(e: ProjectError) -> Seq<char> {
    match e {
        ProjectError::IoError(m) => "IO error: "@ + m@,
        ProjectError::JsonParseError(m) => "JSON parsing error: "@ + m@,
        ProjectError::MissingField(f) => "Missing required field: "@ + f@,
    }
}

impl ProjectError {
    /// Renders the failure for diagnostics.
    pub fn message(&self) -> (r: String)
        ensures
            r@ == spec_error_message(*self),
    {
        match self {
            ProjectError::IoError(m) => String::from_str("IO error: ").concat(m.as_str()),
            ProjectError::JsonParseError(m) => String::from_str("JSON parsing error: ").concat(
                m.as_str(),
            ),
            ProjectError::MissingField(f) => String::from_str("Missing required field: ").concat(
                f.as_str(),
            ),
        }
    }
}

pub struct TaskView {
    pub command: Seq<char>,
    pub subcommands: Seq<Seq<char>>,
}

pub struct DeepDetectionMatcherView {
    pub path: Seq<char>,
    pub keyword: Seq<char>,
}

pub struct FrameworkView {
    pub name: Seq<char>,
    pub identity_files: Seq<Seq<char>>,
    pub proj_identity_keywords: Seq<Seq<char>>,
    pub deep_detection_matchers: Seq<DeepDetectionMatcherView>,
    pub commands: Seq<Seq<char>>,
}

pub struct ProjectView {
    pub name: Seq<char>,
    pub project_type: ProjectType,
    pub tasks: Seq<TaskView>,
    pub framework: Option<FrameworkView>,
}

impl View for Task {
    type V = TaskView;

    open spec fn view(&self) -> TaskView {
        TaskView { command: self.command@, subcommands: self.subcommands.deep_view() }
    }
}

impl DeepView for Task {
    type V = TaskView;

    open spec fn deep_view(&self) -> TaskView {
        self@
    }
}

impl View for DeepDetectionMatcher {
    type V = DeepDetectionMatcherView;

    open spec fn view(&self) -> DeepDetectionMatcherView {
        DeepDetectionMatcherView { path: self.path@, keyword: self.keyword@ }
    }
}

impl DeepView for DeepDetectionMatcher {
    type V = DeepDetectionMatcherView;

    open spec fn deep_view(&self) -> DeepDetectionMatcherView {
        self@
    }
}

impl View for Framework {
    type V = FrameworkView;

    open spec fn view(&self) -> FrameworkView {
        FrameworkView {
            name: self.name@,
            identity_files: self.identity_files.deep_view(),
            proj_identity_keywords: self.proj_identity_keywords.deep_view(),
            deep_detection_matchers: self.deep_detection_matchers.deep_view(),
            commands: self.commands.deep_view(),
        }
    }
}

impl DeepView for Framework {
    type V = FrameworkView;

    open spec fn deep_view(&self) -> FrameworkView {
        self@
    }
}

impl View for Project {
    type V = ProjectView;

    open spec fn view(&self) -> ProjectView {
        ProjectView {
            name: self.name@,
            project_type: self.project_type,
            tasks: self.tasks.deep_view(),
            framework: self.framework.deep_view(),
        }
    }
}

impl DeepView for Project {
    type V = ProjectView;

    open spec fn deep_view(&self) -> ProjectView {
        self@
    }
}

/// The required `name` field: present exactly when the document is a mapping
/// whose `name` key holds a string.
pub open spec fn spec_doc_name(doc: JsonValue) -> Option<Seq<char>> {
    match doc {
        JsonValue::Obj(pairs) => match spec_obj_get(pairs@, "name"@) {
            Some(v) => match v {
                JsonValue::Str(s) => Some(s@),
                _ => None,
            },
            None => None,
        },
        _ => None,
    }
}

/// The declared kind: `library` maps to `Library`, anything else (absent,
/// wrong type, other text) to `Application`. Never a failure.
pub open spec fn spec_doc_kind(doc: JsonValue) -> ProjectType {
    match doc {
        JsonValue::Obj(pairs) => match spec_obj_get(pairs@, "projectType"@) {
            Some(v) => match v {
                JsonValue::Str(s) => if s@ == "library"@ {
                    ProjectType::Library
                } else {
                    ProjectType::Application
                },
                _ => ProjectType::Application,
            },
            None => ProjectType::Application,
        },
        _ => ProjectType::Application,
    }
}

/// The sub-variants one target entry declares: the keys of its
/// `configurations` mapping, in order, or nothing when that mapping is
/// absent or not a mapping.
pub open spec fn spec_subcommands(v: JsonValue) -> Seq<Seq<char>> {
    match v {
        JsonValue::Obj(pairs) => match spec_obj_get(pairs@, "configurations"@) {
            Some(c) => match c {
                JsonValue::Obj(cpairs) => cpairs@.map(|i: int, p: (String, JsonValue)| p.0@),
                _ => Seq::empty(),
            },
            None => Seq::empty(),
        },
        _ => Seq::empty(),
    }
}

/// The declared tasks: one per key of the `targets` mapping, in order, each
/// with its sub-variants. An absent or non-mapping `targets` means no tasks,
/// never a failure.
pub open spec fn spec_doc_tasks(doc: JsonValue) -> Seq<TaskView> {
    match doc {
        JsonValue::Obj(pairs) => match spec_obj_get(pairs@, "targets"@) {
            Some(t) => match t {
                JsonValue::Obj(tpairs) => tpairs@.map(
                    |i: int, p: (String, JsonValue)|
                        TaskView { command: p.0@, subcommands: spec_subcommands(p.1) },
                ),
                _ => Seq::empty(),
            },
            None => Seq::empty(),
        },
        _ => Seq::empty(),
    }
}

/// What parsing descriptor text must yield: a syntax failure, the one fatal
/// missing field, or the parsed project with no framework attached yet.
pub open spec fn spec_parse_result(content: Seq<char>, r: Result<Project, ProjectError>) -> bool {
    match json_doc_of(content) {
        None => r matches Err(e) && e matches ProjectError::JsonParseError(_),
        Some(doc) => match spec_doc_name(doc) {
            None => r matches Err(e) && e matches ProjectError::MissingField(f) && f@ == "name"@,
            Some(n) => r matches Ok(p) && p@ == (ProjectView {
                name: n,
                project_type: spec_doc_kind(doc),
                tasks: spec_doc_tasks(doc),
                framework: None,
            }),
        },
    }
}

/// The sub-variants of one target entry, as executable code.
fn subcommands_of(v: &JsonValue) -> (r: Vec<String>)
    ensures
        r.deep_view() == spec_subcommands(*v),
{
    match v {
        JsonValue::Obj(pairs) => {
            match obj_get(pairs, "configurations") {
                Some(c) => match c {
                    JsonValue::Obj(cpairs) => {
                        let n = cpairs.len();
                        let mut out: Vec<String> = Vec::new();
                        let ghost keys = cpairs@.map(|i: int, p: (String, JsonValue)| p.0@);
                        while out.len() < n
                            invariant
                                n == cpairs@.len(),
                                out@.len() <= n,
                                keys == cpairs@.map(|i: int, p: (String, JsonValue)| p.0@),
                                out.deep_view() =~= keys.take(out@.len() as int),
                            decreases n - out@.len(),
                        {
                            let i = out.len();
                            out.push(cpairs[i].0.clone());
                            proof {
                                assert(out.deep_view() =~= keys.take(i + 1));
                            }
                        }
                        proof {
                            assert(keys.take(n as int) =~= keys);
                        }
                        out
                    },
                    _ => Vec::new(),
                },
                None => Vec::new(),
            }
        },
        _ => Vec::new(),
    }
}

/// The declared tasks of a parsed document, as executable code.
fn tasks_of(doc: &JsonValue) -> (r: Vec<Task>)
    ensures
        r.deep_view() == spec_doc_tasks(*doc),
{
    match doc {
        JsonValue::Obj(pairs) => {
            match obj_get(pairs, "targets") {
                Some(t) => match t {
                    JsonValue::Obj(tpairs) => {
                        let n = tpairs.len();
                        let mut out: Vec<Task> = Vec::new();
                        let ghost views = tpairs@.map(
                            |i: int, p: (String, JsonValue)|
                                TaskView { command: p.0@, subcommands: spec_subcommands(p.1) },
                        );
                        while out.len() < n
                            invariant
                                n == tpairs@.len(),
                                out@.len() <= n,
                                views == tpairs@.map(
                                    |i: int, p: (String, JsonValue)|
                                        TaskView {
                                            command: p.0@,
                                            subcommands: spec_subcommands(p.1),
                                        },
                                ),
                                out.deep_view() =~= views.take(out@.len() as int),
                            decreases n - out@.len(),
                        {
                            let i = out.len();
                            let subcommands = subcommands_of(&tpairs[i].1);
                            let command = tpairs[i].0.clone();
                            out.push(Task { command, subcommands });
                            proof {
                                assert(out.deep_view() =~= views.take(i + 1));
                            }
                        }
                        proof {
                            assert(views.take(n as int) =~= views);
                        }
                        out
                    },
                    _ => Vec::new(),
                },
                None => Vec::new(),
            }
        },
        _ => Vec::new(),
    }
}

impl Project {
    /// Parses one descriptor's text into a project. Fails on malformed
    /// syntax or a missing `name`; everything else degrades gracefully.
    pub fn parse_config(content: &str) -> (r: Result<Project, ProjectError>)
        ensures
            spec_parse_result(content@, r),
    {
        let doc = match parse_json(content) {
            Ok(d) => d,
            Err(msg) => {
                return Err(ProjectError::JsonParseError(msg));
            },
        };
        let name: String = match &doc {
            JsonValue::Obj(pairs) => match obj_get(pairs, "name") {
                Some(v) => match v {
                    JsonValue::Str(s) => s.clone(),
                    _ => {
                        return Err(ProjectError::MissingField("name".to_owned()));
                    },
                },
                None => {
                    return Err(ProjectError::MissingField("name".to_owned()));
                },
            },
            _ => {
                return Err(ProjectError::MissingField("name".to_owned()));
            },
        };
        let project_type: ProjectType = match &doc {
            JsonValue::Obj(pairs) => match obj_get(pairs, "projectType") {
                Some(v) => match v {
                    JsonValue::Str(s) => if str_eq(s.as_str(), "library") {
                        ProjectType::Library
                    } else {
                        ProjectType::Application
                    },
                    _ => ProjectType::Application,
                },
                None => ProjectType::Application,
            },
            _ => ProjectType::Application,
        };
        let tasks = tasks_of(&doc);
        Ok(Project { name, project_type, tasks, framework: None })
    }
}

} // verus!
