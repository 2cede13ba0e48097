//! The discovery orchestrator: one record of filesystem evidence per
//! descriptor file found by the scanner goes in, the parsed projects with
//! their detected frameworks come out. Every per-descriptor failure is
//! isolated — it yields one diagnostic and never prevents discovery of any
//! other project.

use vstd::prelude::*;
use vstd::string::StringExecFns;

use crate::json::json_doc_of;
use crate::matcher::{detect_framework, spec_detect, FileProbe};
use crate::project::{
    spec_doc_kind, spec_doc_name, spec_doc_tasks, DeepDetectionMatcher, Framework, FrameworkView,
    Project, ProjectError, ProjectView,
};
use crate::strings::{contains_seq, lemma_contains_mid};

verus! {

/// Everything the filesystem showed about one descriptor file: the file's
/// path, its text (or the reader's failure message), the base names present
/// in its directory, and one probe per deep-detection file of the registry.
pub struct DescriptorInput {
    pub path: String,
    pub content: Result<String, String>,
    pub dir_files: Vec<String>,
    pub probes: Vec<(String, FileProbe)>,
}

/// Copies a list of strings, preserving every element.
fn clone_strings(v: &Vec<String>) -> (r: Vec<String>)
    ensures
        r@ =~= v@,
{
    let n = v.len();
    let mut r: Vec<String> = Vec::new();
    while r.len() < n
        invariant
            n == v@.len(),
            r@.len() <= n,
            r@ =~= v@.take(r@.len() as int),
        decreases n - r@.len(),
    {
        let i = r.len();
        r.push(v[i].clone());
        proof {
            assert(r@ =~= v@.take(i + 1));
        }
    }
    proof {
        assert(v@.take(n as int) =~= v@);
    }
    r
}

/// Copies a list of deep-detection matchers, preserving every element.
fn clone_matchers(v: &Vec<DeepDetectionMatcher>) -> (r: Vec<DeepDetectionMatcher>)
    ensures
        r.deep_view() =~= v.deep_view(),
{
    let n = v.len();
    let mut r: Vec<DeepDetectionMatcher> = Vec::new();
    while r.len() < n
        invariant
            n == v@.len(),
            r@.len() <= n,
            r.deep_view() =~= v.deep_view().take(r@.len() as int),
        decreases n - r@.len(),
    {
        let i = r.len();
        let m = DeepDetectionMatcher { path: v[i].path.clone(), keyword: v[i].keyword.clone() };
        r.push(m);
        proof {
            assert(r.deep_view() =~= v.deep_view().take(i + 1));
        }
    }
    proof {
        assert(v.deep_view().take(n as int) =~= v.deep_view());
    }
    r
}

/// Copies one framework record, preserving its whole view.
fn clone_framework(f: &Framework) -> (r: Framework)
    ensures
        r@ == f@,
{
    let r = Framework {
        name: f.name.clone(),
        identity_files: clone_strings(&f.identity_files),
        proj_identity_keywords: clone_strings(&f.proj_identity_keywords),
        deep_detection_matchers: clone_matchers(&f.deep_detection_matchers),
        commands: clone_strings(&f.commands),
    };
    proof {
        assert(r@.identity_files =~= f@.identity_files);
        assert(r@.proj_identity_keywords =~= f@.proj_identity_keywords);
        assert(r@.commands =~= f@.commands);
    }
    r
}

/// What one descriptor yields when nothing fails: the parsed project with
/// the detected framework attached. `None` on any failure — an unreadable
/// descriptor, malformed text, a missing `name`, or an aborted deep pass.
pub open spec fn spec_outcome(fs: Seq<FrameworkView>, input: DescriptorInput) -> Option<
    ProjectView,
> {
    match input.content {
        Err(_) => None,
        Ok(c) => match json_doc_of(c@) {
            None => None,
            Some(doc) => match spec_doc_name(doc) {
                None => None,
                Some(n) => match spec_detect(fs, input.dir_files.deep_view(), c@, input.probes@) {
                    Err(_) => None,
                    Ok(fw) => Some(
                        ProjectView {
                            name: n,
                            project_type: spec_doc_kind(doc),
                            tasks: spec_doc_tasks(doc),
                            framework: fw,
                        },
                    ),
                },
            },
        },
    }
}

/// Turns one descriptor's evidence into a project: parse, then the shallow
/// pass, then — only if it found nothing — the deep pass.
pub fn process_descriptor(frameworks: &Vec<Framework>, input: &DescriptorInput) -> (r: Result<
    Project,
    ProjectError,
>)
    ensures
        match spec_outcome(frameworks.deep_view(), *input) {
            Some(pv) => r matches Ok(p) && p@ == pv,
            None => r is Err,
        },
        input.content matches Err(m) ==> (r matches Err(e) && e matches ProjectError::IoError(mm)
            && mm@ == m@),
        (input.content matches Ok(c) && json_doc_of(c@) is None) ==> (r matches Err(e)
            && e matches ProjectError::JsonParseError(_)),
        (input.content matches Ok(c) && json_doc_of(c@) matches Some(doc) && spec_doc_name(doc)
            is None) ==> (r matches Err(e) && e matches ProjectError::MissingField(f) && f@
            == "name"@),
        (input.content matches Ok(c) && json_doc_of(c@) matches Some(doc) && spec_doc_name(doc)
            is Some && spec_detect(
            frameworks.deep_view(),
            input.dir_files.deep_view(),
            c@,
            input.probes@,
        ) is Err) ==> (r matches Err(e) && e matches ProjectError::IoError(_)),
{
    let content: &String = match &input.content {
        Ok(c) => c,
        Err(m) => {
            return Err(ProjectError::IoError(m.clone()));
        },
    };
    let mut project = match Project::parse_config(content.as_str()) {
        Ok(p) => p,
        Err(e) => {
            return Err(e);
        },
    };
    let detected = match detect_framework(frameworks, &input.dir_files, content.as_str(), &input.probes) {
        Ok(o) => o,
        Err(()) => {
            return Err(ProjectError::IoError("failed to read a deep-detection file".to_owned()));
        },
    };
    match detected {
        Some(i) => {
            project.framework = Some(clone_framework(&frameworks[i]));
        },
        None => {},
    }
    Ok(project)
}

/// The projects a whole scan pass yields, in evidence order, skipping every
/// failing descriptor.
pub open spec fn spec_discover(fs: Seq<FrameworkView>, inputs: Seq<DescriptorInput>) -> Seq<
    ProjectView,
>
    decreases inputs.len(),
{
    if inputs.len() == 0 {
        Seq::empty()
    } else {
        let rest = spec_discover(fs, inputs.drop_last());
        match spec_outcome(fs, inputs.last()) {
            Some(pv) => rest.push(pv),
            None => rest,
        }
    }
}

/// The paths of the failing descriptors, in evidence order.
pub open spec fn spec_failed_paths(fs: Seq<FrameworkView>, inputs: Seq<DescriptorInput>) -> Seq<
    Seq<char>,
>
    decreases inputs.len(),
{
    if inputs.len() == 0 {
        Seq::empty()
    } else {
        let rest = spec_failed_paths(fs, inputs.drop_last());
        match spec_outcome(fs, inputs.last()) {
            Some(_) => rest,
            None => rest.push(inputs.last().path@),
        }
    }
}

/// One whole scan pass: every input either contributes its project, in
/// order, or one diagnostic naming its path. No failure stops the rest.
pub fn discover_from_inputs(frameworks: &Vec<Framework>, inputs: &Vec<DescriptorInput>) -> (r: (
    Vec<Project>,
    Vec<String>,
))
    ensures
        r.0.deep_view() == spec_discover(frameworks.deep_view(), inputs@),
        r.1@.len() == spec_failed_paths(frameworks.deep_view(), inputs@).len(),
        forall|k: int|
            0 <= k < r.1@.len() ==> contains_seq(
                r.1.deep_view()[k],
                spec_failed_paths(frameworks.deep_view(), inputs@)[k],
            ),
{
    let ghost fs = frameworks.deep_view();
    let n = inputs.len();
    let mut projects: Vec<Project> = Vec::new();
    let mut diags: Vec<String> = Vec::new();
    let mut i: usize = 0;
    while i < n
        invariant
            n == inputs@.len(),
            i <= n,
            fs == frameworks.deep_view(),
            projects.deep_view() =~= spec_discover(fs, inputs@.take(i as int)),
            diags@.len() == spec_failed_paths(fs, inputs@.take(i as int)).len(),
            forall|k: int|
                0 <= k < diags@.len() ==> contains_seq(
                    diags.deep_view()[k],
                    spec_failed_paths(fs, inputs@.take(i as int))[k],
                ),
        decreases n - i,
    {
        proof {
            assert(inputs@.take(i + 1).drop_last() =~= inputs@.take(i as int));
            assert(inputs@.take(i + 1).last() == inputs@[i as int]);
        }
        match process_descriptor(frameworks, &inputs[i]) {
            Ok(p) => {
                projects.push(p);
                proof {
                    assert(projects.deep_view() =~= spec_discover(fs, inputs@.take(i + 1)));
                }
            },
            Err(e) => {
                let msg = e.message();
                let diag = String::from_str("Failed to parse project ").concat(
                    inputs[i].path.as_str(),
                ).concat(": ").concat(msg.as_str());
                proof {
                    lemma_contains_mid(
                        "Failed to parse project "@,
                        inputs@[i as int].path@,
                        ": "@ + msg@,
                    );
                    assert(diag@ == "Failed to parse project "@ + inputs@[i as int].path@ + (": "@
                        + msg@));
                }
                let ghost old_diags = diags.deep_view();
                let ghost old_targets = spec_failed_paths(fs, inputs@.take(i as int));
                diags.push(diag);
                proof {
                    let new_targets = spec_failed_paths(fs, inputs@.take(i + 1));
                    assert(new_targets == old_targets.push(inputs@[i as int].path@));
                    assert(diags.deep_view() =~= old_diags.push(diag@));
                    assert forall|k: int|
                        0 <= k < diags@.len() implies contains_seq(
                        diags.deep_view()[k],
                        new_targets[k],
                    ) by {
                        if k < old_diags.len() {
                            assert(diags.deep_view()[k] == old_diags[k]);
                            assert(new_targets[k] == old_targets[k]);
                        }
                    }
                }
            },
        }
        i = i + 1;
    }
    proof {
        assert(inputs@.take(n as int) =~= inputs@);
    }
    (projects, diags)
}

} // verus!
