//! Framework detection over plain evidence. The caller supplies what the
//! filesystem showed — the base names present in the project directory, the
//! descriptor text, and a probe per deep-detection file — and the matcher
//! decides, in registry declaration order: a shallow pass first (marker file
//! present, or keyword in the descriptor text), then a deep pass (keyword
//! inside a named file) only when the shallow pass found nothing.
//!
//! The descriptor text is read once, by discovery, before matching starts: a
//! descriptor that cannot be read fails its project at the read step, so the
//! keyword pass never faces an unreadable descriptor. A deep-detection file
//! that exists but cannot be read is a hard failure of the whole attempt; one
//! that does not exist is a plain "no match".

use vstd::prelude::*;

use crate::project::{DeepDetectionMatcher, DeepDetectionMatcherView, Framework, FrameworkView};
use crate::strings::{contains_seq, str_contains, str_eq};

verus! {

/// What the filesystem showed for one deep-detection file.
#[derive(Debug)]
pub enum FileProbe {
    /// The file does not exist: plain "no match".
    Absent,
    /// The file exists but could not be read: a hard failure of the
    /// detection attempt, with the reader's message.
    Unreadable(String),
    /// The file's text.
    Content(String),
}

/// The outcome of trying one deep-detection matcher.
#[derive(Clone, Copy, Debug, PartialEq, Eq, Structural)]
pub enum DeepScanOutcome {
    Matched,
    Failed,
    NoMatch,
}

/// `name` occurs in the list of file names.
pub open spec fn seq_contains_str(files: Seq<Seq<char>>, name: Seq<char>) -> bool {
    exists|i: int| 0 <= i < files.len() && files[i] == name
}

/// Does `name` occur in `files`?
pub fn contains_string(files: &Vec<String>, name: &str) -> (r: bool)
    ensures
        r == seq_contains_str(files.deep_view(), name@),
{
    let n = files.len();
    let mut i: usize = 0;
    while i < n
        invariant
            n == files@.len(),
            i <= n,
            forall|j: int| 0 <= j < i ==> files.deep_view()[j] != name@,
        decreases n - i,
    {
        if str_eq(files[i].as_str(), name) {
            assert(files.deep_view()[i as int] == name@);
            return true;
        }
        i = i + 1;
    }
    false
}

/// One framework's shallow condition: some identity file is present in the
/// project directory, or some identity keyword occurs in the descriptor
/// text.
pub open spec fn spec_shallow_cond(
    f: FrameworkView,
    dir_files: Seq<Seq<char>>,
    text: Seq<char>,
) -> bool {
    ||| exists|i: int|
        0 <= i < f.identity_files.len() && seq_contains_str(dir_files, f.identity_files[i])
    ||| exists|i: int|
        0 <= i < f.proj_identity_keywords.len() && contains_seq(text, f.proj_identity_keywords[i])
}

/// Decides one framework's shallow condition.
fn shallow_cond(f: &Framework, dir_files: &Vec<String>, text: &str) -> (r: bool)
    ensures
        r == spec_shallow_cond(f@, dir_files.deep_view(), text@),
{
    let nf = f.identity_files.len();
    let mut i: usize = 0;
    while i < nf
        invariant
            nf == f.identity_files@.len(),
            i <= nf,
            forall|j: int|
                0 <= j < i ==> !seq_contains_str(dir_files.deep_view(), f@.identity_files[j]),
        decreases nf - i,
    {
        if contains_string(dir_files, f.identity_files[i].as_str()) {
            proof {
                assert(f@.identity_files[i as int] == f.identity_files@[i as int]@);
                assert(seq_contains_str(dir_files.deep_view(), f@.identity_files[i as int]));
            }
            return true;
        }
        i = i + 1;
    }
    let nk = f.proj_identity_keywords.len();
    let mut k: usize = 0;
    while k < nk
        invariant
            nk == f.proj_identity_keywords@.len(),
            k <= nk,
            forall|j: int| 0 <= j < k ==> !contains_seq(text@, f@.proj_identity_keywords[j]),
        decreases nk - k,
    {
        if str_contains(text, f.proj_identity_keywords[k].as_str()) {
            proof {
                assert(f@.proj_identity_keywords[k as int] == f.proj_identity_keywords@[
                    k as int
                ]@);
                assert(contains_seq(text@, f@.proj_identity_keywords[k as int]));
            }
            return true;
        }
        k = k + 1;
    }
    false
}

/// The first framework, in declaration order, whose shallow condition holds.
pub open spec fn spec_shallow_match(
    fs: Seq<FrameworkView>,
    dir_files: Seq<Seq<char>>,
    text: Seq<char>,
) -> Option<FrameworkView>
    decreases fs.len(),
{
    if fs.len() == 0 {
        None
    } else if spec_shallow_cond(fs[0], dir_files, text) {
        Some(fs[0])
    } else {
        spec_shallow_match(fs.drop_first(), dir_files, text)
    }
}

/// If no framework among the first `i` matches shallowly, the outcome is
/// decided by the rest.
proof fn lemma_shallow_match_skip(
    fs: Seq<FrameworkView>,
    dir_files: Seq<Seq<char>>,
    text: Seq<char>,
    i: int,
)
    requires
        0 <= i <= fs.len(),
        forall|k: int| 0 <= k < i ==> !spec_shallow_cond(fs[k], dir_files, text),
    ensures
        spec_shallow_match(fs, dir_files, text) == spec_shallow_match(fs.skip(i), dir_files, text),
    decreases i,
{
    if i == 0 {
        assert(fs.skip(0) =~= fs);
    } else {
        lemma_shallow_match_skip(fs.drop_first(), dir_files, text, i - 1);
        assert(fs.drop_first().skip(i - 1) =~= fs.skip(i));
    }
}

/// The shallow pass: walks the registry in declaration order and yields the
/// index of the first framework whose shallow condition holds.
pub fn shallow_match(frameworks: &Vec<Framework>, dir_files: &Vec<String>, text: &str) -> (r:
    Option<usize>)
    ensures
        r matches Some(i) ==> i < frameworks@.len() && spec_shallow_match(
            frameworks.deep_view(),
            dir_files.deep_view(),
            text@,
        ) == Some(frameworks.deep_view()[i as int]),
        r is None <==> spec_shallow_match(frameworks.deep_view(), dir_files.deep_view(), text@)
            is None,
    {
    let n = frameworks.len();
    let mut i: usize = 0;
    while i < n
        invariant
            n == frameworks@.len(),
            i <= n,
            forall|k: int|
                0 <= k < i ==> !spec_shallow_cond(
                    frameworks.deep_view()[k],
                    dir_files.deep_view(),
                    text@,
                ),
        decreases n - i,
    {
        if shallow_cond(&frameworks[i], dir_files, text) {
            proof {
                lemma_shallow_match_skip(
                    frameworks.deep_view(),
                    dir_files.deep_view(),
                    text@,
                    i as int,
                );
                assert(frameworks.deep_view().skip(i as int)[0] == frameworks.deep_view()[
                    i as int
                ]);
            }
            return Some(i);
        }
        i = i + 1;
    }
    proof {
        lemma_shallow_match_skip(frameworks.deep_view(), dir_files.deep_view(), text@, i as int);
    }
    None
}

/// The first probe recorded for `path`, if any.
pub open spec fn spec_probe_of(probes: Seq<(String, FileProbe)>, path: Seq<char>) -> Option<
    FileProbe,
>
    decreases probes.len(),
{
    if probes.len() == 0 {
        None
    } else if probes[0].0@ == path {
        Some(probes[0].1)
    } else {
        spec_probe_of(probes.drop_first(), path)
    }
}

proof fn lemma_probe_of_skip(probes: Seq<(String, FileProbe)>, path: Seq<char>, i: int)
    requires
        0 <= i <= probes.len(),
        forall|j: int| 0 <= j < i ==> probes[j].0@ != path,
    ensures
        spec_probe_of(probes, path) == spec_probe_of(probes.skip(i), path),
    decreases i,
{
    if i == 0 {
        assert(probes.skip(0) =~= probes);
    } else {
        lemma_probe_of_skip(probes.drop_first(), path, i - 1);
        assert(probes.drop_first().skip(i - 1) =~= probes.skip(i));
    }
}

/// Looks the probe for `path` up; the first record wins.
fn probe_of<'a>(probes: &'a Vec<(String, FileProbe)>, path: &str) -> (r: Option<&'a FileProbe>)
    ensures
        r matches Some(p) ==> spec_probe_of(probes@, path@) == Some(*p),
        r is None <==> spec_probe_of(probes@, path@) is None,
{
    let n = probes.len();
    let mut i: usize = 0;
    while i < n
        invariant
            n == probes@.len(),
            i <= n,
            forall|j: int| 0 <= j < i ==> probes@[j].0@ != path@,
        decreases n - i,
    {
        if str_eq(probes[i].0.as_str(), path) {
            proof {
                lemma_probe_of_skip(probes@, path@, i as int);
                assert(probes@.skip(i as int)[0] == probes@[i as int]);
            }
            return Some(&probes[i].1);
        }
        i = i + 1;
    }
    proof {
        lemma_probe_of_skip(probes@, path@, i as int);
    }
    None
}

/// What one deep-detection matcher concludes from the probes: a missing or
/// keyword-free file is no match, an unreadable file is a hard failure, and
/// a file containing the keyword is a match.
pub open spec fn spec_matcher_step(
    m: DeepDetectionMatcherView,
    probes: Seq<(String, FileProbe)>,
) -> DeepScanOutcome {
    match spec_probe_of(probes, m.path) {
        None => DeepScanOutcome::NoMatch,
        Some(p) => match p {
            FileProbe::Absent => DeepScanOutcome::NoMatch,
            FileProbe::Unreadable(_) => DeepScanOutcome::Failed,
            FileProbe::Content(c) => if contains_seq(c@, m.keyword) {
                DeepScanOutcome::Matched
            } else {
                DeepScanOutcome::NoMatch
            },
        },
    }
}

/// Decides one deep-detection matcher.
fn matcher_step(m: &DeepDetectionMatcher, probes: &Vec<(String, FileProbe)>) -> (r: DeepScanOutcome)
    ensures
        r == spec_matcher_step(m@, probes@),
{
    match probe_of(probes, m.path.as_str()) {
        None => DeepScanOutcome::NoMatch,
        Some(p) => match p {
            FileProbe::Absent => DeepScanOutcome::NoMatch,
            FileProbe::Unreadable(_) => DeepScanOutcome::Failed,
            FileProbe::Content(c) => if str_contains(c.as_str(), m.keyword.as_str()) {
                DeepScanOutcome::Matched
            } else {
                DeepScanOutcome::NoMatch
            },
        },
    }
}

/// One framework's deep scan: its matchers in order; the first that is not
/// a plain "no match" decides.
pub open spec fn spec_deep_scan(
    ms: Seq<DeepDetectionMatcherView>,
    probes: Seq<(String, FileProbe)>,
) -> DeepScanOutcome
    decreases ms.len(),
{
    if ms.len() == 0 {
        DeepScanOutcome::NoMatch
    } else {
        match spec_matcher_step(ms[0], probes) {
            DeepScanOutcome::NoMatch => spec_deep_scan(ms.drop_first(), probes),
            outcome => outcome,
        }
    }
}

proof fn lemma_deep_scan_skip(
    ms: Seq<DeepDetectionMatcherView>,
    probes: Seq<(String, FileProbe)>,
    i: int,
)
    requires
        0 <= i <= ms.len(),
        forall|k: int| 0 <= k < i ==> spec_matcher_step(ms[k], probes) == DeepScanOutcome::NoMatch,
    ensures
        spec_deep_scan(ms, probes) == spec_deep_scan(ms.skip(i), probes),
    decreases i,
{
    if i == 0 {
        assert(ms.skip(0) =~= ms);
    } else {
        lemma_deep_scan_skip(ms.drop_first(), probes, i - 1);
        assert(ms.drop_first().skip(i - 1) =~= ms.skip(i));
    }
}

/// Runs one framework's deep scan.
fn deep_scan(f: &Framework, probes: &Vec<(String, FileProbe)>) -> (r: DeepScanOutcome)
    ensures
        r == spec_deep_scan(f@.deep_detection_matchers, probes@),
{
    let n = f.deep_detection_matchers.len();
    let mut i: usize = 0;
    while i < n
        invariant
            n == f.deep_detection_matchers@.len(),
            i <= n,
            forall|k: int|
                0 <= k < i ==> spec_matcher_step(f@.deep_detection_matchers[k], probes@)
                    == DeepScanOutcome::NoMatch,
        decreases n - i,
    {
        let outcome = matcher_step(&f.deep_detection_matchers[i], probes);
        if !matches!(outcome, DeepScanOutcome::NoMatch) {
            proof {
                lemma_deep_scan_skip(f@.deep_detection_matchers, probes@, i as int);
                assert(f@.deep_detection_matchers.skip(i as int)[0] == f@.deep_detection_matchers[
                    i as int
                ]);
            }
            return outcome;
        }
        i = i + 1;
    }
    proof {
        lemma_deep_scan_skip(f@.deep_detection_matchers, probes@, i as int);
    }
    DeepScanOutcome::NoMatch
}

/// The deep pass over the whole registry, in declaration order: the first
/// framework whose scan is decisive wins; a hard failure anywhere before a
/// match aborts the attempt.
pub open spec fn spec_deep_match(
    fs: Seq<FrameworkView>,
    probes: Seq<(String, FileProbe)>,
) -> Result<Option<FrameworkView>, ()>
    decreases fs.len(),
{
    if fs.len() == 0 {
        Ok(None)
    } else {
        match spec_deep_scan(fs[0].deep_detection_matchers, probes) {
            DeepScanOutcome::Matched => Ok(Some(fs[0])),
            DeepScanOutcome::Failed => Err(()),
            DeepScanOutcome::NoMatch => spec_deep_match(fs.drop_first(), probes),
        }
    }
}

proof fn lemma_deep_match_skip(fs: Seq<FrameworkView>, probes: Seq<(String, FileProbe)>, i: int)
    requires
        0 <= i <= fs.len(),
        forall|k: int|
            0 <= k < i ==> spec_deep_scan(fs[k].deep_detection_matchers, probes)
                == DeepScanOutcome::NoMatch,
    ensures
        spec_deep_match(fs, probes) == spec_deep_match(fs.skip(i), probes),
    decreases i,
{
    if i == 0 {
        assert(fs.skip(0) =~= fs);
    } else {
        lemma_deep_match_skip(fs.drop_first(), probes, i - 1);
        assert(fs.drop_first().skip(i - 1) =~= fs.skip(i));
    }
}

/// The deep pass: yields the index of the first deeply matching framework,
/// or an error when an unreadable file aborted the attempt.
pub fn deep_match(frameworks: &Vec<Framework>, probes: &Vec<(String, FileProbe)>) -> (r: Result<
    Option<usize>,
    (),
>)
    ensures
        match spec_deep_match(frameworks.deep_view(), probes@) {
            Ok(fw) => r matches Ok(o) && (match o {
                Some(i) => i < frameworks@.len() && fw == Some(frameworks.deep_view()[i as int]),
                None => fw is None,
            }),
            Err(e) => r is Err,
        },
{
    let n = frameworks.len();
    let mut i: usize = 0;
    while i < n
        invariant
            n == frameworks@.len(),
            i <= n,
            forall|k: int|
                0 <= k < i ==> spec_deep_scan(
                    frameworks.deep_view()[k].deep_detection_matchers,
                    probes@,
                ) == DeepScanOutcome::NoMatch,
        decreases n - i,
    {
        let outcome = deep_scan(&frameworks[i], probes);
        proof {
            lemma_deep_match_skip(frameworks.deep_view(), probes@, i as int);
            assert(frameworks.deep_view().skip(i as int)[0] == frameworks.deep_view()[i as int]);
        }
        match outcome {
            DeepScanOutcome::Matched => {
                return Ok(Some(i));
            },
            DeepScanOutcome::Failed => {
                return Err(());
            },
            DeepScanOutcome::NoMatch => {},
        }
        i = i + 1;
    }
    proof {
        lemma_deep_match_skip(frameworks.deep_view(), probes@, i as int);
    }
    Ok(None)
}

/// Two-tier detection: the shallow pass decides if it finds anything; the
/// deep pass is consulted only when the shallow pass found nothing.
pub open spec fn spec_detect(
    fs: Seq<FrameworkView>,
    dir_files: Seq<Seq<char>>,
    text: Seq<char>,
    probes: Seq<(String, FileProbe)>,
) -> Result<Option<FrameworkView>, ()> {
    match spec_shallow_match(fs, dir_files, text) {
        Some(f) => Ok(Some(f)),
        None => spec_deep_match(fs, probes),
    }
}

/// Runs both passes; yields the index of the matched framework, if any.
pub fn detect_framework(
    frameworks: &Vec<Framework>,
    dir_files: &Vec<String>,
    text: &str,
    probes: &Vec<(String, FileProbe)>,
) -> (r: Result<Option<usize>, ()>)
    ensures
        match spec_detect(frameworks.deep_view(), dir_files.deep_view(), text@, probes@) {
            Ok(fw) => r matches Ok(o) && (match o {
                Some(i) => i < frameworks@.len() && fw == Some(frameworks.deep_view()[i as int]),
                None => fw is None,
            }),
            Err(e) => r is Err,
        },
{
    match shallow_match(frameworks, dir_files, text) {
        Some(i) => Ok(Some(i)),
        None => deep_match(frameworks, probes),
    }
}

/// Declaration order is the tie-break: when several frameworks' shallow
/// conditions hold at once, the one declared first among them wins, whatever
/// holds for frameworks declared later.
pub proof fn lemma_declaration_order_wins(
    fs: Seq<FrameworkView>,
    dir_files: Seq<Seq<char>>,
    text: Seq<char>,
    i: int,
    j: int,
)
    requires
        0 <= i < j < fs.len(),
        spec_shallow_cond(fs[i], dir_files, text),
        spec_shallow_cond(fs[j], dir_files, text),
        forall|k: int| 0 <= k < i ==> !spec_shallow_cond(fs[k], dir_files, text),
    ensures
        spec_shallow_match(fs, dir_files, text) == Some(fs[i]),
{
    lemma_shallow_match_skip(fs, dir_files, text, i);
    assert(fs.skip(i)[0] == fs[i]);
}

/// A shallow match always wins over a deep match: whatever the deep probes
/// would say, a framework found by the shallow pass is the detection result.
pub proof fn lemma_shallow_wins_over_deep(
    fs: Seq<FrameworkView>,
    dir_files: Seq<Seq<char>>,
    text: Seq<char>,
    probes: Seq<(String, FileProbe)>,
    f: FrameworkView,
)
    requires
        spec_shallow_match(fs, dir_files, text) == Some(f),
    ensures
        spec_detect(fs, dir_files, text, probes) == Ok::<Option<FrameworkView>, ()>(Some(f)),
{
}

} // verus!
