//! The command builder: flattens discovered projects into launchable
//! command entries — one per task, one per task/sub-variant pair, one per
//! framework-provided generic command — then deduplicates by the canonical
//! invocation string. The final list is strictly sorted by that string, so
//! no two entries can share it, and the survivor of each duplicate group is
//! the entry built first.

use vstd::prelude::*;
use vstd::string::StringExecFns;

use crate::project::{Project, ProjectType, ProjectView, TaskView};
use crate::strings::{lemma_lex_lt_properties, lemma_lex_lt_trans, lex_lt, str_eq, str_lt};

verus! {

/// One launchable unit surfaced to the user.
#[derive(Debug)]
pub struct CommandEntry {
    pub project_type: ProjectType,
    pub framework_name: Option<String>,
    pub project_name: String,
    pub command: String,
    pub subcommand: Option<String>,
}

pub struct CommandEntryView {
    pub project_type: ProjectType,
    pub framework_name: Option<Seq<char>>,
    pub project_name: Seq<char>,
    pub command: Seq<char>,
    pub subcommand: Option<Seq<char>>,
}

impl View for CommandEntry {
    type V = CommandEntryView;

    open spec fn view(&self) -> CommandEntryView {
        CommandEntryView {
            project_type: self.project_type,
            framework_name: self.framework_name.deep_view(),
            project_name: self.project_name@,
            command: self.command@,
            subcommand: self.subcommand.deep_view(),
        }
    }
}

impl DeepView for CommandEntry {
    type V = CommandEntryView;

    open spec fn deep_view(&self) -> CommandEntryView {
        self@
    }
}

/// The canonical invocation string: `project:command[:subcommand]`.
pub open spec fn spec_canon(e: CommandEntryView) -> Seq<char> {
    match e.subcommand {
        Some(s) => e.project_name + ":"@ + e.command + ":"@ + s,
        None => e.project_name + ":"@ + e.command,
    }
}

/// `lib` or `app`, after the declared kind.
pub open spec fn spec_type_str(t: ProjectType) -> Seq<char> {
    match t {
        ProjectType::Library => "lib"@,
        ProjectType::Application => "app"@,
    }
}

/// The bracketed tag: the kind, plus the framework name when one matched.
pub open spec fn spec_type_display(e: CommandEntryView) -> Seq<char> {
    match e.framework_name {
        Some(f) => spec_type_str(e.project_type) + ":"@ + f,
        None => spec_type_str(e.project_type),
    }
}

/// What the picker shows: `[tag] project:command[:subcommand]`.
pub open spec fn spec_display(e: CommandEntryView) -> Seq<char> {
    "["@ + spec_type_display(e) + "] "@ + spec_canon(e)
}

/// The command column: `command[:subcommand]`.
pub open spec fn spec_command_display(e: CommandEntryView) -> Seq<char> {
    match e.subcommand {
        Some(s) => e.command + ":"@ + s,
        None => e.command,
    }
}

impl CommandEntry {
    /// The canonical invocation string handed to the external runner.
    pub fn to_nx_command(&self) -> (r: String)
        ensures
            r@ == spec_canon(self@),
    {
        let base = self.project_name.clone().concat(":").concat(self.command.as_str());
        match &self.subcommand {
            Some(s) => base.concat(":").concat(s.as_str()),
            None => base,
        }
    }

    /// The kind column: `lib` or `app`.
    pub fn project_type_display(&self) -> (r: String)
        ensures
            r@ == spec_type_str(self.project_type),
    {
        match self.project_type {
            ProjectType::Library => "lib".to_owned(),
            ProjectType::Application => "app".to_owned(),
        }
    }

    /// The command column: `command[:subcommand]`.
    pub fn command_display(&self) -> (r: String)
        ensures
            r@ == spec_command_display(self@),
    {
        match &self.subcommand {
            Some(s) => self.command.clone().concat(":").concat(s.as_str()),
            None => self.command.clone(),
        }
    }

    /// The line the picker displays for this entry.
    pub fn display_string(&self) -> (r: String)
        ensures
            r@ == spec_display(self@),
    {
        let tag = match &self.framework_name {
            Some(f) => self.project_type_display().concat(":").concat(f.as_str()),
            None => self.project_type_display(),
        };
        String::from_str("[").concat(tag.as_str()).concat("] ").concat(
            self.to_nx_command().as_str(),
        )
    }

    /// A field-for-field copy.
    pub fn duplicate(&self) -> (r: CommandEntry)
        ensures
            r@ == self@,
            r == *self,
    {
        CommandEntry {
            project_type: self.project_type,
            framework_name: match &self.framework_name {
                Some(f) => Some(f.clone()),
                None => None,
            },
            project_name: self.project_name.clone(),
            command: self.command.clone(),
            subcommand: match &self.subcommand {
                Some(s) => Some(s.clone()),
                None => None,
            },
        }
    }
}

/// The framework name a project's entries carry.
pub open spec fn spec_fw_name(p: ProjectView) -> Option<Seq<char>> {
    match p.framework {
        Some(f) => Some(f.name),
        None => None,
    }
}

/// The bare entry one task contributes.
pub open spec fn spec_bare_entry(p: ProjectView, command: Seq<char>) -> CommandEntryView {
    CommandEntryView {
        project_type: p.project_type,
        framework_name: spec_fw_name(p),
        project_name: p.name,
        command: command,
        subcommand: None,
    }
}

/// The variant entry one task/sub-variant pair contributes.
pub open spec fn spec_variant_entry(
    p: ProjectView,
    command: Seq<char>,
    sub: Seq<char>,
) -> CommandEntryView {
    CommandEntryView {
        project_type: p.project_type,
        framework_name: spec_fw_name(p),
        project_name: p.name,
        command: command,
        subcommand: Some(sub),
    }
}

/// What one task contributes: the bare command, then one entry per
/// sub-variant, in declaration order.
pub open spec fn spec_task_entries(p: ProjectView, t: TaskView) -> Seq<CommandEntryView> {
    seq![spec_bare_entry(p, t.command)] + t.subcommands.map(
        |i: int, s: Seq<char>| spec_variant_entry(p, t.command, s),
    )
}

/// What a project's task list contributes, task by task.
pub open spec fn spec_tasks_entries(p: ProjectView, ts: Seq<TaskView>) -> Seq<CommandEntryView>
    decreases ts.len(),
{
    if ts.len() == 0 {
        Seq::empty()
    } else {
        spec_tasks_entries(p, ts.drop_last()) + spec_task_entries(p, ts.last())
    }
}

/// What a matched framework contributes: one bare entry per generic
/// command.
pub open spec fn spec_framework_entries(p: ProjectView) -> Seq<CommandEntryView> {
    match p.framework {
        Some(f) => f.commands.map(|i: int, c: Seq<char>| spec_bare_entry(p, c)),
        None => Seq::empty(),
    }
}

/// Everything one project contributes, before deduplication.
pub open spec fn spec_project_entries(p: ProjectView) -> Seq<CommandEntryView> {
    spec_tasks_entries(p, p.tasks) + spec_framework_entries(p)
}

/// Everything a project list contributes, in discovery order, before
/// deduplication.
pub open spec fn spec_all_entries(ps: Seq<ProjectView>) -> Seq<CommandEntryView>
    decreases ps.len(),
{
    if ps.len() == 0 {
        Seq::empty()
    } else {
        spec_all_entries(ps.drop_last()) + spec_project_entries(ps.last())
    }
}

/// Law: a task with `k` sub-variants contributes exactly `k + 1` entries —
/// the bare command plus one per variant.
pub proof fn lemma_task_entry_count(p: ProjectView, t: TaskView)
    ensures
        spec_task_entries(p, t).len() == t.subcommands.len() + 1,
{
}

/// The list is strictly ascending in the canonical invocation string.
pub open spec fn spec_entries_sorted(s: Seq<CommandEntryView>) -> bool {
    forall|i: int, j: int|
        0 <= i < j < s.len() ==> lex_lt(spec_canon(#[trigger] s[i]), spec_canon(#[trigger] s[j]))
}

/// Some entry of `out` shares `e`'s canonical invocation string.
pub open spec fn spec_key_covered(out: Seq<CommandEntryView>, e: CommandEntryView) -> bool {
    exists|m: int| 0 <= m < out.len() && spec_canon(#[trigger] out[m]) == spec_canon(e)
}

/// `e` stands in `all`, and no earlier entry of `all` shares its canonical
/// invocation string: `e` is the first-built entry of its duplicate group.
pub open spec fn spec_first_occurrence(all: Seq<CommandEntryView>, e: CommandEntryView) -> bool {
    exists|k: int|
        0 <= k < all.len() && #[trigger] all[k] == e && (forall|k2: int|
            0 <= k2 < k ==> spec_canon(#[trigger] all[k2]) != spec_canon(e))
}

/// Law: a strictly sorted list holds no two entries with equal canonical
/// invocation strings.
pub proof fn lemma_sorted_no_duplicates(s: Seq<CommandEntryView>)
    requires
        spec_entries_sorted(s),
    ensures
        forall|i: int, j: int|
            0 <= i < j < s.len() ==> spec_canon(#[trigger] s[i]) != spec_canon(#[trigger] s[j]),
{
    assert forall|i: int, j: int|
        0 <= i < j < s.len() implies spec_canon(#[trigger] s[i]) != spec_canon(
        #[trigger] s[j],
    ) by {
        lemma_lex_lt_properties(spec_canon(s[i]), spec_canon(s[j]));
    }
}

/// Appends one entry for `command`, with or without a sub-variant.
fn push_entry(out: &mut Vec<CommandEntry>, p: &Project, command: &String, sub: Option<&String>)
    ensures
        final(out).deep_view() =~= old(out).deep_view().push(
            match sub {
                Some(s) => spec_variant_entry(p@, command@, s@),
                None => spec_bare_entry(p@, command@),
            },
        ),
{
    let framework_name = match &p.framework {
        Some(f) => Some(f.name.clone()),
        None => None,
    };
    let subcommand = match sub {
        Some(s) => Some(s.clone()),
        None => None,
    };
    out.push(
        CommandEntry {
            project_type: p.project_type,
            framework_name,
            project_name: p.name.clone(),
            command: command.clone(),
            subcommand,
        },
    );
}

/// Appends everything one project contributes: its tasks' entries, then its
/// framework's generic commands.
fn push_project_entries(out: &mut Vec<CommandEntry>, p: &Project)
    ensures
        final(out).deep_view() =~= old(out).deep_view() + spec_project_entries(p@),
{
    let ghost base = out.deep_view();
    let nt = p.tasks.len();
    let mut ti: usize = 0;
    while ti < nt
        invariant
            base == old(out).deep_view(),
            nt == p.tasks@.len(),
            ti <= nt,
            out.deep_view() =~= base + spec_tasks_entries(p@, p@.tasks.take(ti as int)),
        decreases nt - ti,
    {
        proof {
            assert(p@.tasks.take(ti + 1).drop_last() =~= p@.tasks.take(ti as int));
            assert(p@.tasks.take(ti + 1).last() == p@.tasks[ti as int]);
        }
        let t = &p.tasks[ti];
        push_entry(out, p, &t.command, None);
        let ns = t.subcommands.len();
        let mut si: usize = 0;
        while si < ns
            invariant
                base == old(out).deep_view(),
                nt == p.tasks@.len(),
                ti < nt,
                t == &p.tasks[ti as int],
                ns == t.subcommands@.len(),
                si <= ns,
                out.deep_view() =~= base + spec_tasks_entries(p@, p@.tasks.take(ti as int)) + seq![
                    spec_bare_entry(p@, t@.command),
                ] + t@.subcommands.take(si as int).map(
                    |i: int, s: Seq<char>| spec_variant_entry(p@, t@.command, s),
                ),
            decreases ns - si,
        {
            push_entry(out, p, &t.command, Some(&t.subcommands[si]));
            proof {
                let f = |i: int, s: Seq<char>| spec_variant_entry(p@, t@.command, s);
                assert(t@.subcommands.take(si + 1).map(f) =~= t@.subcommands.take(si as int).map(
                    f,
                ).push(spec_variant_entry(p@, t@.command, t@.subcommands[si as int])));
                assert(out.deep_view() =~= base + spec_tasks_entries(p@, p@.tasks.take(ti as int))
                    + seq![spec_bare_entry(p@, t@.command)] + t@.subcommands.take(si + 1).map(f));
            }
            si = si + 1;
        }
        proof {
            assert(t@.subcommands.take(ns as int) =~= t@.subcommands);
            assert(out.deep_view() =~= base + spec_tasks_entries(p@, p@.tasks.take(ti + 1)));
        }
        ti = ti + 1;
    }
    proof {
        assert(p@.tasks.take(nt as int) =~= p@.tasks);
    }
    match &p.framework {
        Some(f) => {
            let nc = f.commands.len();
            let mut ci: usize = 0;
            while ci < nc
                invariant
                    base == old(out).deep_view(),
                    p.framework matches Some(fr) && fr == *f,
                    nc == f.commands@.len(),
                    ci <= nc,
                    out.deep_view() =~= base + spec_tasks_entries(p@, p@.tasks)
                        + f@.commands.take(ci as int).map(
                        |i: int, c: Seq<char>| spec_bare_entry(p@, c),
                    ),
                decreases nc - ci,
            {
                push_entry(out, p, &f.commands[ci], None);
                proof {
                    let g = |i: int, c: Seq<char>| spec_bare_entry(p@, c);
                    assert(f@.commands.take(ci + 1).map(g) =~= f@.commands.take(ci as int).map(
                        g,
                    ).push(spec_bare_entry(p@, f@.commands[ci as int])));
                    assert(out.deep_view() =~= base + spec_tasks_entries(p@, p@.tasks)
                        + f@.commands.take(ci + 1).map(g));
                }
                ci = ci + 1;
            }
            proof {
                let g = |i: int, c: Seq<char>| spec_bare_entry(p@, c);
                assert(f@.commands.take(nc as int) =~= f@.commands);
                assert(spec_framework_entries(p@) == f@.commands.map(g));
                assert(out.deep_view() =~= base + spec_project_entries(p@));
            }
        },
        None => {
            proof {
                assert(spec_framework_entries(p@) =~= Seq::<CommandEntryView>::empty());
                assert(out.deep_view() =~= base + spec_project_entries(p@));
            }
        },
    }
}

/// Flattens the discovered projects into entries, in discovery order,
/// before deduplication.
pub fn flatten_projects(projects: &Vec<Project>) -> (r: Vec<CommandEntry>)
    ensures
        r.deep_view() =~= spec_all_entries(projects.deep_view()),
{
    let n = projects.len();
    let mut out: Vec<CommandEntry> = Vec::new();
    let mut i: usize = 0;
    while i < n
        invariant
            n == projects@.len(),
            i <= n,
            out.deep_view() =~= spec_all_entries(projects.deep_view().take(i as int)),
        decreases n - i,
    {
        proof {
            assert(projects.deep_view().take(i + 1).drop_last() =~= projects.deep_view().take(
                i as int,
            ));
            assert(projects.deep_view().take(i + 1).last() == projects.deep_view()[i as int]);
        }
        push_project_entries(&mut out, &projects[i]);
        proof {
            assert(out.deep_view() =~= spec_all_entries(projects.deep_view().take(i + 1)));
        }
        i = i + 1;
    }
    proof {
        assert(projects.deep_view().take(n as int) =~= projects.deep_view());
    }
    out
}

/// Deduplicates by the canonical invocation string, producing a strictly
/// sorted list in which each surviving entry is the first-built entry of its
/// duplicate group.
pub fn dedup_by_canon(flat: &Vec<CommandEntry>) -> (r: Vec<CommandEntry>)
    ensures
        spec_entries_sorted(r.deep_view()),
        forall|k: int|
            0 <= k < flat.deep_view().len() ==> spec_key_covered(
                r.deep_view(),
                #[trigger] flat.deep_view()[k],
            ),
        forall|m: int|
            0 <= m < r.deep_view().len() ==> spec_first_occurrence(
                flat.deep_view(),
                #[trigger] r.deep_view()[m],
            ),
{
    let ghost fv = flat.deep_view();
    let n = flat.len();
    let mut out: Vec<CommandEntry> = Vec::new();
    let mut k: usize = 0;
    while k < n
        invariant
            n == flat@.len(),
            fv == flat.deep_view(),
            k <= n,
            spec_entries_sorted(out.deep_view()),
            forall|p: int| 0 <= p < k ==> spec_key_covered(out.deep_view(), #[trigger] fv[p]),
            forall|m: int|
                0 <= m < out.deep_view().len() ==> spec_first_occurrence(
                    fv.take(k as int),
                    #[trigger] out.deep_view()[m],
                ),
        decreases n - k,
    {
        let key = flat[k].to_nx_command();
        let ghost keyv = spec_canon(fv[k as int]);
        proof {
            assert(fv[k as int] == flat@[k as int]@);
            assert(keyv == key@);
        }
        let nout = out.len();
        let ghost ov = out.deep_view();
        let mut j: usize = 0;
        while j < nout && str_lt(out[j].to_nx_command().as_str(), key.as_str())
            invariant
                nout == out@.len(),
                ov == out.deep_view(),
                keyv == key@,
                j <= nout,
                forall|j2: int| 0 <= j2 < j ==> lex_lt(spec_canon(#[trigger] ov[j2]), keyv),
            decreases nout - j,
        {
            proof {
                assert(ov[j as int] == out@[j as int]@);
            }
            j = j + 1;
        }
        proof {
            assert(j < nout ==> ov[j as int] == out@[j as int]@);
            assert(j < nout ==> !lex_lt(spec_canon(ov[j as int]), keyv));
        }
        let mut is_dup = false;
        if j < nout {
            let oj = out[j].to_nx_command();
            if str_eq(oj.as_str(), key.as_str()) {
                is_dup = true;
            }
        }
        if is_dup {
            proof {
                assert(spec_canon(ov[j as int]) == keyv);
                lemma_dedup_skip(fv, ov, k as int, j as int);
            }
        } else {
            let e = flat[k].duplicate();
            proof {
                assert(e@ == fv[k as int]);
            }
            out.insert(j, e);
            proof {
                ov.insert_ensures(j as int, fv[k as int]);
                let nv = out.deep_view();
                assert forall|i: int| 0 <= i < nv.len() implies nv[i] == ov.insert(
                    j as int,
                    fv[k as int],
                )[i] by {
                    assert(nv[i] == out@[i]@);
                    if i < j {
                        assert(out@[i] == out@.subrange(0, j as int).push(e)[i]);
                    } else if i == j {
                        assert(out@[i] == e);
                    } else {
                        assert(ov.insert(j as int, fv[k as int])[i] == ov[i - 1]);
                    }
                }
                assert(nv =~= ov.insert(j as int, fv[k as int]));
                lemma_dedup_insert(fv, ov, nv, k as int, j as int);
            }
        }
        k = k + 1;
    }
    proof {
        assert(fv.take(n as int) =~= fv);
    }
    out
}

/// When the key of the entry about to be folded in is already present at
/// position `j` of the kept list, nothing needs inserting: the key is
/// covered, and every kept entry stays the first of its group.
proof fn lemma_dedup_skip(fv: Seq<CommandEntryView>, ov: Seq<CommandEntryView>, k: int, j: int)
    requires
        0 <= k < fv.len(),
        0 <= j < ov.len(),
        spec_canon(ov[j]) == spec_canon(fv[k]),
        forall|m: int|
            0 <= m < ov.len() ==> spec_first_occurrence(fv.take(k), #[trigger] ov[m]),
    ensures
        spec_key_covered(ov, fv[k]),
        forall|m: int|
            0 <= m < ov.len() ==> spec_first_occurrence(fv.take(k + 1), #[trigger] ov[m]),
{
    assert(spec_key_covered(ov, fv[k]));
    assert forall|m: int| 0 <= m < ov.len() implies spec_first_occurrence(
        fv.take(k + 1),
        #[trigger] ov[m],
    ) by {
        lemma_first_occurrence_extend(fv, k, ov[m]);
    }
}

/// Folding a fresh key in at its sorted position keeps the list strictly
/// sorted, covers every key seen so far, and keeps every entry the first of
/// its group.
proof fn lemma_dedup_insert(
    fv: Seq<CommandEntryView>,
    ov: Seq<CommandEntryView>,
    nv: Seq<CommandEntryView>,
    k: int,
    j: int,
)
    requires
        0 <= k < fv.len(),
        0 <= j <= ov.len(),
        spec_entries_sorted(ov),
        forall|p: int| 0 <= p < k ==> spec_key_covered(ov, #[trigger] fv[p]),
        forall|m: int|
            0 <= m < ov.len() ==> spec_first_occurrence(fv.take(k), #[trigger] ov[m]),
        forall|j2: int| 0 <= j2 < j ==> lex_lt(spec_canon(#[trigger] ov[j2]), spec_canon(fv[k])),
        j < ov.len() ==> !lex_lt(spec_canon(ov[j]), spec_canon(fv[k])),
        j < ov.len() ==> spec_canon(ov[j]) != spec_canon(fv[k]),
        nv == ov.insert(j, fv[k]),
    ensures
        spec_entries_sorted(nv),
        forall|p: int| 0 <= p < k + 1 ==> spec_key_covered(nv, #[trigger] fv[p]),
        forall|m: int|
            0 <= m < nv.len() ==> spec_first_occurrence(fv.take(k + 1), #[trigger] nv[m]),
{
    let keyv = spec_canon(fv[k]);
    ov.insert_ensures(j, fv[k]);
    // every entry at or after j sorts strictly above the key
    if j < ov.len() {
        lemma_lex_lt_properties(spec_canon(ov[j]), keyv);
        assert(lex_lt(keyv, spec_canon(ov[j])));
    }
    assert forall|i: int| j <= i < ov.len() implies lex_lt(
        keyv,
        spec_canon(#[trigger] ov[i]),
    ) by {
        if i > j {
            assert(lex_lt(spec_canon(ov[j]), spec_canon(ov[i])));
            lemma_lex_lt_trans(keyv, spec_canon(ov[j]), spec_canon(ov[i]));
        }
    }
    // so no kept entry carries this key
    assert forall|m: int| 0 <= m < ov.len() implies spec_canon(#[trigger] ov[m]) != keyv by {
        if m < j {
            lemma_lex_lt_properties(spec_canon(ov[m]), keyv);
        } else {
            lemma_lex_lt_properties(keyv, spec_canon(ov[m]));
        }
    }
    // and no earlier entry of the build list carries it either
    assert forall|k2: int| 0 <= k2 < k implies spec_canon(#[trigger] fv[k2]) != keyv by {
        if spec_canon(fv[k2]) == keyv {
            assert(spec_key_covered(ov, fv[k2]));
            let m = choose|m: int|
                0 <= m < ov.len() && spec_canon(#[trigger] ov[m]) == spec_canon(fv[k2]);
            assert(spec_canon(ov[m]) != keyv);
        }
    }
    // the new list is strictly sorted
    assert forall|i1: int, i2: int|
        0 <= i1 < i2 < nv.len() implies lex_lt(
        spec_canon(#[trigger] nv[i1]),
        spec_canon(#[trigger] nv[i2]),
    ) by {
        if i1 < j && i2 < j {
        } else if i1 < j && i2 == j {
            assert(nv[i1] == ov[i1] && nv[i2] == fv[k]);
        } else if i1 < j && i2 > j {
            assert(nv[i1] == ov[i1] && nv[i2] == ov[i2 - 1]);
        } else if i1 == j {
            assert(nv[i1] == fv[k] && nv[i2] == ov[i2 - 1]);
        } else {
            assert(nv[i1] == ov[i1 - 1] && nv[i2] == ov[i2 - 1]);
        }
    }
    // every key seen so far is covered, the new one at position j
    assert forall|p: int| 0 <= p < k + 1 implies spec_key_covered(nv, #[trigger] fv[p]) by {
        if p < k {
            let m = choose|m: int|
                0 <= m < ov.len() && spec_canon(#[trigger] ov[m]) == spec_canon(fv[p]);
            if m < j {
                assert(nv[m] == ov[m]);
            } else {
                assert(nv[m + 1] == ov[m]);
            }
        } else {
            assert(nv[j] == fv[k]);
        }
    }
    // every kept entry is still the first of its group
    assert forall|m: int| 0 <= m < nv.len() implies spec_first_occurrence(
        fv.take(k + 1),
        #[trigger] nv[m],
    ) by {
        if m == j {
            assert(fv.take(k + 1)[k] == fv[k]);
            assert forall|k2: int| 0 <= k2 < k implies spec_canon(#[trigger] fv.take(k + 1)[k2])
                != spec_canon(fv[k]) by {
                assert(fv.take(k + 1)[k2] == fv[k2]);
            }
            assert(spec_first_occurrence(fv.take(k + 1), fv[k]));
        } else {
            let e2 = if m < j {
                ov[m]
            } else {
                ov[m - 1]
            };
            assert(nv[m] == e2);
            assert(spec_first_occurrence(fv.take(k), e2));
            lemma_first_occurrence_extend(fv, k, e2);
        }
    }
}

/// A first occurrence among the first `k` entries is still a first
/// occurrence among the first `k + 1`.
proof fn lemma_first_occurrence_extend(fv: Seq<CommandEntryView>, k: int, e: CommandEntryView)
    requires
        0 <= k < fv.len(),
        spec_first_occurrence(fv.take(k), e),
    ensures
        spec_first_occurrence(fv.take(k + 1), e),
{
    let kk = choose|kk: int|
        0 <= kk < fv.take(k).len() && #[trigger] fv.take(k)[kk] == e && (forall|k2: int|
            0 <= k2 < kk ==> spec_canon(#[trigger] fv.take(k)[k2]) != spec_canon(e));
    assert(fv.take(k + 1)[kk] == e);
    assert forall|k2: int| 0 <= k2 < kk implies spec_canon(#[trigger] fv.take(k + 1)[k2])
        != spec_canon(e) by {
        assert(fv.take(k + 1)[k2] == fv.take(k)[k2]);
    }
}

/// Builds the final command list: flatten, then deduplicate. The result is
/// strictly sorted by the canonical invocation string — so it holds no two
/// entries with equal strings — it covers every built entry's string, and
/// each surviving entry is the first-built of its duplicate group.
pub fn construct(projects: &Vec<Project>) -> (r: Vec<CommandEntry>)
    ensures
        spec_entries_sorted(r.deep_view()),
        forall|i: int, j: int|
            0 <= i < j < r.deep_view().len() ==> spec_canon(#[trigger] r.deep_view()[i])
                != spec_canon(#[trigger] r.deep_view()[j]),
        forall|k: int|
            0 <= k < spec_all_entries(projects.deep_view()).len() ==> spec_key_covered(
                r.deep_view(),
                #[trigger] spec_all_entries(projects.deep_view())[k],
            ),
        forall|m: int|
            0 <= m < r.deep_view().len() ==> spec_first_occurrence(
                spec_all_entries(projects.deep_view()),
                #[trigger] r.deep_view()[m],
            ),
{
    let flat = flatten_projects(projects);
    let r = dedup_by_canon(&flat);
    proof {
        lemma_sorted_no_duplicates(r.deep_view());
    }
    r
}

} // verus!
