//! The workspace scanner's decision core, as a worklist engine. The caller
//! owns the filesystem: it asks the engine which directory to visit next,
//! lists it, and hands the entries back. The engine decides, and is held to
//! it: a file is kept exactly when its base name is one of the targets, and
//! a directory is queued exactly when its base name is not the one ignored
//! name. Directories that cannot be listed are simply never handed back —
//! the scan is best-effort by design.

use vstd::prelude::*;

use crate::matcher::seq_contains_str;

verus! {

/// One directory entry as the filesystem showed it.
pub struct ScanEntry {
    pub path: String,
    pub base_name: String,
    pub is_dir: bool,
}

/// The scan state: directories still to visit, and matching files found so
/// far.
pub struct ScanEngine {
    pub pending: Vec<String>,
    pub found: Vec<String>,
}

/// The paths of the entries that are files whose base name is one of the
/// targets, in entry order.
pub open spec fn spec_matched_files(entries: Seq<ScanEntry>, targets: Seq<Seq<char>>) -> Seq<
    Seq<char>,
>
    decreases entries.len(),
{
    if entries.len() == 0 {
        Seq::empty()
    } else {
        let rest = spec_matched_files(entries.drop_last(), targets);
        if !entries.last().is_dir && seq_contains_str(targets, entries.last().base_name@) {
            rest.push(entries.last().path@)
        } else {
            rest
        }
    }
}

/// The paths of the entries that are directories not bearing the ignored
/// name, in entry order.
pub open spec fn spec_subdirs(entries: Seq<ScanEntry>, ignore: Seq<char>) -> Seq<Seq<char>>
    decreases entries.len(),
{
    if entries.len() == 0 {
        Seq::empty()
    } else {
        let rest = spec_subdirs(entries.drop_last(), ignore);
        if entries.last().is_dir && entries.last().base_name@ != ignore {
            rest.push(entries.last().path@)
        } else {
            rest
        }
    }
}

impl ScanEngine {
    /// A fresh scan, rooted at one directory.
    pub fn new(root: String) -> (r: ScanEngine)
        ensures
            r.pending.deep_view() =~= seq![root@],
            r.found@.len() == 0,
    {
        let mut pending: Vec<String> = Vec::new();
        pending.push(root);
        ScanEngine { pending, found: Vec::new() }
    }

    /// Takes one directory off the worklist, if any is left.
    pub fn next_dir(&mut self) -> (r: Option<String>)
        ensures
            final(self).found@ == old(self).found@,
            match r {
                None => old(self).pending@.len() == 0 && final(self).pending@ == old(
                    self,
                ).pending@,
                Some(d) => old(self).pending@.len() > 0 && d == old(self).pending@.last()
                    && final(self).pending@ =~= old(self).pending@.drop_last(),
            },
    {
        self.pending.pop()
    }

    /// Folds one listed directory into the scan: keep each matching file,
    /// queue each subdirectory that is not the ignored name, in entry order.
    pub fn record_dir(&mut self, entries: &Vec<ScanEntry>, targets: &Vec<String>, ignore: &str)
        ensures
            final(self).found.deep_view() =~= old(self).found.deep_view() + spec_matched_files(
                entries@,
                targets.deep_view(),
            ),
            final(self).pending.deep_view() =~= old(self).pending.deep_view() + spec_subdirs(
                entries@,
                ignore@,
            ),
    {
        let n = entries.len();
        let ghost found0 = self.found.deep_view();
        let ghost pending0 = self.pending.deep_view();
        let mut i: usize = 0;
        while i < n
            invariant
                n == entries@.len(),
                i <= n,
                found0 == old(self).found.deep_view(),
                pending0 == old(self).pending.deep_view(),
                self.found.deep_view() =~= found0 + spec_matched_files(
                    entries@.take(i as int),
                    targets.deep_view(),
                ),
                self.pending.deep_view() =~= pending0 + spec_subdirs(
                    entries@.take(i as int),
                    ignore@,
                ),
            decreases n - i,
        {
            proof {
                assert(entries@.take(i + 1).drop_last() =~= entries@.take(i as int));
                assert(entries@.take(i + 1).last() == entries@[i as int]);
            }
            let entry = &entries[i];
            if entry.is_dir {
                if !crate::strings::str_eq(entry.base_name.as_str(), ignore) {
                    let ghost prev = self.pending.deep_view();
                    self.pending.push(entry.path.clone());
                    proof {
                        assert(self.pending.deep_view() =~= prev.push(
                            entries@[i as int].path@,
                        ));
                    }
                }
            } else {
                if crate::matcher::contains_string(targets, entry.base_name.as_str()) {
                    let ghost prev = self.found.deep_view();
                    self.found.push(entry.path.clone());
                    proof {
                        assert(self.found.deep_view() =~= prev.push(entries@[i as int].path@));
                    }
                }
            }
            proof {
                assert(self.found.deep_view() =~= found0 + spec_matched_files(
                    entries@.take(i + 1),
                    targets.deep_view(),
                ));
                assert(self.pending.deep_view() =~= pending0 + spec_subdirs(
                    entries@.take(i + 1),
                    ignore@,
                ));
            }
            i = i + 1;
        }
        proof {
            assert(entries@.take(n as int) =~= entries@);
        }
    }
}

} // verus!
