//! Read targets: sets of paths to show, list or draw, and the single path
//! whose value goes to the clipboard. These resolve the targets and hand
//! back rendered text or values; printing and the clipboard itself are a
//! collaborator's job.

use vstd::prelude::*;
use crate::display::{display_list, display_tree, render_list, render_tree};
use crate::find::{resolve, segments_of, Error, MatchKind, RecordPath, Resolution};
use crate::record::{lookup_idx, Record, RecView};

verus! {

/// The value a path names for display or the clipboard: the item's value,
/// or — when the path names a group — the value of the group's default
/// item, if that is an item.
pub open spec fn default_target_value(v: RecView, path: Seq<char>, mk: MatchKind) -> Option<
    Seq<char>,
> {
    match resolve(v, segments_of(path), mk) {
        Resolution::Found(f) => if f is Item {
            Some(f.value())
        } else {
            match lookup_idx(f.members(), "password"@) {
                Some(i) => if f.members()[i] is Item {
                    Some(f.members()[i].value())
                } else {
                    None
                },
                None => None,
            }
        },
        _ => None,
    }
}

/// The rendering a path names, under the given renderer's spec.
pub open spec fn target_resolves(v: RecView, path: Seq<char>, mk: MatchKind) -> Option<RecView> {
    match resolve(v, segments_of(path), mk) {
        Resolution::Found(f) => Some(f),
        _ => None,
    }
}

/// Several paths to be shown, listed or drawn.
pub struct PrintTarget {
    paths: Vec<RecordPath>,
    mk: MatchKind,
}

/// A single path whose value goes to the primary clipboard, and for how
/// many seconds it stays there.
pub struct ClipTarget {
    path: RecordPath,
    mk: MatchKind,
    time: u64,
}

impl PrintTarget {
    pub closed spec fn spec_paths(&self) -> Seq<Seq<char>> {
        Seq::new(self.paths@.len(), |i: int| self.paths@[i]@)
    }

    pub closed spec fn spec_mk(&self) -> MatchKind {
        self.mk
    }

    pub fn new(paths: Vec<RecordPath>, mk: MatchKind) -> (r: Self)
        ensures
            r.spec_paths() == Seq::new(paths@.len(), |i: int| paths@[i]@),
            r.spec_mk() == mk,
    {
        PrintTarget { paths, mk }
    }

    /// The value each path names, in order: what showing the targets
    /// prints, one value per line.
    pub fn print_values(&self, data: &Record) -> (r: Vec<Result<String, Error>>)
        ensures
            r@.len() == self.spec_paths().len(),
            forall|i: int| 0 <= i < r@.len() ==> match #[trigger] r@[i] {
                Ok(s) => default_target_value(data@, self.spec_paths()[i], self.spec_mk())
                    == Some(s@),
                Err(_) => default_target_value(data@, self.spec_paths()[i], self.spec_mk())
                    is None,
            },
    {
        let mut out: Vec<Result<String, Error>> = Vec::new();
        let n: usize = self.paths.len();
        let mut i: usize = 0;
        while i < n
            invariant
                n == self.paths@.len(),
                n == self.spec_paths().len(),
                i <= n,
                out@.len() == i,
                forall|j: int| 0 <= j < i ==> match #[trigger] out@[j] {
                    Ok(s) => default_target_value(data@, self.spec_paths()[j], self.spec_mk())
                        == Some(s@),
                    Err(_) => default_target_value(data@, self.spec_paths()[j], self.spec_mk())
                        is None,
                },
            decreases n - i,
        {
            let p: &RecordPath = &self.paths[i];
            proof {
                assert(p@ == self.spec_paths()[i as int]);
            }
            match p.find_item_or_default_in(data, self.mk) {
                Ok(it) => {
                    out.push(Ok(it.value().clone()));
                },
                Err(e) => {
                    out.push(Err(e));
                },
            }
            i = i + 1;
        }
        out
    }

    /// The one-level listing each path names, in order.
    pub fn print_lists(&self, data: &Record) -> (r: Vec<Result<String, Error>>)
        ensures
            r@.len() == self.spec_paths().len(),
            forall|i: int| 0 <= i < r@.len() ==> match #[trigger] r@[i] {
                Ok(s) => target_resolves(data@, self.spec_paths()[i], self.spec_mk())
                    matches Some(f) && s@ == render_list(f),
                Err(_) => target_resolves(data@, self.spec_paths()[i], self.spec_mk()) is None,
            },
    {
        let mut out: Vec<Result<String, Error>> = Vec::new();
        let n: usize = self.paths.len();
        let mut i: usize = 0;
        while i < n
            invariant
                n == self.paths@.len(),
                n == self.spec_paths().len(),
                i <= n,
                out@.len() == i,
                forall|j: int| 0 <= j < i ==> match #[trigger] out@[j] {
                    Ok(s) => target_resolves(data@, self.spec_paths()[j], self.spec_mk())
                        matches Some(f) && s@ == render_list(f),
                    Err(_) => target_resolves(data@, self.spec_paths()[j], self.spec_mk())
                        is None,
                },
            decreases n - i,
        {
            let p: &RecordPath = &self.paths[i];
            proof {
                assert(p@ == self.spec_paths()[i as int]);
            }
            match p.find_in(data, self.mk) {
                Ok(rec) => {
                    out.push(Ok(display_list(rec)));
                },
                Err(e) => {
                    out.push(Err(e));
                },
            }
            i = i + 1;
        }
        out
    }

    /// The full tree rendering each path names, in order.
    pub fn print_trees(&self, data: &Record) -> (r: Vec<Result<String, Error>>)
        ensures
            r@.len() == self.spec_paths().len(),
            forall|i: int| 0 <= i < r@.len() ==> match #[trigger] r@[i] {
                Ok(s) => target_resolves(data@, self.spec_paths()[i], self.spec_mk())
                    matches Some(f) && s@ == render_tree(f),
                Err(_) => target_resolves(data@, self.spec_paths()[i], self.spec_mk()) is None,
            },
    {
        let mut out: Vec<Result<String, Error>> = Vec::new();
        let n: usize = self.paths.len();
        let mut i: usize = 0;
        while i < n
            invariant
                n == self.paths@.len(),
                n == self.spec_paths().len(),
                i <= n,
                out@.len() == i,
                forall|j: int| 0 <= j < i ==> match #[trigger] out@[j] {
                    Ok(s) => target_resolves(data@, self.spec_paths()[j], self.spec_mk())
                        matches Some(f) && s@ == render_tree(f),
                    Err(_) => target_resolves(data@, self.spec_paths()[j], self.spec_mk())
                        is None,
                },
            decreases n - i,
        {
            let p: &RecordPath = &self.paths[i];
            proof {
                assert(p@ == self.spec_paths()[i as int]);
            }
            match p.find_in(data, self.mk) {
                Ok(rec) => {
                    out.push(Ok(display_tree(rec)));
                },
                Err(e) => {
                    out.push(Err(e));
                },
            }
            i = i + 1;
        }
        out
    }
}

impl ClipTarget {
    pub closed spec fn spec_path(&self) -> Seq<char> {
        self.path@
    }

    pub closed spec fn spec_mk(&self) -> MatchKind {
        self.mk
    }

    pub closed spec fn spec_time(&self) -> u64 {
        self.time
    }

    pub fn new(path: RecordPath, mk: MatchKind, time: u64) -> (r: Self)
        ensures
            r.spec_path() == path@,
            r.spec_mk() == mk,
            r.spec_time() == time,
    {
        ClipTarget { path, mk, time }
    }

    /// Seconds the clipboard keeps the value.
    pub fn time(&self) -> (r: u64)
        ensures
            r == self.spec_time(),
    {
        self.time
    }

    /// The value the target names, to be held in the clipboard.
    pub fn lookup_value(&self, data: &Record) -> (r: Result<String, Error>)
        ensures
            r matches Ok(s) ==> default_target_value(data@, self.spec_path(), self.spec_mk())
                == Some(s@),
            r is Err ==> default_target_value(data@, self.spec_path(), self.spec_mk()) is None,
    {
        match self.path.find_item_or_default_in(data, self.mk) {
            Ok(it) => Ok(it.value().clone()),
            Err(e) => Err(e),
        }
    }
}

} // verus!
