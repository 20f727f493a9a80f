//! Directory-walk decisions: which entries of a directory listing are
//! skipped, descended into, or reported as files to search.
//!
//! Listing directories is left to the caller; for each entry it hands over
//! the entry's name, its full path, its path relative to the search root and
//! whether it is a directory, and gets back what to do with it.

use vstd::prelude::*;
use crate::text::{str_to_chars, str_to_string};
use crate::search::gitignore::{
    GitIgnore, SearchFilter, dir_allowed, file_allowed, ignored_by, normalize_seps, rule_views,
};

verus! {

/// How a search walks the directory tree.
#[derive(Debug, Clone)]
pub struct WalkConfig {
    /// Descend into subdirectories.
    pub recursive: bool,
    /// The file and directory masks.
    pub filter: SearchFilter,
    /// Honour `.gitignore`, `.ignore` and `.rgignore` files.
    pub apply_ignore_files: bool,
}

impl WalkConfig {
    /// The filter's rules compile.
    pub open spec fn wf(&self) -> bool {
        self.filter.wf()
    }
}

/// What to do with one entry of a directory listing.
#[derive(Debug, Clone, Copy, PartialEq, Eq, Structural)]
pub enum EntryAction {
    /// Leave the entry alone.
    Skip,
    /// Walk into the directory.
    Descend,
    /// Search the file.
    Emit,
}

/// The names of the ignore files read in each directory, in the order their
/// rules are applied.
pub fn ignore_file_names() -> (res: Vec<String>)
    ensures
        res@.len() == 3,
        res@[0]@ == seq!['.', 'g', 'i', 't', 'i', 'g', 'n', 'o', 'r', 'e'],
        res@[1]@ == seq!['.', 'i', 'g', 'n', 'o', 'r', 'e'],
        res@[2]@ == seq!['.', 'r', 'g', 'i', 'g', 'n', 'o', 'r', 'e'],
{
    let a = str_to_string(".gitignore");
    let b = str_to_string(".ignore");
    let c = str_to_string(".rgignore");
    proof {
        reveal_strlit(".gitignore");
        reveal_strlit(".ignore");
        reveal_strlit(".rgignore");
    }
    let mut v: Vec<String> = Vec::new();
    v.push(a);
    v.push(b);
    v.push(c);
    v
}

/// Every ignore set's rules compile.
pub open spec fn ignores_wf(ignores: Seq<GitIgnore>) -> bool {
    forall|i: int| 0 <= i < ignores.len() ==> (#[trigger] ignores[i]).wf()
}

/// Some ignore set ignores `path`.
pub open spec fn ignored_by_any(ignores: Seq<GitIgnore>, path: Seq<char>, is_dir: bool) -> bool {
    exists|i: int|
        0 <= i < ignores.len() && ignored_by(
            rule_views((#[trigger] ignores[i]).rules@),
            ignores[i].base_dir@,
            path,
            is_dir,
        )
}

/// Whether any of the ignore sets ignores `path`.
pub fn is_ignored(path: &str, is_dir: bool, ignores: &[GitIgnore]) -> (res: bool)
    requires
        ignores_wf(ignores@),
    ensures
        res == ignored_by_any(ignores@, path@, is_dir),
{
    let mut i: usize = 0;
    while i < ignores.len()
        invariant
            i <= ignores@.len(),
            ignores_wf(ignores@),
            forall|j: int|
                0 <= j < i ==> !ignored_by(
                    rule_views((#[trigger] ignores@[j]).rules@),
                    ignores@[j].base_dir@,
                    path@,
                    is_dir,
                ),
        decreases ignores@.len() - i,
    {
        assert(ignores@[i as int].wf());
        if ignores[i].is_ignored(path, is_dir) {
            return true;
        }
        i = i + 1;
    }
    false
}

/// The entries `.` and `..`.
pub open spec fn is_dot_entry(name: Seq<char>) -> bool {
    name == seq!['.'] || name == seq!['.', '.']
}

/// What the walk does with an entry: `.` and `..` and ignored entries are
/// skipped; a directory is entered when the walk is recursive and the
/// directory masks allow it; a file is searched when the file masks allow it.
pub open spec fn entry_action_spec(
    cfg: &WalkConfig,
    ignores: Seq<GitIgnore>,
    name: Seq<char>,
    path: Seq<char>,
    rel_path: Seq<char>,
    is_dir: bool,
) -> EntryAction {
    if is_dot_entry(name) || ignored_by_any(ignores, path, is_dir) {
        EntryAction::Skip
    } else if is_dir {
        if cfg.recursive && dir_allowed(rule_views(cfg.filter.exclude_rules@), normalize_seps(rel_path)) {
            EntryAction::Descend
        } else {
            EntryAction::Skip
        }
    } else if file_allowed(
        rule_views(cfg.filter.include_rules@),
        rule_views(cfg.filter.exclude_rules@),
        normalize_seps(rel_path),
    ) {
        EntryAction::Emit
    } else {
        EntryAction::Skip
    }
}

/// Decides what to do with the directory entry `name` (full path `path`,
/// `rel_path` relative to the search root).
pub fn entry_action(
    cfg: &WalkConfig,
    ignores: &[GitIgnore],
    name: &str,
    path: &str,
    rel_path: &str,
    is_dir: bool,
) -> (res: EntryAction)
    requires
        cfg.wf(),
        ignores_wf(ignores@),
    ensures
        res == entry_action_spec(cfg, ignores@, name@, path@, rel_path@, is_dir),
{
    let cs = str_to_chars(name);
    let dot = (cs.len() == 1 && cs[0] == '.') || (cs.len() == 2 && cs[0] == '.' && cs[1] == '.');
    proof {
        if cs@.len() == 1 && cs@[0] == '.' {
            assert(cs@ =~= seq!['.']);
        }
        if cs@.len() == 2 && cs@[0] == '.' && cs@[1] == '.' {
            assert(cs@ =~= seq!['.', '.']);
        }
    }
    if dot {
        return EntryAction::Skip;
    }
    if is_ignored(path, is_dir, ignores) {
        return EntryAction::Skip;
    }
    if is_dir {
        if cfg.recursive && cfg.filter.allow_dir(rel_path) {
            EntryAction::Descend
        } else {
            EntryAction::Skip
        }
    } else if cfg.filter.allow_file(rel_path) {
        EntryAction::Emit
    } else {
        EntryAction::Skip
    }
}

} // verus!
