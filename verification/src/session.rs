//! The decisions the application makes about an open repository: scan
//! options from the settings, whether flow mode applies, and the flow order.

use vstd::prelude::*;

use std::path::PathBuf;

use crate::config::{DependencyDirection, ProgressMode, UserConfig};
use crate::domain::content::{FileProgress, FileStatus, ImportEdge, RepoProgress};
use crate::domain::dependency::{
    insert_sorted_unique, order_files, order_ok, strictly_sorted, uses_flow_mode, views, FlowStep,
};
use crate::scan::extract::ExtractOptions;
use crate::scan::walk::WalkOptions;
use crate::text::{copy_string, str_eq};

verus! {

/// Application configuration: paths, session flags and user settings.
#[derive(Debug)]
pub struct AppConfig {
    pub cache_dir: PathBuf,
    pub db_path: PathBuf,
    pub refresh: bool,
    /// CLI `--no-fx` session override.
    pub no_fx: bool,
    pub user: UserConfig,
    pub config_path: PathBuf,
}

impl AppConfig {
    /// Effects run unless `--no-fx` was given or the settings turn them off.
    pub fn fx_enabled(&self) -> (b: bool)
        ensures
            b == (!self.no_fx && self.user.fx.enabled && self.user.fx.intensity
                != crate::config::FxIntensity::Off),
    {
        !self.no_fx && self.user.fx_active()
    }
}

/// Scan options from the user settings: fixed line and file limits, the
/// content filters, and a tab width of at least 1.
pub fn walk_options(user: &UserConfig) -> (o: WalkOptions)
    ensures
        o.max_line_cols == 200,
        o.max_file_lines == 5000,
        o.include_tests == user.content.include_tests,
        o.include_configs == user.content.include_configs,
        o.extract == (ExtractOptions {
            tab_width: if user.content.tab_width < 1 {
                1
            } else {
                user.content.tab_width
            },
            include_imports: user.content.include_imports,
            include_doc_comments: user.content.include_doc_comments,
            include_comments: user.content.include_comments,
        }),
{
    WalkOptions {
        max_line_cols: 200,
        max_file_lines: 5000,
        include_tests: user.content.include_tests,
        include_configs: user.content.include_configs,
        extract: ExtractOptions {
            tab_width: if user.content.tab_width < 1 {
                1
            } else {
                user.content.tab_width
            },
            include_imports: user.content.include_imports,
            include_doc_comments: user.content.include_doc_comments,
            include_comments: user.content.include_comments,
        },
    }
}

/// How many edges point at `path`.
pub open spec fn import_count(edges: Seq<ImportEdge>, path: Seq<char>) -> nat
    decreases edges.len(),
{
    if edges.len() == 0 {
        0
    } else {
        import_count(edges.drop_last(), path) + if edges.last().imported@ == path {
            1nat
        } else {
            0nat
        }
    }
}

/// `paths[i]` is imported, more often than every path before it and at least
/// as often as every path after it.
pub open spec fn is_most_imported(edges: Seq<ImportEdge>, paths: Seq<Seq<char>>, i: int) -> bool {
    &&& 0 <= i < paths.len()
    &&& import_count(edges, paths[i]) > 0
    &&& forall|j: int| 0 <= j < i ==> import_count(edges, #[trigger] paths[j]) < import_count(edges, paths[i])
    &&& forall|j: int| i < j < paths.len() ==> import_count(edges, #[trigger] paths[j]) <= import_count(
        edges,
        paths[i],
    )
}

/// The first of `paths` imported most often, if any is imported at all.
pub open spec fn most_imported_spec(edges: Seq<ImportEdge>, paths: Seq<Seq<char>>) -> Option<int> {
    if exists|i: int| is_most_imported(edges, paths, i) {
        Some(choose|i: int| is_most_imported(edges, paths, i))
    } else {
        None
    }
}

proof fn lemma_most_imported_unique(edges: Seq<ImportEdge>, paths: Seq<Seq<char>>, b: int)
    requires
        is_most_imported(edges, paths, b),
    ensures
        most_imported_spec(edges, paths) == Some(b),
{
    let c = choose|i: int| is_most_imported(edges, paths, i);
    assert(is_most_imported(edges, paths, c));
    if c < b {
        assert(import_count(edges, paths[c]) < import_count(edges, paths[b]));
    }
    if c > b {
        assert(import_count(edges, paths[b]) < import_count(edges, paths[c]));
    }
}

proof fn lemma_none_imported(edges: Seq<ImportEdge>, paths: Seq<Seq<char>>)
    requires
        forall|j: int| 0 <= j < paths.len() ==> import_count(edges, #[trigger] paths[j]) == 0,
    ensures
        most_imported_spec(edges, paths) is None,
{
    if exists|i: int| is_most_imported(edges, paths, i) {
        let i = choose|i: int| is_most_imported(edges, paths, i);
        assert(import_count(edges, paths[i]) == 0);
    }
}

fn count_imports(edges: &[ImportEdge], path: &str) -> (n: usize)
    ensures
        n == import_count(edges@, path@),
{
    let mut n: usize = 0;
    let mut i: usize = 0;
    while i < edges.len()
        invariant
            i <= edges@.len(),
            n == import_count(edges@.take(i as int), path@),
            n <= i,
        decreases edges.len() - i,
    {
        assert(edges@.take(i + 1).drop_last() =~= edges@.take(i as int));
        if str_eq(edges[i].imported.as_str(), path) {
            n += 1;
        }
        i += 1;
    }
    assert(edges@.take(edges@.len() as int) =~= edges@);
    n
}

/// The path imported most often (the first of several tied), if any is
/// imported at all.
pub fn most_imported_path(edges: &[ImportEdge], paths: &[String]) -> (r: Option<usize>)
    ensures
        match r {
            Some(i) => i < paths@.len() && most_imported_spec(edges@, views(paths@)) == Some(i as int),
            None => most_imported_spec(edges@, views(paths@)) is None,
        },
{
    let ghost pv = views(paths@);
    let mut best: Option<usize> = None;
    let mut best_count: usize = 0;
    let mut i: usize = 0;
    while i < paths.len()
        invariant
            i <= paths@.len(),
            pv == views(paths@),
            match best {
                Some(b) => {
                    &&& b < i
                    &&& best_count == import_count(edges@, pv[b as int]) > 0
                    &&& forall|j: int| 0 <= j < b ==> import_count(edges@, #[trigger] pv[j]) < best_count
                    &&& forall|j: int| b < j < i ==> import_count(edges@, #[trigger] pv[j]) <= best_count
                },
                None => best_count == 0 && forall|j: int|
                    0 <= j < i ==> import_count(edges@, #[trigger] pv[j]) == 0,
            },
        decreases paths.len() - i,
    {
        let count = count_imports(edges, paths[i].as_str());
        assert(count == import_count(edges@, pv[i as int]));
        if count > best_count {
            best = Some(i);
            best_count = count;
        }
        i += 1;
    }
    match best {
        Some(b) => {
            proof {
                lemma_most_imported_unique(edges@, pv, b as int);
            }
            Some(b)
        },
        None => {
            proof {
                lemma_none_imported(edges@, pv);
            }
            None
        },
    }
}

/// The typeable (not skipped) paths of a repository, sorted and without
/// repeats.
pub fn typeable_sorted_paths(progress: &RepoProgress) -> (r: Vec<String>)
    ensures
        strictly_sorted(views(r@)),
        forall|p: Seq<char>|
            views(r@).contains(p) <==> exists|i: int|
                0 <= i < progress.files@.len() && (#[trigger] progress.files@[i]).relative_path@ == p
                    && progress.files@[i].status_spec() != FileStatus::Skipped,
{
    let mut r: Vec<String> = Vec::new();
    let mut i: usize = 0;
    while i < progress.files.len()
        invariant
            i <= progress.files@.len(),
            strictly_sorted(views(r@)),
            forall|p: Seq<char>|
                views(r@).contains(p) <==> exists|k: int|
                    0 <= k < i && (#[trigger] progress.files@[k]).relative_path@ == p
                        && progress.files@[k].status_spec() != FileStatus::Skipped,
        decreases progress.files.len() - i,
    {
        let f = &progress.files[i];
        if f.derive_status() != FileStatus::Skipped {
            insert_sorted_unique(&mut r, f.relative_path.as_str());
        }
        i += 1;
    }
    r
}

/// Flow mode applies when the settings ask for it, imports were found, and
/// more than one file is typeable.
pub fn flow_mode_applies(mode: ProgressMode, edges: &[ImportEdge], progress: &RepoProgress) -> (b:
    bool)
    ensures
        b == (mode == ProgressMode::Flow && edges@.len() > 0 && non_skipped_count(progress.files@)
            > 1),
{
    if !uses_flow_mode(mode) || edges.len() == 0 {
        return false;
    }
    let mut n: usize = 0;
    let mut i: usize = 0;
    while i < progress.files.len()
        invariant
            i <= progress.files@.len(),
            n == non_skipped_count(progress.files@.take(i as int)),
            n <= i,
        decreases progress.files.len() - i,
    {
        assert(progress.files@.take(i + 1).drop_last() =~= progress.files@.take(i as int));
        if progress.files[i].derive_status() != FileStatus::Skipped {
            n += 1;
        }
        i += 1;
    }
    assert(progress.files@.take(progress.files@.len() as int) =~= progress.files@);
    n > 1
}

/// How many files are not skipped.
pub open spec fn non_skipped_count(files: Seq<FileProgress>) -> nat
    decreases files.len(),
{
    if files.len() == 0 {
        0
    } else {
        non_skipped_count(files.drop_last()) + if files.last().status_spec() != FileStatus::Skipped {
            1nat
        } else {
            0nat
        }
    }
}

/// The flow order of a repository: over its typeable paths, from the chosen
/// entry, else from the path imported most often.
pub fn dependency_order(
    progress: &RepoProgress,
    edges: &[ImportEdge],
    direction: DependencyDirection,
    entry_override: Option<&str>,
) -> (steps: Vec<FlowStep>)
    ensures
        exists|paths: Seq<String>|
            #![trigger views(paths)]
            {
                &&& strictly_sorted(views(paths))
                &&& (forall|p: Seq<char>|
                    views(paths).contains(p) <==> exists|i: int|
                        0 <= i < progress.files@.len()
                            && (#[trigger] progress.files@[i]).relative_path@ == p
                            && progress.files@[i].status_spec() != FileStatus::Skipped)
                &&& order_ok(
                    edges@,
                    match entry_override {
                        Some(e) => Some(e@),
                        None => match most_imported_spec(edges@, views(paths)) {
                            Some(k) => Some(views(paths)[k]),
                            None => None,
                        },
                    },
                    direction,
                    views(paths),
                    steps@,
                )
            },
{
    let paths = typeable_sorted_paths(progress);
    let entry: Option<String> = match entry_override {
        Some(e) => Some(e.to_owned()),
        None => match most_imported_path(edges, paths.as_slice()) {
            Some(k) => Some(copy_string(&paths[k])),
            None => None,
        },
    };
    let steps = match &entry {
        Some(e) => order_files(edges, Some(e.as_str()), direction, paths.as_slice()),
        None => order_files(edges, None, direction, paths.as_slice()),
    };
    assert(views(paths@) == views(paths@));
    steps
}

} // verus!
