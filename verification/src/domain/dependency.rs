//! Pure dependency-ordering logic.

use vstd::prelude::*;

use crate::config::{DependencyDirection, ProgressMode};
use crate::domain::content::{FileProgress, FileStatus, ImportEdge, RepoProgress};
use crate::text::{
    copy_string, lemma_insert_contains, lemma_push_contains, lemma_lex_asymmetric, lemma_lex_irreflexive, lemma_lex_total,
    lemma_lex_transitive, lex_lt, str_eq, str_less,
};

verus! {

/// How a flow step was reached from its importer.
#[derive(Debug, Clone, PartialEq, Eq)]
pub struct FlowVia {
    pub importer: String,
    pub line: usize,
    pub raw: String,
}

/// One file in a computed flow order.
#[derive(Debug, Clone, PartialEq, Eq)]
pub struct FlowStep {
    pub path: String,
    pub via: Option<FlowVia>,
    /// `false` = not reachable from the entry (appended in path order).
    pub reachable: bool,
}

/// Cached traversal of typeable files from an entry point.
///
/// A path is looked up at its last position in `steps`.
#[derive(Debug, Clone, PartialEq, Eq)]
pub struct FlowOrder {
    pub entry: String,
    pub steps: Vec<FlowStep>,
}

/// The last position of `path` among `steps`.
pub open spec fn last_index_of(steps: Seq<FlowStep>, path: Seq<char>) -> Option<int>
    decreases steps.len(),
{
    if steps.len() == 0 {
        None
    } else if steps.last().path@ == path {
        Some(steps.len() - 1)
    } else {
        last_index_of(steps.drop_last(), path)
    }
}

pub proof fn lemma_last_index_of(steps: Seq<FlowStep>, path: Seq<char>)
    ensures
        match last_index_of(steps, path) {
            Some(i) => 0 <= i < steps.len() && steps[i].path@ == path,
            None => forall|i: int| 0 <= i < steps.len() ==> steps[i].path@ != path,
        },
    decreases steps.len(),
{
    if steps.len() > 0 && steps.last().path@ != path {
        lemma_last_index_of(steps.drop_last(), path);
        assert forall|i: int| 0 <= i < steps.len() - 1 implies steps[i] == steps.drop_last()[i] by {}
    }
}

/// Number of steps reachable from the entry.
pub open spec fn count_reachable(steps: Seq<FlowStep>) -> nat
    decreases steps.len(),
{
    if steps.len() == 0 {
        0
    } else {
        count_reachable(steps.drop_last()) + if steps.last().reachable {
            1nat
        } else {
            0nat
        }
    }
}

/// Some file at `path` has effective status `status`.
pub open spec fn file_has_status(
    files: Seq<FileProgress>,
    path: Seq<char>,
    status: FileStatus,
) -> bool {
    exists|j: int|
        0 <= j < files.len() && #[trigger] files[j].relative_path@ == path
            && files[j].status_spec() == status
}

/// Number of reachable steps whose file is done.
pub open spec fn count_reachable_done(steps: Seq<FlowStep>, files: Seq<FileProgress>) -> nat
    decreases steps.len(),
{
    if steps.len() == 0 {
        0
    } else {
        count_reachable_done(steps.drop_last(), files) + if steps.last().reachable
            && file_has_status(files, steps.last().path@, FileStatus::Done) {
            1nat
        } else {
            0nat
        }
    }
}

fn any_file_with_status(files: &Vec<FileProgress>, path: &str, status: FileStatus) -> (r: bool)
    ensures
        r == file_has_status(files@, path@, status),
{
    let mut j: usize = 0;
    while j < files.len()
        invariant
            j <= files@.len(),
            forall|k: int|
                0 <= k < j ==> !(#[trigger] files@[k].relative_path@ == path@ && files@[k].status_spec()
                    == status),
        decreases files.len() - j,
    {
        if str_eq(files[j].relative_path.as_str(), path) && files[j].derive_status() == status {
            return true;
        }
        j += 1;
    }
    false
}

impl FlowOrder {
    pub fn new(entry: String, steps: Vec<FlowStep>) -> (o: Self)
        ensures
            o.entry == entry,
            o.steps == steps,
    {
        FlowOrder { entry, steps }
    }

    fn index_of(&self, path: &str) -> (r: Option<usize>)
        ensures
            r is Some <==> last_index_of(self.steps@, path@) is Some,
            r is Some ==> r.unwrap() < self.steps@.len() && last_index_of(self.steps@, path@)
                == Some(r.unwrap() as int),
    {
        proof {
            lemma_last_index_of(self.steps@, path@);
        }
        let mut i = self.steps.len();
        assert(self.steps@.take(i as int) =~= self.steps@);
        while i > 0
            invariant
                i <= self.steps@.len(),
                last_index_of(self.steps@, path@) == last_index_of(self.steps@.take(i as int), path@),
            decreases i,
        {
            assert(self.steps@.take(i as int).drop_last() =~= self.steps@.take(i - 1));
            if str_eq(self.steps[i - 1].path.as_str(), path) {
                return Some(i - 1);
            }
            i -= 1;
        }
        None
    }

    /// 1-based index in the full order, only for reachable files.
    pub fn step_number(&self, path: &str) -> (r: Option<usize>)
        ensures
            match last_index_of(self.steps@, path@) {
                Some(i) => r == if self.steps@[i].reachable {
                    Some((i + 1) as usize)
                } else {
                    None
                },
                None => r is None,
            },
    {
        proof {
            lemma_last_index_of(self.steps@, path@);
        }
        match self.index_of(path) {
            Some(i) => if self.steps[i].reachable {
                assert(i < self.steps.len());
                Some(i + 1)
            } else {
                None
            },
            None => None,
        }
    }

    pub fn via(&self, path: &str) -> (r: Option<&FlowVia>)
        ensures
            match last_index_of(self.steps@, path@) {
                Some(i) => r == match self.steps@[i].via {
                    Some(v) => Some(&v),
                    None => None::<&FlowVia>,
                },
                None => r is None,
            },
    {
        proof {
            lemma_last_index_of(self.steps@, path@);
        }
        match self.index_of(path) {
            Some(i) => match &self.steps[i].via {
                Some(v) => Some(v),
                None => None,
            },
            None => None,
        }
    }

    pub fn is_reachable(&self, path: &str) -> (r: Option<bool>)
        ensures
            match last_index_of(self.steps@, path@) {
                Some(i) => r == Some(self.steps@[i].reachable),
                None => r is None,
            },
    {
        proof {
            lemma_last_index_of(self.steps@, path@);
        }
        match self.index_of(path) {
            Some(i) => Some(self.steps[i].reachable),
            None => None,
        }
    }

    pub fn reachable_total(&self) -> (n: usize)
        ensures
            n == count_reachable(self.steps@),
    {
        let mut n: usize = 0;
        let mut i: usize = 0;
        while i < self.steps.len()
            invariant
                i <= self.steps@.len(),
                n == count_reachable(self.steps@.take(i as int)),
                n <= i,
            decreases self.steps.len() - i,
        {
            assert(self.steps@.take(i + 1).drop_last() =~= self.steps@.take(i as int));
            if self.steps[i].reachable {
                n += 1;
            }
            i += 1;
        }
        assert(self.steps@.take(self.steps@.len() as int) =~= self.steps@);
        n
    }

    pub fn reachable_done(&self, progress: &RepoProgress) -> (n: usize)
        ensures
            n == count_reachable_done(self.steps@, progress.files@),
    {
        let mut n: usize = 0;
        let mut i: usize = 0;
        while i < self.steps.len()
            invariant
                i <= self.steps@.len(),
                n == count_reachable_done(self.steps@.take(i as int), progress.files@),
                n <= i,
            decreases self.steps.len() - i,
        {
            assert(self.steps@.take(i + 1).drop_last() =~= self.steps@.take(i as int));
            let step = &self.steps[i];
            if step.reachable && any_file_with_status(
                &progress.files,
                step.path.as_str(),
                FileStatus::Done,
            ) {
                n += 1;
            }
            i += 1;
        }
        assert(self.steps@.take(self.steps@.len() as int) =~= self.steps@);
        n
    }

    /// First incomplete file in flow order (including unreachable tail).
    pub fn next_step(&self, progress: &RepoProgress) -> (r: Option<&FlowStep>)
        ensures
            match r {
                Some(s) => exists|i: int|
                    0 <= i < self.steps@.len() && self.steps@[i] == *s && file_has_status(
                        progress.files@,
                        self.steps@[i].path@,
                        FileStatus::Todo,
                    ) && forall|j: int|
                        0 <= j < i ==> !#[trigger] file_has_status(
                            progress.files@,
                            self.steps@[j].path@,
                            FileStatus::Todo,
                        ),
                None => forall|i: int|
                    0 <= i < self.steps@.len() ==> !#[trigger] file_has_status(
                        progress.files@,
                        self.steps@[i].path@,
                        FileStatus::Todo,
                    ),
            },
    {
        let mut i: usize = 0;
        while i < self.steps.len()
            invariant
                i <= self.steps@.len(),
                forall|j: int|
                    0 <= j < i ==> !#[trigger] file_has_status(
                        progress.files@,
                        self.steps@[j].path@,
                        FileStatus::Todo,
                    ),
            decreases self.steps.len() - i,
        {
            if any_file_with_status(&progress.files, self.steps[i].path.as_str(), FileStatus::Todo) {
                return Some(&self.steps[i]);
            }
            i += 1;
        }
        None
    }
}

/// Whether the configured progress mode follows import flow.
pub fn uses_flow_mode(mode: ProgressMode) -> (b: bool)
    ensures
        b == (mode == ProgressMode::Flow),
{
    mode == ProgressMode::Flow
}

/// The text of each string.
pub open spec fn views(s: Seq<String>) -> Seq<Seq<char>> {
    s.map_values(|x: String| x@)
}

/// Strictly increasing in lexicographic order.
pub open spec fn strictly_sorted(s: Seq<Seq<char>>) -> bool {
    forall|i: int, j: int| 0 <= i < j < s.len() ==> lex_lt(s[i], s[j])
}

/// The paths of a list of steps.
pub open spec fn step_paths(steps: Seq<FlowStep>) -> Seq<Seq<char>> {
    steps.map_values(|s: FlowStep| s.path@)
}

/// Add `x` to a strictly sorted list of paths, unless it is already there.
#[verifier::spinoff_prover]
pub fn insert_sorted_unique(out: &mut Vec<String>, x: &str)
    requires
        strictly_sorted(views(old(out)@)),
    ensures
        strictly_sorted(views(final(out)@)),
        forall|p: Seq<char>|
            views(final(out)@).contains(p) <==> (views(old(out)@).contains(p) || p == x@),
{
    let ghost old_out = views(out@);
    assert(old_out == views(old(out)@));
    let mut j: usize = 0;
    while j < out.len() && str_less(out[j].as_str(), x)
        invariant
            j <= out@.len(),
            views(out@) == old_out,
            forall|i: int| 0 <= i < j ==> lex_lt(#[trigger] old_out[i], x@),
        decreases out.len() - j,
    {
        j += 1;
    }
    if j < out.len() && str_eq(out[j].as_str(), x) {
        assert(old_out[j as int] == x@);
        assert forall|p: Seq<char>| views(out@).contains(p) <==> (old_out.contains(p) || p == x@) by {
            if p == x@ {
                assert(views(out@)[j as int] == p);
            }
        }
    } else {
        if j < out.len() {
            proof {
                lemma_lex_total(old_out[j as int], x@);
            }
            assert(lex_lt(x@, old_out[j as int]));
        }
        out.insert(j, x.to_owned());
        let ghost new_out = views(out@);
        assert(new_out =~= old_out.insert(j as int, x@));
        assert forall|a: int, b: int| 0 <= a < b < new_out.len() implies lex_lt(
            new_out[a],
            new_out[b],
        ) by {
            if b < j {
            } else if b == j {
                assert(new_out[a] == old_out[a]);
            } else if a < j {
                assert(new_out[a] == old_out[a]);
                assert(new_out[b] == old_out[b - 1]);
            } else if a == j {
                assert(new_out[b] == old_out[b - 1]);
                if b - 1 > j {
                    lemma_lex_transitive(x@, old_out[j as int], old_out[b - 1]);
                }
            } else {
                assert(new_out[a] == old_out[a - 1]);
                assert(new_out[b] == old_out[b - 1]);
            }
        }
        assert forall|p: Seq<char>| views(out@).contains(p) <==> (old_out.contains(p) || p == x@) by {
            lemma_insert_contains(old_out, j as int, x@, p);
            assert(views(out@) == new_out);
        }
    }
}

/// Distinct typeable paths, sorted.
fn sorted_unique_paths(typeable: &[String]) -> (out: Vec<String>)
    ensures
        strictly_sorted(views(out@)),
        forall|p: Seq<char>| views(out@).contains(p) <==> views(typeable@).contains(p),
{
    let mut out: Vec<String> = Vec::new();
    let mut k: usize = 0;
    while k < typeable.len()
        invariant
            k <= typeable@.len(),
            strictly_sorted(views(out@)),
            forall|p: Seq<char>|
                views(out@).contains(p) <==> views(typeable@.take(k as int)).contains(p),
        decreases typeable.len() - k,
    {
        let x = &typeable[k];
        insert_sorted_unique(&mut out, x.as_str());
        assert(views(typeable@.take(k + 1)) =~= views(typeable@.take(k as int)).push(x@));
        assert forall|p: Seq<char>| views(out@).contains(p) <==> views(typeable@.take(k + 1)).contains(
            p,
        ) by {
            lemma_push_contains(views(typeable@.take(k as int)), x@, p);
        }
        k += 1;
    }
    assert(typeable@.take(typeable@.len() as int) =~= typeable@);
    out
}

/// Position of `s` among `paths`.
fn position_in(paths: &Vec<String>, s: &str) -> (r: Option<usize>)
    ensures
        match r {
            Some(i) => i < paths@.len() && paths@[i as int]@ == s@,
            None => !views(paths@).contains(s@),
        },
{
    let mut i: usize = 0;
    while i < paths.len()
        invariant
            i <= paths@.len(),
            forall|j: int| 0 <= j < i ==> paths@[j]@ != s@,
        decreases paths.len() - i,
    {
        if str_eq(paths[i].as_str(), s) {
            return Some(i);
        }
        i += 1;
    }
    assert(!views(paths@).contains(s@)) by {
        if views(paths@).contains(s@) {
            let vp = views(paths@);
            let q = choose|q: int| 0 <= q < vp.len() && vp[q] == s@;
            assert(paths@[q]@ == s@);
        }
    }
    None
}

/// The first-use line of an edge as a sort key; an unused import sorts last.
pub open spec fn use_key(e: ImportEdge) -> int {
    match e.first_use_line {
        Some(l) => l as int,
        None => usize::MAX as int,
    }
}

/// Order of import edges: by first use (unused last), then declaration line,
/// then target path.
pub open spec fn edge_key_lt(a: ImportEdge, b: ImportEdge) -> bool {
    if use_key(a) != use_key(b) {
        use_key(a) < use_key(b)
    } else if a.decl_line != b.decl_line {
        a.decl_line < b.decl_line
    } else {
        lex_lt(a.imported@, b.imported@)
    }
}

/// Sort key of an import edge: first use (unused last), declaration line, target.
fn edge_key_less(a: &ImportEdge, b: &ImportEdge) -> (r: bool)
    ensures
        r == edge_key_lt(*a, *b),
{
    let ua = match a.first_use_line {
        Some(l) => l,
        None => usize::MAX,
    };
    let ub = match b.first_use_line {
        Some(l) => l,
        None => usize::MAX,
    };
    if ua != ub {
        return ua < ub;
    }
    if a.decl_line != b.decl_line {
        return a.decl_line < b.decl_line;
    }
    str_less(a.imported.as_str(), b.imported.as_str())
}

/// The graph of imports among the typeable paths, by index.
pub open spec fn graph_ok(
    paths: Seq<String>,
    edges: Seq<ImportEdge>,
    from: Seq<Option<usize>>,
    to: Seq<Option<usize>>,
) -> bool {
    &&& from.len() == edges.len()
    &&& to.len() == edges.len()
    &&& paths.len() <= usize::MAX
    &&& edges.len() <= usize::MAX
    &&& forall|k: int|
        0 <= k < edges.len() ==> match #[trigger] from[k] {
            Some(i) => i < paths.len() && paths[i as int]@ == edges[k].importer@,
            None => !views(paths).contains(edges[k].importer@),
        }
    &&& forall|k: int|
        0 <= k < edges.len() ==> match #[trigger] to[k] {
            Some(i) => i < paths.len() && paths[i as int]@ == edges[k].imported@,
            None => !views(paths).contains(edges[k].imported@),
        }
}

/// Edge `k` leads from node `u` to a typeable node.
pub open spec fn edge_from(from: Seq<Option<usize>>, to: Seq<Option<usize>>, k: int, u: int) -> bool {
    from[k] == Some(u as usize) && to[k] is Some
}

/// The first position at or after `j` in `kids` whose edge sorts after edge `k`
/// (the end when there is none): where edge `k` goes among them.
pub open spec fn insert_pos(edges: Seq<ImportEdge>, kids: Seq<usize>, k: int, j: int) -> int
    decreases kids.len() - j,
{
    if j < 0 || j >= kids.len() {
        kids.len() as int
    } else if edge_key_lt(edges[k], edges[kids[j] as int]) {
        j
    } else {
        insert_pos(edges, kids, k, j + 1)
    }
}

/// The imports of node `u` among the first `k` edges, each placed after the
/// earlier ones that do not sort after it (a stable sort by `edge_key_lt`).
pub open spec fn children_upto(
    edges: Seq<ImportEdge>,
    from: Seq<Option<usize>>,
    to: Seq<Option<usize>>,
    u: usize,
    k: nat,
) -> Seq<usize>
    decreases k,
{
    if k == 0 {
        Seq::empty()
    } else {
        let prev = children_upto(edges, from, to, u, (k - 1) as nat);
        if edge_from(from, to, k - 1, u as int) {
            prev.insert(insert_pos(edges, prev, k - 1, 0), (k - 1) as usize)
        } else {
            prev
        }
    }
}

/// The imports of node `u`, in the order they are followed.
pub open spec fn children_spec(
    edges: Seq<ImportEdge>,
    from: Seq<Option<usize>>,
    to: Seq<Option<usize>>,
    u: usize,
) -> Seq<usize> {
    children_upto(edges, from, to, u, edges.len())
}

/// The imports of node `u`, ordered by first use, then declaration line, then target.
fn children_of(
    u: usize,
    edges: &[ImportEdge],
    from: &Vec<Option<usize>>,
    to: &Vec<Option<usize>>,
) -> (kids: Vec<usize>)
    requires
        from@.len() == edges@.len(),
        to@.len() == edges@.len(),
    ensures
        forall|t: int|
            0 <= t < kids@.len() ==> kids@[t] < edges@.len() && edge_from(
                from@,
                to@,
                kids@[t] as int,
                u as int,
            ),
        forall|k: int|
            0 <= k < edges@.len() && edge_from(from@, to@, k, u as int) ==> kids@.contains(
                k as usize,
            ),
        kids@ == children_spec(edges@, from@, to@, u),
{
    let mut kids: Vec<usize> = Vec::new();
    let mut k: usize = 0;
    while k < edges.len()
        invariant
            k <= edges@.len(),
            from@.len() == edges@.len(),
            to@.len() == edges@.len(),
            forall|t: int|
                0 <= t < kids@.len() ==> kids@[t] < k && edge_from(
                    from@,
                    to@,
                    kids@[t] as int,
                    u as int,
                ),
            forall|q: int|
                0 <= q < k && edge_from(from@, to@, q, u as int) ==> kids@.contains(q as usize),
            kids@ == children_upto(edges@, from@, to@, u, k as nat),
        decreases edges.len() - k,
    {
        if from[k] == Some(u) && to[k].is_some() {
            let mut j: usize = 0;
            while j < kids.len() && !edge_key_less(&edges[k], &edges[kids[j]])
                invariant
                    j <= kids@.len(),
                    k < edges@.len(),
                    forall|t: int| 0 <= t < kids@.len() ==> kids@[t] < k,
                    insert_pos(edges@, kids@, k as int, j as int) == insert_pos(edges@, kids@, k as int, 0),
                decreases kids.len() - j,
            {
                j += 1;
            }
            assert(insert_pos(edges@, kids@, k as int, j as int) == j);
            let ghost before = kids@;
            kids.insert(j, k);
            assert forall|q: int|
                0 <= q < k + 1 && edge_from(from@, to@, q, u as int) implies kids@.contains(
                q as usize,
            ) by {
                if q == k {
                    assert(kids@[j as int] == k);
                } else {
                    let t = choose|t: int| 0 <= t < before.len() && before[t] == q as usize;
                    if t < j {
                        assert(kids@[t] == q as usize);
                    } else {
                        assert(kids@[t + 1] == q as usize);
                    }
                }
            }
        } else {
            assert forall|q: int|
                0 <= q < k + 1 && edge_from(from@, to@, q, u as int) implies kids@.contains(
                q as usize,
            ) by {
                if q == k {
                    assert(from@[q] == from@[k as int]);
                }
            }
        }
        k += 1;
    }
    kids
}

/// Number of nodes not yet visited.
pub open spec fn unvisited(v: Seq<bool>) -> nat
    decreases v.len(),
{
    if v.len() == 0 {
        0
    } else {
        unvisited(v.drop_last()) + if v.last() {
            0nat
        } else {
            1nat
        }
    }
}

proof fn lemma_unvisited_at_most_len(a: Seq<bool>)
    ensures
        unvisited(a) <= a.len(),
    decreases a.len(),
{
    if a.len() > 0 {
        lemma_unvisited_at_most_len(a.drop_last());
    }
}

proof fn lemma_unvisited_mono(a: Seq<bool>, b: Seq<bool>)
    requires
        a.len() == b.len(),
        forall|i: int| 0 <= i < a.len() && a[i] ==> b[i],
    ensures
        unvisited(b) <= unvisited(a),
    decreases a.len(),
{
    if a.len() > 0 {
        lemma_unvisited_mono(a.drop_last(), b.drop_last());
    }
}

proof fn lemma_unvisited_mark(a: Seq<bool>, u: int)
    requires
        0 <= u < a.len(),
        !a[u],
    ensures
        unvisited(a.update(u, true)) + 1 == unvisited(a),
    decreases a.len(),
{
    if u < a.len() - 1 {
        assert(a.update(u, true).drop_last() =~= a.drop_last().update(u, true));
        lemma_unvisited_mark(a.drop_last(), u);
    } else {
        assert(a.update(u, true).drop_last() =~= a.drop_last());
    }
}

/// The via of a step names an import edge into it from a visited node.
pub open spec fn via_ok(
    via: Option<FlowVia>,
    target: Seq<char>,
    paths: Seq<String>,
    edges: Seq<ImportEdge>,
    visited: Seq<bool>,
) -> bool {
    match via {
        None => true,
        Some(v) => (exists|k: int|
            0 <= k < edges.len() && #[trigger] edges[k].importer@ == v.importer@
                && edges[k].imported@ == target && edges[k].decl_line == v.line && edges[k].raw@
                == v.raw@) && (exists|w: int|
            0 <= w < paths.len() && visited[w] && #[trigger] paths[w]@ == v.importer@),
    }
}

/// The traversal state: visited nodes, the order so far and its steps.
pub open spec fn walk_ok(
    paths: Seq<String>,
    edges: Seq<ImportEdge>,
    root: int,
    visited: Seq<bool>,
    order: Seq<usize>,
    steps: Seq<FlowStep>,
) -> bool {
    &&& visited.len() == paths.len()
    &&& order.len() == steps.len()
    &&& order.no_duplicates()
    &&& forall|p: int|
        0 <= p < order.len() ==> #[trigger] order[p] < paths.len() && visited[order[p] as int]
            && steps[p].path@ == paths[order[p] as int]@ && steps[p].reachable && via_ok(
            steps[p].via,
            steps[p].path@,
            paths,
            edges,
            visited,
        ) && ((steps[p].via is None) ==> order[p] == root)
}

/// Every visited node outside `active` has all its imports visited.
pub open spec fn closed(
    from: Seq<Option<usize>>,
    to: Seq<Option<usize>>,
    visited: Seq<bool>,
    active: Set<int>,
) -> bool {
    forall|v: int, k: int|
        0 <= v < visited.len() && visited[v] && !active.contains(v) && 0 <= k < from.len()
            && #[trigger] edge_from(from, to, k, v) ==> visited[to[k].unwrap() as int]
}

proof fn lemma_via_ok_mono(
    via: Option<FlowVia>,
    target: Seq<char>,
    paths: Seq<String>,
    edges: Seq<ImportEdge>,
    a: Seq<bool>,
    b: Seq<bool>,
)
    requires
        via_ok(via, target, paths, edges, a),
        a.len() == paths.len(),
        a.len() == b.len(),
        forall|i: int| 0 <= i < a.len() && a[i] ==> b[i],
    ensures
        via_ok(via, target, paths, edges, b),
{
    if let Some(v) = via {
        let w = choose|w: int| 0 <= w < paths.len() && a[w] && #[trigger] paths[w]@ == v.importer@;
        assert(b[w]);
    }
}

proof fn lemma_walk_ok_mono(
    paths: Seq<String>,
    edges: Seq<ImportEdge>,
    root: int,
    a: Seq<bool>,
    b: Seq<bool>,
    order: Seq<usize>,
    steps: Seq<FlowStep>,
)
    requires
        walk_ok(paths, edges, root, a, order, steps),
        a.len() == paths.len(),
        a.len() == b.len(),
        forall|i: int| 0 <= i < a.len() && a[i] ==> b[i],
    ensures
        walk_ok(paths, edges, root, b, order, steps),
{
    assert forall|p: int| 0 <= p < order.len() implies via_ok(
        steps[p].via,
        steps[p].path@,
        paths,
        edges,
        b,
    ) by {
        assert(order[p] < paths.len());
        lemma_via_ok_mono(steps[p].via, steps[p].path@, paths, edges, a, b);
    }
}

/// `v` occurs in `s` at or after position `from`.
pub open spec fn appears_in(s: Seq<usize>, from: int, v: usize) -> bool {
    exists|p: int| from <= p < s.len() && #[trigger] s[p] == v
}

proof fn lemma_appears_split(s: Seq<usize>, t: Seq<usize>, a: int, v: usize)
    requires
        0 <= a <= s.len() <= t.len(),
        t.take(s.len() as int) == s,
    ensures
        appears_in(t, a, v) <==> (appears_in(s, a, v) || appears_in(t, s.len() as int, v)),
{
    if appears_in(s, a, v) {
        let p = choose|p: int| a <= p < s.len() && #[trigger] s[p] == v;
        assert(t.take(s.len() as int)[p] == t[p]);
        assert(t[p] == v);
    }
    if appears_in(t, a, v) && !appears_in(t, s.len() as int, v) {
        let p = choose|p: int| a <= p < t.len() && #[trigger] t[p] == v;
        assert(t.take(s.len() as int)[p] == t[p]);
        assert(s[p] == v);
    }
}

proof fn lemma_appears_push(s: Seq<usize>, a: int, x: usize, v: usize)
    requires
        0 <= a <= s.len(),
    ensures
        appears_in(s.push(x), a, v) <==> (appears_in(s, a, v) || v == x),
{
    let t = s.push(x);
    assert(t.take(s.len() as int) =~= s);
    lemma_appears_split(s, t, a, v);
    if v == x {
        assert(t[s.len() as int] == v);
    }
    if appears_in(t, s.len() as int, v) {
        let p = choose|p: int| s.len() <= p < t.len() && #[trigger] t[p] == v;
        assert(p == s.len());
    }
}

proof fn lemma_not_in_visited_order(order: Seq<usize>, visited: Seq<bool>, u: usize)
    requires
        forall|p: int| 0 <= p < order.len() ==> (#[trigger] order[p] as int) < visited.len() && visited[order[p] as int],
        (u as int) < visited.len(),
        !visited[u as int],
    ensures
        !order.contains(u),
{
    if order.contains(u) {
        let p = choose|p: int| 0 <= p < order.len() && order[p] == u;
        assert(visited[order[p] as int]);
    }
}

/// The depth-first traversal from node `u` with `f` nodes left to visit:
/// the visited marks afterwards and the nodes newly visited, in order. Each
/// node's imports are followed in `children_spec` order; top-down lists a node
/// before what it imports (pre-order), bottom-up after it (post-order).
pub open spec fn dfs_node(
    edges: Seq<ImportEdge>,
    from: Seq<Option<usize>>,
    to: Seq<Option<usize>>,
    f: nat,
    u: usize,
    vis: Seq<bool>,
    top_down: bool,
) -> (Seq<bool>, Seq<usize>)
    decreases f, 0int,
{
    if f == 0 || u >= vis.len() || vis[u as int] {
        (vis, Seq::empty())
    } else {
        let r = dfs_kids(
            edges,
            from,
            to,
            (f - 1) as nat,
            children_spec(edges, from, to, u),
            0,
            vis.update(u as int, true),
            top_down,
        );
        if top_down {
            (r.0, seq![u] + r.1)
        } else {
            (r.0, r.1.push(u))
        }
    }
}

/// The traversal of the imports `kids[i..]`, one after another.
pub open spec fn dfs_kids(
    edges: Seq<ImportEdge>,
    from: Seq<Option<usize>>,
    to: Seq<Option<usize>>,
    f: nat,
    kids: Seq<usize>,
    i: int,
    vis: Seq<bool>,
    top_down: bool,
) -> (Seq<bool>, Seq<usize>)
    decreases f, kids.len() - i,
{
    if i < 0 || i >= kids.len() {
        (vis, Seq::empty())
    } else {
        let w = match to[kids[i] as int] {
            Some(w) => w,
            None => 0,
        };
        let a = dfs_node(edges, from, to, f, w, vis, top_down);
        let b = dfs_kids(edges, from, to, f, kids, i + 1, a.0, top_down);
        (b.0, a.1 + b.1)
    }
}

#[verifier::rlimit(60)]
fn visit(
    u: usize,
    via: Option<FlowVia>,
    top_down: bool,
    paths: &Vec<String>,
    edges: &[ImportEdge],
    from: &Vec<Option<usize>>,
    to: &Vec<Option<usize>>,
    visited: &mut Vec<bool>,
    order: &mut Vec<usize>,
    steps: &mut Vec<FlowStep>,
    Ghost(root): Ghost<int>,
    Ghost(active): Ghost<Set<int>>,
    Ghost(fuel): Ghost<nat>,
)
    requires
        unvisited(old(visited)@) <= fuel,
        graph_ok(paths@, edges@, from@, to@),
        u < paths@.len(),
        walk_ok(paths@, edges@, root, old(visited)@, old(order)@, old(steps)@),
        closed(from@, to@, old(visited)@, active),
        forall|a: int| active.contains(a) ==> 0 <= a < paths@.len() && old(visited)@[a],
        via_ok(via, paths@[u as int]@, paths@, edges@, old(visited)@),
        (via is None) ==> u == root,
    ensures
        walk_ok(paths@, edges@, root, final(visited)@, final(order)@, final(steps)@),
        closed(from@, to@, final(visited)@, active),
        final(visited)@[u as int],
        forall|i: int| 0 <= i < old(visited)@.len() && old(visited)@[i] ==> final(visited)@[i],
        final(order)@.len() >= old(order)@.len(),
        final(steps)@.len() >= old(steps)@.len(),
        final(order)@.take(old(order)@.len() as int) == old(order)@,
        final(steps)@.take(old(steps)@.len() as int) == old(steps)@,
        forall|v: usize|
            v < paths@.len() ==> ((final(visited)@[v as int] && !old(visited)@[v as int]) <==> appears_in(
                final(order)@,
                old(order)@.len() as int,
                v,
            )),
        top_down && !old(visited)@[u as int] ==> final(order)@.len() > old(order)@.len()
            && final(order)@[old(order)@.len() as int] == u,
        !top_down && !old(visited)@[u as int] ==> final(order)@.len() > old(order)@.len()
            && final(order)@.last() == u,
        top_down && !old(visited)@[u as int] ==> final(steps)@[old(steps)@.len() as int].via == via,
        !top_down && !old(visited)@[u as int] ==> final(steps)@.last().via == via,
        (final(visited)@, final(order)@.skip(old(order)@.len() as int)) == dfs_node(
            edges@,
            from@,
            to@,
            fuel,
            u,
            old(visited)@,
            top_down,
        ),
    decreases unvisited(old(visited)@),
{
    if visited[u] {
        assert(order@.skip(order@.len() as int) =~= Seq::<usize>::empty());
        assert(order@.take(order@.len() as int) =~= order@);
        assert(steps@.take(steps@.len() as int) =~= steps@);
        return ;
    }
    let ghost v0 = visited@;
    let ghost o0 = order@;
    let ghost s0 = steps@;
    proof {
        lemma_unvisited_mark(v0, u as int);
        lemma_not_in_visited_order(o0, v0, u);
    }
    visited.set(u, true);
    proof {
        lemma_walk_ok_mono(paths@, edges@, root, v0, visited@, order@, steps@);
        lemma_via_ok_mono(via, paths@[u as int]@, paths@, edges@, v0, visited@);
    }
    let mut pending = via;
    if top_down {
        let step = FlowStep { path: copy_string(&paths[u]), via: pending, reachable: true };
        pending = None;
        order.push(u);
        steps.push(step);
        proof {
            assert(order@.no_duplicates()) by {
                assert forall|a: int, b: int| 0 <= a < order@.len() && 0 <= b < order@.len() && a != b
                    implies order@[a] != order@[b] by {
                    if a == o0.len() {
                        assert(o0[b] == order@[b]);
                    } else if b == o0.len() {
                        assert(o0[a] == order@[a]);
                    }
                }
            }
            assert forall|p: int| 0 <= p < order@.len() implies #[trigger] order@[p] < paths@.len()
                && visited@[order@[p] as int] && steps@[p].path@ == paths@[order@[p] as int]@
                && steps@[p].reachable && via_ok(steps@[p].via, steps@[p].path@, paths@, edges@, visited@)
                && ((steps@[p].via is None) ==> order@[p] == root) by {
                if p < o0.len() {
                    assert(order@[p] == o0[p]);
                    assert(steps@[p] == s0[p]);
                }
            }
        }
    }
    let ghost act = active.insert(u as int);
    let ghost v1 = visited@;
    let ghost o1 = order@;
    let ghost s1 = steps@;
    proof {
        assert(o1.take(o0.len() as int) =~= o0);
        assert(s1.take(s0.len() as int) =~= s0);
        assert(order@.take(o1.len() as int) =~= o1);
        assert(steps@.take(s1.len() as int) =~= s1);
        assert forall|v: usize|
            v < paths@.len() implies ((visited@[v as int] && !v0[v as int]) <==> (appears_in(
                order@,
                o0.len() as int,
                v,
            ) || (v == u && !top_down))) by {
            if top_down {
                lemma_appears_push(o0, o0.len() as int, u, v as usize);
                assert(!appears_in(o0, o0.len() as int, v as usize));
            } else {
                assert(!appears_in(o0, o0.len() as int, v as usize));
            }
        }
        assert(closed(from@, to@, visited@, act));
        assert(order@.subrange(o1.len() as int, order@.len() as int) =~= Seq::<usize>::empty());
        assert(unvisited(v1) + 1 <= fuel);
    }
    let kids = children_of(u, edges, from, to);
    let mut t: usize = 0;
    while t < kids.len()
        invariant
            graph_ok(paths@, edges@, from@, to@),
            u < paths@.len(),
            v0 == old(visited)@,
            act == active.insert(u as int),
            forall|a: int| active.contains(a) ==> 0 <= a < paths@.len() && v0[a],
            v0.len() == paths@.len(),
            !v0[u as int],
            unvisited(v0) == unvisited(v1) + 1,
            v1 == v0.update(u as int, true),
            t <= kids@.len(),
            forall|q: int|
                0 <= q < kids@.len() ==> kids@[q] < edges@.len() && edge_from(
                    from@,
                    to@,
                    kids@[q] as int,
                    u as int,
                ),
            forall|k: int|
                0 <= k < edges@.len() && edge_from(from@, to@, k, u as int) ==> kids@.contains(
                    k as usize,
                ),
            walk_ok(paths@, edges@, root, visited@, order@, steps@),
            closed(from@, to@, visited@, act),
            visited@[u as int],
            forall|i: int| 0 <= i < v1.len() && v1[i] ==> visited@[i],
            o0.len() <= o1.len() <= order@.len(),
            s0.len() <= s1.len() <= steps@.len(),
            order@.take(o1.len() as int) == o1,
            steps@.take(s1.len() as int) == s1,
            o1.take(o0.len() as int) == o0,
            s1.take(s0.len() as int) == s0,
            forall|v: usize|
                v < paths@.len() ==> ((visited@[v as int] && !v0[v as int]) <==> (appears_in(
                    order@,
                    o0.len() as int,
                    v,
                ) || (v == u && !top_down))),
            !top_down ==> !order@.contains(u),
            top_down ==> o1.len() == o0.len() + 1 && o1[o0.len() as int] == u,
            !top_down ==> o1 == o0 && s1 == s0,
            forall|q: int| 0 <= q < t ==> visited@[to@[kids@[q] as int].unwrap() as int],
            (pending is Some) ==> !top_down && via_ok(
                pending,
                paths@[u as int]@,
                paths@,
                edges@,
                visited@,
            ),
            (pending is None) ==> (top_down || u == root),
            !top_down ==> pending == via,
            top_down ==> s1.len() == s0.len() + 1 && s1[s0.len() as int].via == via,
            unvisited(v0) <= fuel,
            kids@ == children_spec(edges@, from@, to@, u),
            unvisited(visited@) <= unvisited(v1),
            dfs_kids(edges@, from@, to@, (fuel - 1) as nat, kids@, 0, v1, top_down) == (
                dfs_kids(edges@, from@, to@, (fuel - 1) as nat, kids@, t as int, visited@, top_down).0,
                order@.subrange(o1.len() as int, order@.len() as int) + dfs_kids(
                    edges@,
                    from@,
                    to@,
                    (fuel - 1) as nat,
                    kids@,
                    t as int,
                    visited@,
                    top_down,
                ).1,
            ),
        decreases kids.len() - t,
    {
        let k = kids[t];
        let w = match to[k] {
            Some(w) => w,
            None => 0,
        };
        let child_via = FlowVia {
            importer: copy_string(&paths[u]),
            line: edges[k].decl_line,
            raw: copy_string(&edges[k].raw),
        };
        let ghost vb = visited@;
        let ghost ob = order@;
        let ghost sb = steps@;
        proof {
            lemma_unvisited_mono(v1, vb);
            assert(edges@[k as int].importer@ == paths@[u as int]@);
            assert forall|a: int| act.contains(a) implies 0 <= a < paths@.len() && vb[a] by {
                if a != u {
                    assert(v0[a]);
                    assert(v1[a]);
                }
            }
            assert(unvisited(vb) < unvisited(v0));
        }
        visit(
            w,
            Some(child_via),
            top_down,
            paths,
            edges,
            from,
            to,
            visited,
            order,
            steps,
            Ghost(root),
            Ghost(act),
            Ghost((fuel - 1) as nat),
        );
        proof {
            assert(order@.take(o1.len() as int) =~= o1) by {
                assert(order@.take(ob.len() as int).take(o1.len() as int) =~= order@.take(
                    o1.len() as int,
                ));
            }
            assert(steps@.take(s1.len() as int) =~= s1) by {
                assert(steps@.take(sb.len() as int).take(s1.len() as int) =~= steps@.take(
                    s1.len() as int,
                ));
            }
            assert forall|v: usize|
                v < paths@.len() implies ((visited@[v as int] && !v0[v as int]) <==> (appears_in(
                order@,
                o0.len() as int,
                v,
            ) || (v == u && !top_down))) by {
                lemma_appears_split(ob, order@, o0.len() as int, v);
                if v0[v as int] {
                    assert(v1[v as int]);
                    assert(vb[v as int]);
                }
                if vb[v as int] && !v0[v as int] {
                    assert(appears_in(ob, o0.len() as int, v) || (v == u && !top_down));
                }
                if appears_in(ob, o0.len() as int, v) {
                    assert(vb[v as int] && !v0[v as int]);
                }
                if appears_in(order@, ob.len() as int, v) {
                    assert(visited@[v as int] && !vb[v as int]);
                }
            }
            assert(!top_down ==> !order@.contains(u)) by {
                if !top_down {
                    lemma_appears_split(ob, order@, 0, u);
                    if order@.contains(u) {
                        let q = choose|q: int| 0 <= q < order@.len() && order@[q] == u;
                        assert(appears_in(order@, 0, u));
                        if appears_in(ob, 0, u) {
                            let q2 = choose|q2: int| 0 <= q2 < ob.len() && #[trigger] ob[q2] == u;
                            assert(ob.contains(u));
                        }
                    }
                }
            }
            if pending is Some {
                lemma_via_ok_mono(pending, paths@[u as int]@, paths@, edges@, vb, visited@);
            }
            lemma_unvisited_mono(vb, visited@);
            assert(order@.take(ob.len() as int) == ob);
            assert(order@.subrange(o1.len() as int, order@.len() as int) =~= ob.subrange(
                o1.len() as int,
                ob.len() as int,
            ) + order@.skip(ob.len() as int));
            let tail = dfs_kids(edges@, from@, to@, (fuel - 1) as nat, kids@, t + 1, visited@, top_down);
            assert(dfs_kids(edges@, from@, to@, (fuel - 1) as nat, kids@, t as int, vb, top_down) == (
                tail.0,
                order@.skip(ob.len() as int) + tail.1,
            ));
            assert((ob.subrange(o1.len() as int, ob.len() as int) + order@.skip(ob.len() as int))
                + tail.1 =~= ob.subrange(o1.len() as int, ob.len() as int) + (order@.skip(
                ob.len() as int,
            ) + tail.1));
            assert forall|q: int| 0 <= q < t + 1 implies visited@[to@[kids@[q] as int].unwrap()
                as int] by {
                if q < t {
                    assert(vb[to@[kids@[q] as int].unwrap() as int]);
                }
            }
        }
        t += 1;
    }
    proof {
        assert forall|v: int, k: int|
            0 <= v < visited@.len() && visited@[v] && !active.contains(v) && 0 <= k < from@.len()
                && #[trigger] edge_from(from@, to@, k, v) implies visited@[to@[k].unwrap() as int] by {
            if v == u {
                assert(k < edges@.len());
                assert(edge_from(from@, to@, k, u as int));
                assert(kids@.contains(k as usize));
                let q = choose|q: int| 0 <= q < kids@.len() && kids@[q] == k as usize;
                assert(visited@[to@[kids@[q] as int].unwrap() as int]);
            }
        }
        assert forall|i: int| 0 <= i < v0.len() && v0[i] implies visited@[i] by {
            assert(v1[i]);
        }
    }
    let ghost kid_order = order@.subrange(o1.len() as int, order@.len() as int);
    proof {
        let d = dfs_kids(edges@, from@, to@, (fuel - 1) as nat, kids@, kids@.len() as int, visited@, top_down);
        assert(d == (visited@, Seq::<usize>::empty()));
        assert(kid_order + Seq::<usize>::empty() =~= kid_order);
        assert(dfs_kids(edges@, from@, to@, (fuel - 1) as nat, kids@, 0, v1, top_down) == (visited@, kid_order));
        assert(fuel > 0);
    }
    if !top_down {
        let ghost ob = order@;
        let ghost sb = steps@;
        let step = FlowStep { path: copy_string(&paths[u]), via: pending, reachable: true };
        order.push(u);
        steps.push(step);
        proof {
            assert(order@.take(o0.len() as int) =~= o0);
            assert(steps@.take(s0.len() as int) =~= s0);
            assert forall|v: usize|
                v < paths@.len() implies ((visited@[v as int] && !v0[v as int]) <==> appears_in(
                order@,
                o0.len() as int,
                v,
            )) by {
                lemma_appears_push(ob, o0.len() as int, u, v as usize);
            }
            assert(order@.no_duplicates());
            assert(order@.skip(o0.len() as int) =~= kid_order.push(u));
        }
    } else {
        proof {
            assert(order@.take(o0.len() as int) =~= o0) by {
                assert(order@.take(o1.len() as int).take(o0.len() as int) =~= order@.take(
                    o0.len() as int,
                ));
            }
            assert(steps@.take(s0.len() as int) =~= s0) by {
                assert(steps@.take(s1.len() as int).take(s0.len() as int) =~= steps@.take(
                    s0.len() as int,
                ));
            }
            assert(order@[o0.len() as int] == o1[o0.len() as int]) by {
                assert(order@.take(o1.len() as int)[o0.len() as int] == order@[o0.len() as int]);
            }
            assert(order@.skip(o0.len() as int) =~= seq![u] + kid_order);
        }
    }
}

/// The path a traversal starts from: the entry when it is typeable, else the
/// first path in order.
pub open spec fn start_ok(
    start: Seq<char>,
    entry: Option<Seq<char>>,
    typeable: Set<Seq<char>>,
) -> bool {
    &&& typeable.contains(start)
    &&& match entry {
        Some(e) => typeable.contains(e) ==> start == e,
        None => true,
    }
    &&& (match entry {
        Some(e) => !typeable.contains(e),
        None => true,
    }) ==> forall|q: Seq<char>| typeable.contains(q) ==> !lex_lt(q, start)
}

/// What a flow order over `typeable` from `entry` satisfies: each typeable
/// path once; the reachable steps first, each but the start reached over a
/// real edge from a reachable importer, closed under typeable imports; the
/// start being the entry when typeable (first for top-down, last reachable
/// for bottom-up); the rest in path order.
pub open spec fn order_ok(
    edges: Seq<ImportEdge>,
    entry: Option<Seq<char>>,
    direction: DependencyDirection,
    typeable: Seq<Seq<char>>,
    out: Seq<FlowStep>,
) -> bool {
    &&& (step_paths(out).no_duplicates())
    &&& (forall|p: Seq<char>| step_paths(out).contains(p) <==> typeable.contains(p))
    &&& (forall|i: int, j: int|
            0 <= i < j < out.len() && out[j].reachable ==> out[i].reachable)
    &&& (forall|i: int, j: int|
            0 <= i < j < out.len() && !out[i].reachable ==> lex_lt(
                out[i].path@,
                out[j].path@,
            ))
    &&& (forall|i: int| 0 <= i < out.len() && !out[i].reachable ==> out[i].via is None)
    &&& (out.len() > 0 ==> {
            let s = if direction == DependencyDirection::TopDown {
                0
            } else {
                count_reachable(out) - 1
            };
            &&& 0 <= s < out.len()
            &&& out[s].reachable
            &&& out[s].via is None
            &&& start_ok(
                out[s].path@,
                entry,
                typeable.to_set(),
            )
            &&& forall|i: int| 0 <= i < out.len() && out[i].reachable && i != s ==> out[i].via is Some
        })
    &&& (forall|i: int|
            0 <= i < out.len() && out[i].reachable && out[i].via is Some ==> {
                let v = out[i].via.unwrap();
                &&& exists|k: int|
                    0 <= k < edges.len() && #[trigger] edges[k].importer@ == v.importer@
                        && edges[k].imported@ == out[i].path@ && edges[k].decl_line == v.line
                        && edges[k].raw@ == v.raw@
                &&& exists|j: int|
                    0 <= j < out.len() && out[j].reachable && #[trigger] out[j].path@
                        == v.importer@
            })
    &&& (forall|i: int, k: int|
            #![trigger edges[k], out[i]]
            0 <= i < out.len() && out[i].reachable && 0 <= k < edges.len()
                && edges[k].importer@ == out[i].path@ && typeable.contains(edges[k].imported@) ==> exists|j: int|
                0 <= j < out.len() && out[j].reachable && #[trigger] out[j].path@
                    == edges[k].imported@)
}

/// The position of `s` in `ps`, when it occurs there.
pub open spec fn index_in(ps: Seq<Seq<char>>, s: Seq<char>) -> Option<int> {
    if ps.contains(s) {
        Some(choose|i: int| 0 <= i < ps.len() && ps[i] == s)
    } else {
        None
    }
}

/// The node of path `s` among `ps`.
pub open spec fn node_of(ps: Seq<Seq<char>>, s: Seq<char>) -> Option<usize> {
    match index_in(ps, s) {
        Some(i) => Some(i as usize),
        None => None,
    }
}

/// The distinct paths of `t` in increasing order.
pub open spec fn sorted_paths(t: Seq<Seq<char>>) -> Seq<Seq<char>> {
    choose|s: Seq<Seq<char>>|
        strictly_sorted(s) && forall|p: Seq<char>| s.contains(p) <==> t.contains(p)
}

/// For each edge, the node of its importer.
pub open spec fn importer_nodes(ps: Seq<Seq<char>>, edges: Seq<ImportEdge>) -> Seq<Option<usize>> {
    Seq::new(edges.len(), |k: int| node_of(ps, edges[k].importer@))
}

/// For each edge, the node of the file it imports.
pub open spec fn imported_nodes(ps: Seq<Seq<char>>, edges: Seq<ImportEdge>) -> Seq<Option<usize>> {
    Seq::new(edges.len(), |k: int| node_of(ps, edges[k].imported@))
}

/// The node a traversal starts from: the entry when it is one of the paths,
/// else the first path.
pub open spec fn start_node(ps: Seq<Seq<char>>, entry: Option<Seq<char>>) -> usize {
    match entry {
        Some(e) => match index_in(ps, e) {
            Some(i) => i as usize,
            None => 0,
        },
        None => 0,
    }
}

/// The reachable part of a flow: a depth-first traversal of the typeable
/// imports from the start, each file's imports followed in first-use order
/// (then declaration line, then target), listing a file before its imports
/// when top-down and after them when bottom-up.
#[verifier::opaque]
pub open spec fn flow_paths(
    edges: Seq<ImportEdge>,
    entry: Option<Seq<char>>,
    direction: DependencyDirection,
    typeable: Seq<Seq<char>>,
) -> Seq<Seq<char>> {
    let ps = sorted_paths(typeable);
    let r = dfs_node(
        edges,
        importer_nodes(ps, edges),
        imported_nodes(ps, edges),
        ps.len(),
        start_node(ps, entry),
        Seq::new(ps.len(), |i: int| false),
        direction == DependencyDirection::TopDown,
    );
    r.1.map_values(|v: usize| ps[v as int])
}

/// Two strictly sorted lists with the same paths are the same list.
proof fn lemma_sorted_unique(s: Seq<Seq<char>>, t: Seq<Seq<char>>)
    requires
        strictly_sorted(s),
        strictly_sorted(t),
        forall|p: Seq<char>| s.contains(p) <==> t.contains(p),
    ensures
        s == t,
    decreases s.len(),
{
    if s.len() == 0 {
        if t.len() > 0 {
            assert(t.contains(t[0]));
        }
        assert(s =~= t);
    } else {
        assert(s.contains(s[0]));
        assert(t.len() > 0);
        assert(t.contains(t[0]));
        if s[0] != t[0] {
            let j = choose|j: int| 0 <= j < t.len() && t[j] == s[0];
            let i = choose|i: int| 0 <= i < s.len() && s[i] == t[0];
            assert(j > 0 && i > 0);
            assert(lex_lt(t[0], t[j]));
            assert(lex_lt(s[0], s[i]));
            lemma_lex_asymmetric(s[0], t[0]);
        }
        let s1 = s.drop_first();
        let t1 = t.drop_first();
        assert forall|p: Seq<char>| s1.contains(p) implies t1.contains(p) by {
            let i = choose|i: int| 0 <= i < s1.len() && s1[i] == p;
            assert(s[i + 1] == p);
            assert(lex_lt(s[0], s[i + 1]));
            lemma_lex_irreflexive(p);
            assert(s.contains(p));
            let j = choose|j: int| 0 <= j < t.len() && t[j] == p;
            assert(j != 0);
            assert(t1[j - 1] == p);
        }
        assert forall|p: Seq<char>| t1.contains(p) implies s1.contains(p) by {
            let j = choose|j: int| 0 <= j < t1.len() && t1[j] == p;
            assert(t[j + 1] == p);
            assert(lex_lt(t[0], t[j + 1]));
            lemma_lex_irreflexive(p);
            assert(t.contains(p));
            let i = choose|i: int| 0 <= i < s.len() && s[i] == p;
            assert(i != 0);
            assert(s1[i - 1] == p);
        }
        assert(strictly_sorted(s1));
        assert(strictly_sorted(t1));
        lemma_sorted_unique(s1, t1);
        assert(s =~= seq![s[0]] + s1);
        assert(t =~= seq![t[0]] + t1);
    }
}

/// In a strictly sorted list a path occurs at one position only.
proof fn lemma_index_in(ps: Seq<Seq<char>>, i: int)
    requires
        strictly_sorted(ps),
        0 <= i < ps.len(),
    ensures
        index_in(ps, ps[i]) == Some(i),
{
    assert(ps.contains(ps[i]));
    let j = choose|j: int| 0 <= j < ps.len() && ps[j] == ps[i];
    lemma_lex_irreflexive(ps[i]);
    if j < i {
        assert(lex_lt(ps[j], ps[i]));
    } else if i < j {
        assert(lex_lt(ps[i], ps[j]));
    }
}

/// Return typeable files in dependency traversal order.
///
/// The traversal starts at `entry` when it is typeable, else at the first
/// path; all other typeable paths are appended in lexicographic order with
/// `reachable = false`.
#[verifier::spinoff_prover]
#[verifier::rlimit(60)]
pub fn order_files(
    edges: &[ImportEdge],
    entry: Option<&str>,
    direction: DependencyDirection,
    typeable_paths: &[String],
) -> (out: Vec<FlowStep>)
    ensures
        order_ok(
            edges@,
            match entry {
                Some(e) => Some(e@),
                None => None,
            },
            direction,
            views(typeable_paths@),
            out@,
        ),
        ({
            let fp = flow_paths(
                edges@,
                match entry {
                    Some(e) => Some(e@),
                    None => None,
                },
                direction,
                views(typeable_paths@),
            );
            &&& fp.len() <= out@.len()
            &&& forall|i: int| 0 <= i < out@.len() ==> (#[trigger] out@[i].reachable <==> i < fp.len())
            &&& forall|i: int| 0 <= i < fp.len() ==> #[trigger] out@[i].path@ == fp[i]
        }),
{
    let paths = sorted_unique_paths(typeable_paths);
    let n = paths.len();
    if n == 0 {
        assert forall|p: Seq<char>| views(typeable_paths@).contains(p) implies false by {
            assert(views(paths@).contains(p));
        }
        proof {
            lemma_flow_empty(
                edges@,
                match entry {
                    Some(e) => Some(e@),
                    None => None,
                },
                direction,
                views(typeable_paths@),
            );
        }
        return Vec::new();
    }
    let mut from: Vec<Option<usize>> = Vec::new();
    let mut to: Vec<Option<usize>> = Vec::new();
    let mut k: usize = 0;
    while k < edges.len()
        invariant
            k <= edges@.len(),
            from@.len() == k,
            to@.len() == k,
            forall|q: int|
                0 <= q < k ==> match #[trigger] from@[q] {
                    Some(i) => i < paths@.len() && paths@[i as int]@ == edges@[q].importer@,
                    None => !views(paths@).contains(edges@[q].importer@),
                },
            forall|q: int|
                0 <= q < k ==> match #[trigger] to@[q] {
                    Some(i) => i < paths@.len() && paths@[i as int]@ == edges@[q].imported@,
                    None => !views(paths@).contains(edges@[q].imported@),
                },
        decreases edges.len() - k,
    {
        from.push(position_in(&paths, edges[k].importer.as_str()));
        to.push(position_in(&paths, edges[k].imported.as_str()));
        k += 1;
    }
    let mut start: usize = 0;
    match entry {
        Some(e) => {
            let found = position_in(&paths, e);
            match found {
                Some(i) => {
                    start = i;
                    assert(views(paths@)[i as int] == e@);
                    assert(views(paths@).contains(e@));
                },
                None => {},
            }
        },
        None => {},
    }
    let ghost start_fact = match entry {
        Some(e) => if views(paths@).contains(e@) {
            paths@[start as int]@ == e@
        } else {
            start == 0
        },
        None => start == 0,
    };
    assert(start_fact);
    proof {
        lemma_flow_inputs(
            edges@,
            match entry {
                Some(e) => Some(e@),
                None => None,
            },
            typeable_paths@,
            paths@,
            from@,
            to@,
            start,
        );
    }
    let top_down = direction == DependencyDirection::TopDown;
    let mut visited: Vec<bool> = Vec::new();
    let mut i: usize = 0;
    while i < n
        invariant
            i <= n,
            n == paths@.len(),
            visited@.len() == i,
            forall|q: int| 0 <= q < i ==> !visited@[q],
        decreases n - i,
    {
        visited.push(false);
        i += 1;
    }
    let mut order: Vec<usize> = Vec::new();
    let mut steps: Vec<FlowStep> = Vec::new();
    assert(order@.no_duplicates());
    proof {
        lemma_unvisited_at_most_len(visited@);
    }
    let ghost vis0 = visited@;
    assert(vis0 =~= Seq::new(paths@.len(), |i: int| false));
    visit(
        start,
        None,
        top_down,
        &paths,
        edges,
        &from,
        &to,
        &mut visited,
        &mut order,
        &mut steps,
        Ghost(start as int),
        Ghost(Set::empty()),
        Ghost(n as nat),
    );
    let ghost reach = order@;
    let ghost rsteps = steps@;
    let ghost vis = visited@;
    assert forall|v: usize| v < n implies (vis[v as int] <==> reach.contains(v)) by {
        if appears_in(reach, 0, v) {
            let p = choose|p: int| 0 <= p < reach.len() && #[trigger] reach[p] == v;
            assert(reach[p] == v);
        }
        if reach.contains(v) {
            let p = choose|p: int| 0 <= p < reach.len() && reach[p] == v;
            assert(appears_in(reach, 0, v));
        }
    }
    let mut i: usize = 0;
    while i < n
        invariant
            i <= n,
            n == paths@.len(),
            visited@ == vis,
            vis.len() == n,
            forall|v: usize| v < n ==> (vis[v as int] <==> reach.contains(v)),
            reach.len() <= order@.len(),
            order@.len() == steps@.len(),
            order@.take(reach.len() as int) == reach,
            steps@.take(reach.len() as int) == rsteps,
            order@.no_duplicates(),
            forall|p: int| 0 <= p < order@.len() ==> #[trigger] order@[p] < n,
            forall|p: int|
                reach.len() <= p < order@.len() ==> !vis[order@[p] as int] && order@[p] < i
                    && steps@[p].path@ == paths@[order@[p] as int]@ && !steps@[p].reachable
                    && steps@[p].via is None,
            forall|p: int, q: int|
                reach.len() <= p < q < order@.len() ==> order@[p] < order@[q],
            forall|v: usize| v < i ==> order@.contains(v),
        decreases n - i,
    {
        if !visited[i] {
            let ghost ob = order@;
            let step = FlowStep { path: copy_string(&paths[i]), via: None, reachable: false };
            order.push(i);
            steps.push(step);
            proof {
                assert(order@.take(reach.len() as int) =~= ob.take(reach.len() as int));
                assert(steps@.take(reach.len() as int) =~= steps@.drop_last().take(
                    reach.len() as int,
                ));
                assert(!ob.contains(i)) by {
                    if ob.contains(i) {
                        let p = choose|p: int| 0 <= p < ob.len() && ob[p] == i;
                        if p < reach.len() {
                            assert(reach[p] == i);
                            assert(reach.contains(i));
                        }
                    }
                }
                assert forall|v: usize| v < i + 1 implies order@.contains(v) by {
                    if v < i {
                        assert(ob.contains(v));
                        let p = choose|p: int| 0 <= p < ob.len() && ob[p] == v;
                        assert(order@[p] == v);
                    } else {
                        assert(order@[ob.len() as int] == i);
                    }
                }
            }
        } else {
            proof {
                assert(order@.take(reach.len() as int) =~= reach);
                assert(reach.contains(i));
                let p = choose|p: int| 0 <= p < reach.len() && reach[p] == i;
                assert(order@[p] == i);
            }
        }
        i += 1;
    }
    assert(start_fact);
    proof {
        assert(paths@.len() == paths.len());
        lemma_final_layout(paths@, edges@, start as int, vis, reach, rsteps, order@, steps@);
        lemma_final_paths(typeable_paths@, paths@, reach.len() as int, order@, steps@);
        lemma_final_start(
            entry,
            direction,
            typeable_paths@,
            paths@,
            start as int,
            reach,
            rsteps,
            order@,
            steps@,
        );
        lemma_final_vias(edges@, paths@, start as int, vis, reach, rsteps, order@, steps@);
        lemma_final_closure(
            edges@,
            typeable_paths@,
            paths@,
            from@,
            to@,
            vis,
            reach,
            order@,
            steps@,
        );
        assert(reach.skip(0) =~= reach);
        lemma_final_flow(
            edges@,
            match entry {
                Some(e) => Some(e@),
                None => None,
            },
            direction,
            typeable_paths@,
            paths@,
            reach,
            order@,
            steps@,
        );
    }
    steps
}

/// With no typeable paths there is no flow.
proof fn lemma_flow_empty(
    edges: Seq<ImportEdge>,
    entry: Option<Seq<char>>,
    direction: DependencyDirection,
    typeable: Seq<Seq<char>>,
)
    requires
        forall|p: Seq<char>| !typeable.contains(p),
    ensures
        flow_paths(edges, entry, direction, typeable).len() == 0,
{
    reveal(flow_paths);
    let e: Seq<Seq<char>> = Seq::empty();
    assert(strictly_sorted(e) && forall|p: Seq<char>| e.contains(p) <==> typeable.contains(p));
    let ps = sorted_paths(typeable);
    if ps.len() > 0 {
        assert(ps.contains(ps[0]));
    }
}

/// The index tables and the start of a traversal are those of `flow_paths`.
#[verifier::spinoff_prover]
proof fn lemma_flow_inputs(
    edges: Seq<ImportEdge>,
    entry: Option<Seq<char>>,
    typeable: Seq<String>,
    paths: Seq<String>,
    from: Seq<Option<usize>>,
    to: Seq<Option<usize>>,
    start: usize,
)
    requires
        strictly_sorted(views(paths)),
        forall|p: Seq<char>| views(paths).contains(p) <==> views(typeable).contains(p),
        from.len() == edges.len(),
        to.len() == edges.len(),
        forall|q: int|
            0 <= q < edges.len() ==> match #[trigger] from[q] {
                Some(i) => i < paths.len() && paths[i as int]@ == edges[q].importer@,
                None => !views(paths).contains(edges[q].importer@),
            },
        forall|q: int|
            0 <= q < edges.len() ==> match #[trigger] to[q] {
                Some(i) => i < paths.len() && paths[i as int]@ == edges[q].imported@,
                None => !views(paths).contains(edges[q].imported@),
            },
        start < paths.len(),
        match entry {
            Some(e) => if views(paths).contains(e) {
                paths[start as int]@ == e
            } else {
                start == 0
            },
            None => start == 0,
        },
    ensures
        views(paths) == sorted_paths(views(typeable)),
        from == importer_nodes(views(paths), edges),
        to == imported_nodes(views(paths), edges),
        start == start_node(views(paths), entry),
{
    let ps = views(paths);
    lemma_sorted_unique(ps, sorted_paths(views(typeable)));
    assert forall|k: int| 0 <= k < edges.len() implies from[k] == #[trigger] importer_nodes(ps, edges)[k] by {
        match from[k] {
            Some(i) => {
                assert(ps[i as int] == edges[k].importer@);
                lemma_index_in(ps, i as int);
            },
            None => {},
        }
    }
    assert forall|k: int| 0 <= k < edges.len() implies to[k] == #[trigger] imported_nodes(ps, edges)[k] by {
        match to[k] {
            Some(i) => {
                assert(ps[i as int] == edges[k].imported@);
                lemma_index_in(ps, i as int);
            },
            None => {},
        }
    }
    assert(from =~= importer_nodes(ps, edges));
    assert(to =~= imported_nodes(ps, edges));
    match entry {
        Some(e) => {
            if ps.contains(e) {
                assert(ps[start as int] == e);
                lemma_index_in(ps, start as int);
            }
        },
        None => {},
    }
}

/// The steps follow the depth-first order of `flow_paths`.
#[verifier::spinoff_prover]
proof fn lemma_final_flow(
    edges: Seq<ImportEdge>,
    entry: Option<Seq<char>>,
    direction: DependencyDirection,
    typeable: Seq<String>,
    paths: Seq<String>,
    reach: Seq<usize>,
    order: Seq<usize>,
    steps: Seq<FlowStep>,
)
    requires
        views(paths) == sorted_paths(views(typeable)),
        reach == dfs_node(
            edges,
            importer_nodes(views(paths), edges),
            imported_nodes(views(paths), edges),
            paths.len(),
            start_node(views(paths), entry),
            Seq::new(paths.len(), |i: int| false),
            direction == DependencyDirection::TopDown,
        ).1,
        layout_ok(paths, reach.len() as int, order, steps),
        order.take(reach.len() as int) == reach,
    ensures
        ({
            let fp = flow_paths(edges, entry, direction, views(typeable));
            &&& fp.len() <= steps.len()
            &&& forall|i: int| 0 <= i < steps.len() ==> (#[trigger] steps[i].reachable <==> i < fp.len())
            &&& forall|i: int| 0 <= i < fp.len() ==> #[trigger] steps[i].path@ == fp[i]
        }),
{
    let ps = views(paths);
    let fp = flow_paths(edges, entry, direction, views(typeable));
    assert(fp =~= reach.map_values(|v: usize| ps[v as int])) by {
        reveal(flow_paths);
    }
    assert(fp.len() == reach.len());
    assert forall|i: int| 0 <= i < steps.len() implies (#[trigger] steps[i].reachable <==> i < fp.len()) by {
        assert(order[i] < paths.len());
    }
    assert forall|i: int| 0 <= i < fp.len() implies #[trigger] steps[i].path@ == fp[i] by {
        assert(order.take(reach.len() as int)[i] == order[i]);
        assert(order[i] < paths.len());
        assert(steps[i].path@ == paths[order[i] as int]@);
    }
}

/// The assembled steps: each is the step of its node, and the reachable ones
/// come first.
pub open spec fn layout_ok(paths: Seq<String>, r: int, order: Seq<usize>, steps: Seq<FlowStep>) -> bool {
    &&& paths.len() <= usize::MAX
    &&& 0 <= r <= order.len()
    &&& order.len() == steps.len()
    &&& order.no_duplicates()
    &&& forall|p: int|
        0 <= p < steps.len() ==> #[trigger] order[p] < paths.len() && steps[p].path@
            == paths[order[p] as int]@ && (steps[p].reachable <==> p < r)
    &&& forall|p: int, q: int| r <= p < q < order.len() ==> order[p] < order[q]
    &&& forall|p: int| r <= p < steps.len() ==> (#[trigger] steps[p].via is None)
    &&& forall|v: usize| v < paths.len() ==> order.contains(v)
}

proof fn lemma_final_layout(
    paths: Seq<String>,
    edges: Seq<ImportEdge>,
    start: int,
    vis: Seq<bool>,
    reach: Seq<usize>,
    rsteps: Seq<FlowStep>,
    order: Seq<usize>,
    steps: Seq<FlowStep>,
)
    requires
        walk_ok(paths, edges, start, vis, reach, rsteps),
        reach.len() <= order.len(),
        order.len() == steps.len(),
        order.take(reach.len() as int) == reach,
        steps.take(reach.len() as int) == rsteps,
        order.no_duplicates(),
        forall|p: int| 0 <= p < order.len() ==> #[trigger] order[p] < paths.len(),
        forall|p: int|
            reach.len() <= p < order.len() ==> !vis[order[p] as int] && steps[p].path@
                == paths[order[p] as int]@ && !steps[p].reachable && steps[p].via is None,
        forall|p: int, q: int| reach.len() <= p < q < order.len() ==> order[p] < order[q],
        forall|v: usize| v < paths.len() ==> order.contains(v),
        paths.len() <= usize::MAX,
    ensures
        layout_ok(paths, reach.len() as int, order, steps),
{
    assert forall|p: int| 0 <= p < steps.len() implies #[trigger] order[p] < paths.len()
        && steps[p].path@ == paths[order[p] as int]@ && (steps[p].reachable <==> p
        < reach.len()) by {
        if p < reach.len() {
            assert(steps[p] == rsteps[p]);
            assert(order[p] == reach[p]);
            assert(reach[p] < paths.len());
        }
    }
}

proof fn lemma_distinct_nodes(paths: Seq<String>, a: int, b: int)
    requires
        strictly_sorted(views(paths)),
        0 <= a < paths.len(),
        0 <= b < paths.len(),
        a != b,
    ensures
        paths[a]@ != paths[b]@,
{
    let vp = views(paths);
    if a < b {
        assert(lex_lt(vp[a], vp[b]));
        lemma_lex_irreflexive(vp[a]);
    } else {
        assert(lex_lt(vp[b], vp[a]));
        lemma_lex_irreflexive(vp[b]);
    }
}

proof fn lemma_final_paths(
    typeable: Seq<String>,
    paths: Seq<String>,
    r: int,
    order: Seq<usize>,
    steps: Seq<FlowStep>,
)
    requires
        strictly_sorted(views(paths)),
        forall|p: Seq<char>| views(paths).contains(p) <==> views(typeable).contains(p),
        layout_ok(paths, r, order, steps),
    ensures
        step_paths(steps).no_duplicates(),
        forall|p: Seq<char>| step_paths(steps).contains(p) <==> views(typeable).contains(p),
        forall|i: int, j: int| 0 <= i < j < steps.len() && steps[j].reachable ==> steps[i].reachable,
        forall|i: int, j: int|
            0 <= i < j < steps.len() && !steps[i].reachable ==> lex_lt(steps[i].path@, steps[j].path@),
        forall|i: int| 0 <= i < steps.len() && !steps[i].reachable ==> steps[i].via is None,
        count_reachable(steps) == r,
{
    let sp = step_paths(steps);
    assert forall|a: int, b: int| 0 <= a < sp.len() && 0 <= b < sp.len() && a != b implies sp[a]
        != sp[b] by {
        assert(order[a] < paths.len());
        assert(order[b] < paths.len());
        assert(order[a] != order[b]);
        lemma_distinct_nodes(paths, order[a] as int, order[b] as int);
    }
    assert forall|p: Seq<char>| sp.contains(p) <==> views(typeable).contains(p) by {
        if sp.contains(p) {
            let a = choose|a: int| 0 <= a < sp.len() && sp[a] == p;
            assert(order[a] < paths.len());
            assert(views(paths)[order[a] as int] == p);
        }
        if views(typeable).contains(p) {
            assert(views(paths).contains(p));
            let vp = views(paths);
            let v = choose|v: int| 0 <= v < vp.len() && vp[v] == p;
            assert(order.contains(v as usize));
            let a = choose|a: int| 0 <= a < order.len() && order[a] == v as usize;
            assert(order[a] < paths.len());
            assert(sp[a] == p);
        }
    }
    assert forall|i: int, j: int| 0 <= i < j < steps.len() && !steps[i].reachable implies lex_lt(
        steps[i].path@,
        steps[j].path@,
    ) by {
        assert(order[i] < paths.len());
        assert(order[j] < paths.len());
        assert(order[i] < order[j]);
        assert(views(paths)[order[i] as int] == paths[order[i] as int]@);
        assert(views(paths)[order[j] as int] == paths[order[j] as int]@);
    }
    assert forall|i: int| 0 <= i < steps.len() && !steps[i].reachable implies steps[i].via is None by {
        assert(order[i] < paths.len());
    }
    assert forall|p: int| 0 <= p < steps.len() implies (#[trigger] steps[p].reachable <==> p < r) by {
        assert(order[p] < paths.len());
    }
    lemma_count_reachable_prefix(steps, r);
}

proof fn lemma_final_start(
    entry: Option<&str>,
    direction: DependencyDirection,
    typeable: Seq<String>,
    paths: Seq<String>,
    start: int,
    reach: Seq<usize>,
    rsteps: Seq<FlowStep>,
    order: Seq<usize>,
    steps: Seq<FlowStep>,
)
    requires
        strictly_sorted(views(paths)),
        forall|p: Seq<char>| views(paths).contains(p) <==> views(typeable).contains(p),
        0 <= start < paths.len(),
        match entry {
            Some(e) => if views(paths).contains(e@) {
                paths[start]@ == e@
            } else {
                start == 0
            },
            None => start == 0,
        },
        layout_ok(paths, reach.len() as int, order, steps),
        order.take(reach.len() as int) == reach,
        steps.take(reach.len() as int) == rsteps,
        count_reachable(steps) == reach.len(),
        walk_ok_root(start, reach, rsteps),
        direction == DependencyDirection::TopDown ==> reach.len() > 0 && reach[0] == start
            && rsteps[0].via is None,
        direction != DependencyDirection::TopDown ==> reach.len() > 0 && reach.last() == start
            && rsteps.last().via is None,
    ensures
        steps.len() > 0 ==> {
            let s = if direction == DependencyDirection::TopDown {
                0
            } else {
                count_reachable(steps) - 1
            };
            &&& 0 <= s < steps.len()
            &&& steps[s].reachable
            &&& steps[s].via is None
            &&& start_ok(
                steps[s].path@,
                match entry {
                    Some(e) => Some(e@),
                    None => None,
                },
                views(typeable).to_set(),
            )
            &&& forall|i: int| 0 <= i < steps.len() && steps[i].reachable && i != s ==> steps[i].via is Some
        },
{
    let r = reach.len() as int;
    let s: int = if direction == DependencyDirection::TopDown {
        0
    } else {
        r - 1
    };
    assert(order[s] == reach[s]);
    assert(steps[s] == rsteps[s]);
    assert(order[s] < paths.len());
    assert(steps[s].reachable);
    assert(order[s] == start as usize);
    assert(steps[s].path@ == paths[start]@);
    assert forall|i: int| 0 <= i < steps.len() && steps[i].reachable && i != s implies steps[i].via is Some by {
        assert(order[i] < paths.len());
        assert(order[i] == reach[i]);
        assert(steps[i] == rsteps[i]);
        assert(order[i] != order[s]);
    }
    let ts = views(typeable).to_set();
    assert(views(paths)[start] == paths[start]@);
    assert(ts.contains(paths[start]@)) by {
        assert(views(paths).contains(paths[start]@));
    }
    match entry {
        Some(e) => {
            if ts.contains(e@) {
                assert(views(typeable).contains(e@));
                assert(views(paths).contains(e@));
            }
        },
        None => {},
    }
    if (match entry {
        Some(e) => !ts.contains(e@),
        None => true,
    }) {
        match entry {
            Some(e) => {
                if views(paths).contains(e@) {
                    assert(views(typeable).contains(e@));
                }
            },
            None => {},
        }
        assert(start == 0);
        assert forall|q: Seq<char>| ts.contains(q) implies !lex_lt(q, steps[s].path@) by {
            assert(views(typeable).contains(q));
            assert(views(paths).contains(q));
            let vp = views(paths);
            let v = choose|v: int| 0 <= v < vp.len() && vp[v] == q;
            if v > 0 {
                assert(lex_lt(vp[0], vp[v]));
                lemma_lex_asymmetric(vp[0], q);
            } else {
                lemma_lex_irreflexive(q);
            }
        }
    }
}

/// Only the root's step can lack a via.
pub open spec fn walk_ok_root(root: int, order: Seq<usize>, steps: Seq<FlowStep>) -> bool {
    &&& order.len() == steps.len()
    &&& forall|p: int| 0 <= p < order.len() ==> ((#[trigger] steps[p].via is None) ==> order[p] == root)
}

proof fn lemma_final_vias(
    edges: Seq<ImportEdge>,
    paths: Seq<String>,
    start: int,
    vis: Seq<bool>,
    reach: Seq<usize>,
    rsteps: Seq<FlowStep>,
    order: Seq<usize>,
    steps: Seq<FlowStep>,
)
    requires
        walk_ok(paths, edges, start, vis, reach, rsteps),
        forall|v: usize| v < paths.len() ==> (vis[v as int] <==> reach.contains(v)),
        layout_ok(paths, reach.len() as int, order, steps),
        order.take(reach.len() as int) == reach,
        steps.take(reach.len() as int) == rsteps,
    ensures
        forall|i: int|
            0 <= i < steps.len() && steps[i].reachable && steps[i].via is Some ==> {
                let v = steps[i].via.unwrap();
                &&& exists|k: int|
                    0 <= k < edges.len() && #[trigger] edges[k].importer@ == v.importer@
                        && edges[k].imported@ == steps[i].path@ && edges[k].decl_line == v.line
                        && edges[k].raw@ == v.raw@
                &&& exists|j: int|
                    0 <= j < steps.len() && steps[j].reachable && #[trigger] steps[j].path@
                        == v.importer@
            },
{
    assert forall|i: int| 0 <= i < steps.len() && steps[i].reachable && steps[i].via is Some implies {
        let v = steps[i].via.unwrap();
        &&& exists|k: int|
            0 <= k < edges.len() && #[trigger] edges[k].importer@ == v.importer@
                && edges[k].imported@ == steps[i].path@ && edges[k].decl_line == v.line
                && edges[k].raw@ == v.raw@
        &&& exists|j: int|
            0 <= j < steps.len() && steps[j].reachable && #[trigger] steps[j].path@ == v.importer@
    } by {
        assert(order[i] < paths.len());
        assert(i < reach.len());
        assert(steps[i] == rsteps[i]);
        assert(order[i] == reach[i]);
        assert(reach[i] < paths.len());
        let v = steps[i].via.unwrap();
        assert(via_ok(rsteps[i].via, rsteps[i].path@, paths, edges, vis));
        let w = choose|w: int| 0 <= w < paths.len() && vis[w] && #[trigger] paths[w]@ == v.importer@;
        assert(vis[(w as usize) as int]);
        assert(reach.contains(w as usize));
        let j = choose|j: int| 0 <= j < reach.len() && reach[j] == w as usize;
        assert(order[j] == reach[j]);
        assert(order[j] < paths.len());
        assert(steps[j].path@ == v.importer@);
    }
}

proof fn lemma_final_closure(
    edges: Seq<ImportEdge>,
    typeable: Seq<String>,
    paths: Seq<String>,
    from: Seq<Option<usize>>,
    to: Seq<Option<usize>>,
    vis: Seq<bool>,
    reach: Seq<usize>,
    order: Seq<usize>,
    steps: Seq<FlowStep>,
)
    requires
        strictly_sorted(views(paths)),
        forall|p: Seq<char>| views(paths).contains(p) <==> views(typeable).contains(p),
        graph_ok(paths, edges, from, to),
        closed(from, to, vis, Set::empty()),
        vis.len() == paths.len(),
        forall|v: usize| v < paths.len() ==> (vis[v as int] <==> reach.contains(v)),
        layout_ok(paths, reach.len() as int, order, steps),
        order.take(reach.len() as int) == reach,
    ensures
        forall|i: int, k: int|
            #![trigger edges[k], steps[i]]
            0 <= i < steps.len() && steps[i].reachable && 0 <= k < edges.len()
                && edges[k].importer@ == steps[i].path@ && views(typeable).contains(
                edges[k].imported@,
            ) ==> exists|j: int|
                0 <= j < steps.len() && steps[j].reachable && #[trigger] steps[j].path@
                    == edges[k].imported@,
{
    assert forall|i: int, k: int|
        #![trigger edges[k], steps[i]]
        0 <= i < steps.len() && steps[i].reachable && 0 <= k < edges.len()
            && edges[k].importer@ == steps[i].path@ && views(typeable).contains(
            edges[k].imported@,
        ) implies exists|j: int|
        0 <= j < steps.len() && steps[j].reachable && #[trigger] steps[j].path@ == edges[k].imported@ by {
        assert(order[i] < paths.len());
        assert(i < reach.len());
        assert(order[i] == reach[i]);
        let v = order[i] as int;
        assert(reach.contains(order[i]));
        assert(vis[v]);
        assert(views(paths).contains(edges[k].imported@));
        match from[k] {
            Some(fi) => {
                if fi as int != v {
                    lemma_distinct_nodes(paths, fi as int, v);
                }
            },
            None => {
                assert(views(paths)[v] == edges[k].importer@);
            },
        }
        match to[k] {
            Some(ti) => {},
            None => {
                let vp = views(paths);
                let q = choose|q: int| 0 <= q < vp.len() && vp[q] == edges[k].imported@;
                assert(vp[q] == edges[k].imported@);
            },
        }
        assert(edge_from(from, to, k, v));
        let w = to[k].unwrap();
        assert(vis[w as int]);
        assert(reach.contains(w));
        let j = choose|j: int| 0 <= j < reach.len() && reach[j] == w;
        assert(order[j] == reach[j]);
        assert(order[j] < paths.len());
        assert(steps[j].path@ == edges[k].imported@);
    }
}

proof fn lemma_count_reachable_prefix(steps: Seq<FlowStep>, r: int)
    requires
        0 <= r <= steps.len(),
        forall|p: int| 0 <= p < steps.len() ==> (#[trigger] steps[p].reachable <==> p < r),
    ensures
        count_reachable(steps) == r,
    decreases steps.len(),
{
    if steps.len() > 0 {
        if r == steps.len() {
            lemma_count_reachable_prefix(steps.drop_last(), r - 1);
        } else {
            lemma_count_reachable_prefix(steps.drop_last(), r);
        }
    }
}

} // verus!
