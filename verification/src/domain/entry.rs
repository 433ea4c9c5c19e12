//! Entry-point detection from conventions, manifests, and the import graph.

use vstd::prelude::*;

use crate::domain::content::ImportEdge;
use crate::domain::dependency::{unvisited, views};
use crate::text::{
    chars_of, copy_string, count_char, count_chars, ends_with, ends_with_chars, lemma_lex_asymmetric,
    lemma_lex_irreflexive, lemma_lex_total, lemma_lex_transitive, lemma_push_contains,
    lemma_insert_contains, lex_lt, starts_with, starts_with_chars, str_eq, str_less, subrange,
    contains_char,
};

verus! {

/// A typeable file that can start a flow traversal.
#[derive(Debug, Clone, PartialEq, Eq)]
pub struct EntryCandidate {
    pub path: String,
    pub reason: &'static str,
}

/// `src/bin/<name>.rs`.
pub open spec fn is_src_bin_rs_spec(p: Seq<char>) -> bool {
    starts_with(p, "src/bin/"@) && {
        let rest = p.skip(8);
        ends_with(rest, ".rs"@) && !rest.contains('/')
    }
}

/// `cmd/.../main.go`.
pub open spec fn is_cmd_main_go_spec(p: Seq<char>) -> bool {
    starts_with(p, "cmd/"@) && ends_with(p, "/main.go"@)
}

/// Rank of an executable entry point, `None` when `p` is not one.
pub open spec fn exec_rank_spec(p: Seq<char>) -> Option<nat> {
    if p == "src/main.rs"@ {
        Some(0)
    } else if is_src_bin_rs_spec(p) {
        Some(1)
    } else if p == "main.go"@ {
        Some(2)
    } else if is_cmd_main_go_spec(p) {
        Some(3)
    } else if p == "__main__.py"@ {
        Some(4)
    } else if p == "main.py"@ {
        Some(5)
    } else if p == "manage.py"@ {
        Some(6)
    } else if p == "app.py"@ {
        Some(7)
    } else {
        None
    }
}

/// Rank of an application entry point, `None` when `p` is not one.
pub open spec fn app_rank_spec(p: Seq<char>) -> Option<nat> {
    if p == "src/index.ts"@ || p == "src/index.tsx"@ || p == "src/index.js"@ || p
        == "src/index.jsx"@ {
        Some(0)
    } else if p == "src/main.ts"@ || p == "src/main.tsx"@ || p == "src/main.js"@ || p
        == "src/main.jsx"@ {
        Some(1)
    } else if p == "index.ts"@ || p == "index.tsx"@ || p == "index.js"@ || p == "index.jsx"@ {
        Some(2)
    } else if p == "app/page.tsx"@ {
        Some(3)
    } else if p == "pages/index.ts"@ || p == "pages/index.tsx"@ || p == "pages/index.js"@ || p
        == "pages/index.jsx"@ {
        Some(4)
    } else {
        None
    }
}

pub open spec fn rank_of(p: Seq<char>, app: bool) -> Option<nat> {
    if app {
        app_rank_spec(p)
    } else {
        exec_rank_spec(p)
    }
}

/// Order of convention candidates: by rank, then by path.
pub open spec fn key_lt(a: Seq<char>, b: Seq<char>, app: bool) -> bool {
    let ra = rank_of(a, app).unwrap();
    let rb = rank_of(b, app).unwrap();
    ra < rb || (ra == rb && lex_lt(a, b))
}

/// Strictly increasing by rank, then path.
pub open spec fn sorted_by_rank(s: Seq<Seq<char>>, app: bool) -> bool {
    forall|i: int, j: int| 0 <= i < j < s.len() ==> key_lt(s[i], s[j], app)
}

/// A candidate as a pair of plain texts.
pub open spec fn cand_view(c: EntryCandidate) -> (Seq<char>, Seq<char>) {
    (c.path@, c.reason@)
}

pub open spec fn cand_views(s: Seq<EntryCandidate>) -> Seq<(Seq<char>, Seq<char>)> {
    s.map_values(|c: EntryCandidate| cand_view(c))
}

pub open spec fn firsts(s: Seq<(Seq<char>, Seq<char>)>) -> Seq<Seq<char>> {
    s.map_values(|c: (Seq<char>, Seq<char>)| c.0)
}

/// The candidates of a stream that are typeable, each path kept at its first
/// occurrence.
pub open spec fn admitted(
    items: Seq<(Seq<char>, Seq<char>)>,
    typeable: Seq<Seq<char>>,
) -> Seq<(Seq<char>, Seq<char>)>
    decreases items.len(),
{
    if items.len() == 0 {
        Seq::empty()
    } else {
        let prev = admitted(items.drop_last(), typeable);
        let c = items.last();
        if typeable.contains(c.0) && !firsts(prev).contains(c.0) {
            prev.push(c)
        } else {
            prev
        }
    }
}

/// Each path tagged with the same reason.
pub open spec fn tagged(paths: Seq<Seq<char>>, reason: Seq<char>) -> Seq<(Seq<char>, Seq<char>)> {
    paths.map_values(|p: Seq<char>| (p, reason))
}

pub open spec fn crate_roots() -> Seq<(Seq<char>, Seq<char>)> {
    seq![("src/lib.rs"@, "crate root"@), ("lib.rs"@, "crate root"@), ("src/mod.rs"@, "crate root"@)]
}

/// `p` is the target of an import between typeable files.
pub open spec fn is_imported(p: Seq<char>, typeable: Seq<Seq<char>>, edges: Seq<ImportEdge>) -> bool {
    exists|k: int|
        0 <= k < edges.len() && typeable.contains(edges[k].importer@) && typeable.contains(
            edges[k].imported@,
        ) && #[trigger] edges[k].imported@ == p
}

/// The first position of `p` in `ts`.
pub open spec fn first_pos(ts: Seq<Seq<char>>, p: Seq<char>) -> Option<int>
    decreases ts.len(),
{
    if ts.len() == 0 {
        None
    } else {
        match first_pos(ts.drop_last(), p) {
            Some(i) => Some(i),
            None => if ts.last() == p {
                Some(ts.len() - 1)
            } else {
                None
            },
        }
    }
}

proof fn lemma_first_pos(ts: Seq<Seq<char>>, p: Seq<char>)
    ensures
        match first_pos(ts, p) {
            Some(i) => 0 <= i < ts.len() && ts[i] == p && forall|j: int| 0 <= j < i ==> ts[j] != p,
            None => forall|j: int| 0 <= j < ts.len() ==> ts[j] != p,
        },
    decreases ts.len(),
{
    if ts.len() > 0 {
        lemma_first_pos(ts.drop_last(), p);
        assert forall|j: int| 0 <= j < ts.len() - 1 implies ts[j] == ts.drop_last()[j] by {}
    }
}

/// The imports among typeable files, as links between their first positions.
pub open spec fn import_links(ts: Seq<Seq<char>>, edges: Seq<ImportEdge>) -> Seq<(usize, usize)>
    decreases edges.len(),
{
    if edges.len() == 0 {
        Seq::empty()
    } else {
        let prev = import_links(ts, edges.drop_last());
        match (first_pos(ts, edges.last().importer@), first_pos(ts, edges.last().imported@)) {
            (Some(a), Some(b)) => prev.push((a as usize, b as usize)),
            _ => prev,
        }
    }
}

/// The file at position `q` is a better graph estimate than the one at `b`:
/// it reaches more files, or as many from a shallower path, or from a
/// smaller path at the same depth.
pub open spec fn graph_better(ts: Seq<Seq<char>>, edges: Seq<ImportEdge>, q: int, b: int) -> bool {
    let l = import_links(ts, edges);
    let rq = reach_size(l, q, ts.len());
    let rb = reach_size(l, b, ts.len());
    let dq = count_char(ts[q], '/');
    let db = count_char(ts[b], '/');
    rq > rb || (rq == rb && (dq < db || (dq == db && lex_lt(ts[q], ts[b]))))
}

/// Position `q` holds a typeable file that no typeable file imports.
pub open spec fn is_root(ts: Seq<Seq<char>>, edges: Seq<ImportEdge>, q: int) -> bool {
    0 <= q < ts.len() && !is_imported(ts[q], ts, edges)
}

/// Position `b` holds the best root: none is better, and every root before
/// it is worse.
pub open spec fn graph_best(ts: Seq<Seq<char>>, edges: Seq<ImportEdge>, b: int) -> bool {
    &&& is_root(ts, edges, b)
    &&& forall|q: int| is_root(ts, edges, q) ==> !graph_better(ts, edges, q, b)
    &&& forall|q: int| 0 <= q < b && is_root(ts, edges, q) ==> graph_better(ts, edges, b, q)
}

/// The graph estimate is the typeable file that nothing imports and that
/// reaches the most files (ties: the shallower path, then the smaller one);
/// there is one whenever such a file exists.
pub open spec fn graph_pick_ok(
    g: Option<Seq<char>>,
    typeable: Seq<Seq<char>>,
    edges: Seq<ImportEdge>,
) -> bool {
    match g {
        Some(p) => typeable.contains(p) && !is_imported(p, typeable, edges) && exists|b: int|
            graph_best(typeable, edges, b) && #[trigger] typeable[b] == p,
        None => forall|p: Seq<char>| typeable.contains(p) ==> is_imported(p, typeable, edges),
    }
}

proof fn lemma_better_irreflexive(ts: Seq<Seq<char>>, edges: Seq<ImportEdge>, q: int)
    ensures
        !graph_better(ts, edges, q, q),
{
    lemma_lex_irreflexive(ts[q]);
}

/// A file better than `b` is better than any file no better than `b`.
proof fn lemma_better_order(ts: Seq<Seq<char>>, edges: Seq<ImportEdge>, q: int, b: int, r: int)
    requires
        graph_better(ts, edges, q, b),
        !graph_better(ts, edges, r, b),
    ensures
        graph_better(ts, edges, q, r),
        !graph_better(ts, edges, r, q),
{
    lemma_lex_total(ts[r], ts[b]);
    lemma_lex_asymmetric(ts[q], ts[r]);
    lemma_lex_irreflexive(ts[q]);
    if lex_lt(ts[b], ts[r]) {
        if lex_lt(ts[q], ts[b]) {
            lemma_lex_transitive(ts[q], ts[b], ts[r]);
        }
    }
}

pub open spec fn graph_items(g: Option<Seq<char>>) -> Seq<(Seq<char>, Seq<char>)> {
    match g {
        Some(p) => seq![(p, "graph"@)],
        None => Seq::empty(),
    }
}

fn is_src_bin_rs(path: &[char]) -> (b: bool)
    ensures
        b == is_src_bin_rs_spec(path@),
{
    let prefix = chars_of("src/bin/");
    proof {
        reveal_strlit("src/bin/");
    }
    if !starts_with_chars(path, prefix.as_slice()) {
        return false;
    }
    let rest = subrange(path, 8, path.len());
    assert(rest@ =~= path@.skip(8));
    let suffix = chars_of(".rs");
    ends_with_chars(rest.as_slice(), suffix.as_slice()) && !contains_char(rest.as_slice(), '/')
}

fn is_cmd_main_go(path: &[char]) -> (b: bool)
    ensures
        b == is_cmd_main_go_spec(path@),
{
    let prefix = chars_of("cmd/");
    let suffix = chars_of("/main.go");
    starts_with_chars(path, prefix.as_slice()) && ends_with_chars(path, suffix.as_slice())
}

fn is(path: &[char], lit: &str) -> (b: bool)
    ensures
        b == (path@ == lit@),
{
    let l = chars_of(lit);
    crate::text::eq_chars(path, l.as_slice())
}

fn exec_rank(path: &[char]) -> (r: Option<u8>)
    ensures
        match exec_rank_spec(path@) {
            Some(k) => r == Some(k as u8),
            None => r is None,
        },
{
    if is(path, "src/main.rs") {
        Some(0)
    } else if is_src_bin_rs(path) {
        Some(1)
    } else if is(path, "main.go") {
        Some(2)
    } else if is_cmd_main_go(path) {
        Some(3)
    } else if is(path, "__main__.py") {
        Some(4)
    } else if is(path, "main.py") {
        Some(5)
    } else if is(path, "manage.py") {
        Some(6)
    } else if is(path, "app.py") {
        Some(7)
    } else {
        None
    }
}

fn app_rank(path: &[char]) -> (r: Option<u8>)
    ensures
        match app_rank_spec(path@) {
            Some(k) => r == Some(k as u8),
            None => r is None,
        },
{
    if is(path, "src/index.ts") || is(path, "src/index.tsx") || is(path, "src/index.js") || is(
        path,
        "src/index.jsx",
    ) {
        Some(0)
    } else if is(path, "src/main.ts") || is(path, "src/main.tsx") || is(path, "src/main.js") || is(
        path,
        "src/main.jsx",
    ) {
        Some(1)
    } else if is(path, "index.ts") || is(path, "index.tsx") || is(path, "index.js") || is(
        path,
        "index.jsx",
    ) {
        Some(2)
    } else if is(path, "app/page.tsx") {
        Some(3)
    } else if is(path, "pages/index.ts") || is(path, "pages/index.tsx") || is(
        path,
        "pages/index.js",
    ) || is(path, "pages/index.jsx") {
        Some(4)
    } else {
        None
    }
}

fn rank(path: &[char], app: bool) -> (r: Option<u8>)
    ensures
        match rank_of(path@, app) {
            Some(k) => r == Some(k as u8),
            None => r is None,
        },
{
    if app {
        app_rank(path)
    } else {
        exec_rank(path)
    }
}

proof fn lemma_key_total(a: Seq<char>, b: Seq<char>, app: bool)
    requires
        rank_of(a, app) is Some,
        rank_of(b, app) is Some,
    ensures
        a == b || key_lt(a, b, app) || key_lt(b, a, app),
{
    lemma_lex_total(a, b);
}

proof fn lemma_key_transitive(a: Seq<char>, b: Seq<char>, c: Seq<char>, app: bool)
    requires
        key_lt(a, b, app),
        key_lt(b, c, app),
    ensures
        key_lt(a, c, app),
{
    let ra = rank_of(a, app).unwrap();
    let rb = rank_of(b, app).unwrap();
    let rc = rank_of(c, app).unwrap();
    if ra == rb && rb == rc {
        lemma_lex_transitive(a, b, c);
    }
}

proof fn lemma_key_irreflexive(a: Seq<char>, app: bool)
    ensures
        !key_lt(a, a, app),
{
    lemma_lex_irreflexive(a);
}

/// The typeable convention candidates of one kind, by rank then path, each once.
fn ranked_candidates(typeable: &[String], app: bool) -> (out: Vec<String>)
    ensures
        sorted_by_rank(views(out@), app),
        forall|p: Seq<char>|
            views(out@).contains(p) <==> (views(typeable@).contains(p) && rank_of(p, app) is Some),
{
    let mut out: Vec<String> = Vec::new();
    let mut k: usize = 0;
    while k < typeable.len()
        invariant
            k <= typeable@.len(),
            sorted_by_rank(views(out@), app),
            forall|p: Seq<char>|
                views(out@).contains(p) <==> (views(typeable@.take(k as int)).contains(p)
                    && rank_of(p, app) is Some),
        decreases typeable.len() - k,
    {
        let x = &typeable[k];
        let xc = chars_of(x.as_str());
        let ghost old_out = views(out@);
        proof {
            lemma_push_contains(views(typeable@.take(k as int)), x@, x@);
            assert(views(typeable@.take(k + 1)) =~= views(typeable@.take(k as int)).push(x@));
        }
        let rx = rank(xc.as_slice(), app);
        match rx {
            None => {
                assert forall|p: Seq<char>| views(out@).contains(p) <==> (views(
                    typeable@.take(k + 1),
                ).contains(p) && rank_of(p, app) is Some) by {
                    lemma_push_contains(views(typeable@.take(k as int)), x@, p);
                }
            },
            Some(r) => {
                let mut j: usize = 0;
                let mut searching = true;
                while searching && j < out.len()
                    invariant
                        j <= out@.len(),
                        views(out@) == old_out,
                        xc@ == x@,
                        rank_of(x@, app) == Some(r as nat),
                        forall|q: Seq<char>|
                            old_out.contains(q) ==> rank_of(q, app) is Some,
                        forall|i: int| 0 <= i < j ==> key_lt(#[trigger] old_out[i], x@, app),
                        !searching ==> j < out@.len() && !key_lt(old_out[j as int], x@, app),
                    decreases out.len() - j + if searching {
                        1int
                    } else {
                        0int
                    },
                {
                    let yc = chars_of(out[j].as_str());
                    proof {
                        assert(old_out[j as int] == out@[j as int]@);
                        assert(old_out.contains(old_out[j as int]));
                    }
                    let ry = match rank(yc.as_slice(), app) {
                        Some(v) => v,
                        None => 255,
                    };
                    assert(rank_of(yc@, app) == Some(ry as nat));
                    let less = ry < r || (ry == r && crate::text::lex_less(
                        yc.as_slice(),
                        xc.as_slice(),
                    ));
                    assert(less == key_lt(old_out[j as int], x@, app));
                    if less {
                        j += 1;
                    } else {
                        searching = false;
                    }
                }
                if j < out.len() && str_eq(out[j].as_str(), x.as_str()) {
                    assert(old_out[j as int] == x@);
                    assert forall|p: Seq<char>| views(out@).contains(p) <==> (views(
                        typeable@.take(k + 1),
                    ).contains(p) && rank_of(p, app) is Some) by {
                        lemma_push_contains(views(typeable@.take(k as int)), x@, p);
                        if p == x@ {
                            assert(views(out@)[j as int] == p);
                        }
                    }
                } else {
                    if j < out.len() {
                        proof {
                            assert(old_out.contains(old_out[j as int]));
                            lemma_key_total(old_out[j as int], x@, app);
                        }
                    }
                    out.insert(j, copy_string(x));
                    let ghost new_out = views(out@);
                    assert(new_out =~= old_out.insert(j as int, x@));
                    assert forall|a: int, b: int| 0 <= a < b < new_out.len() implies key_lt(
                        new_out[a],
                        new_out[b],
                        app,
                    ) by {
                        if b < j {
                        } else if b == j {
                            assert(new_out[a] == old_out[a]);
                        } else if a < j {
                            assert(new_out[a] == old_out[a]);
                            assert(new_out[b] == old_out[b - 1]);
                        } else if a == j {
                            assert(new_out[b] == old_out[b - 1]);
                            if b - 1 > j {
                                lemma_key_transitive(x@, old_out[j as int], old_out[b - 1], app);
                            }
                        } else {
                            assert(new_out[a] == old_out[a - 1]);
                            assert(new_out[b] == old_out[b - 1]);
                        }
                    }
                    assert forall|p: Seq<char>| views(out@).contains(p) <==> (views(
                        typeable@.take(k + 1),
                    ).contains(p) && rank_of(p, app) is Some) by {
                        lemma_push_contains(views(typeable@.take(k as int)), x@, p);
                        lemma_insert_contains(old_out, j as int, x@, p);
                    }
                }
            },
        }
        k += 1;
    }
    assert(typeable@.take(typeable@.len() as int) =~= typeable@);
    out
}

fn is_typeable(typeable: &[String], path: &str) -> (b: bool)
    ensures
        b == views(typeable@).contains(path@),
{
    let mut i: usize = 0;
    while i < typeable.len()
        invariant
            i <= typeable@.len(),
            forall|j: int| 0 <= j < i ==> typeable@[j]@ != path@,
        decreases typeable.len() - i,
    {
        if str_eq(typeable[i].as_str(), path) {
            assert(views(typeable@)[i as int] == path@);
            return true;
        }
        i += 1;
    }
    assert(!views(typeable@).contains(path@)) by {
        if views(typeable@).contains(path@) {
            let vt = views(typeable@);
            let q = choose|q: int| 0 <= q < vt.len() && vt[q] == path@;
            assert(typeable@[q]@ == path@);
        }
    }
    false
}

fn already_listed(out: &Vec<EntryCandidate>, path: &str) -> (b: bool)
    ensures
        b == firsts(cand_views(out@)).contains(path@),
{
    let mut i: usize = 0;
    while i < out.len()
        invariant
            i <= out@.len(),
            forall|j: int| 0 <= j < i ==> out@[j].path@ != path@,
        decreases out.len() - i,
    {
        if str_eq(out[i].path.as_str(), path) {
            assert(firsts(cand_views(out@))[i as int] == path@);
            return true;
        }
        i += 1;
    }
    assert(!firsts(cand_views(out@)).contains(path@)) by {
        let f = firsts(cand_views(out@));
        if f.contains(path@) {
            let q = choose|q: int| 0 <= q < f.len() && f[q] == path@;
            assert(out@[q].path@ == path@);
        }
    }
    false
}

/// Offer one candidate: kept when typeable and not listed yet.
fn offer(
    out: &mut Vec<EntryCandidate>,
    typeable: &[String],
    path: String,
    reason: &'static str,
    Ghost(items): Ghost<Seq<(Seq<char>, Seq<char>)>>,
)
    requires
        cand_views(old(out)@) == admitted(items, views(typeable@)),
    ensures
        cand_views(final(out)@) == admitted(items.push((path@, reason@)), views(typeable@)),
{
    assert(items.push((path@, reason@)).drop_last() =~= items);
    if is_typeable(typeable, path.as_str()) && !already_listed(out, path.as_str()) {
        out.push(EntryCandidate { path, reason });
        assert(cand_views(out@) =~= cand_views(old(out)@).push((path@, reason@)));
    }
}

/// Offer a list of paths with one reason.
fn offer_all(
    out: &mut Vec<EntryCandidate>,
    typeable: &[String],
    paths: &Vec<String>,
    reason: &'static str,
    Ghost(items): Ghost<Seq<(Seq<char>, Seq<char>)>>,
)
    requires
        cand_views(old(out)@) == admitted(items, views(typeable@)),
    ensures
        cand_views(final(out)@) == admitted(items + tagged(views(paths@), reason@), views(typeable@)),
{
    let mut i: usize = 0;
    while i < paths.len()
        invariant
            i <= paths@.len(),
            cand_views(out@) == admitted(
                items + tagged(views(paths@.take(i as int)), reason@),
                views(typeable@),
            ),
        decreases paths.len() - i,
    {
        let ghost before = items + tagged(views(paths@.take(i as int)), reason@);
        offer(out, typeable, copy_string(&paths[i]), reason, Ghost(before));
        assert(items + tagged(views(paths@.take(i + 1)), reason@) =~= before.push(
            (paths@[i as int]@, reason@),
        ));
        i += 1;
    }
    assert(paths@.take(paths@.len() as int) =~= paths@);
}

/// Detect entry candidates in priority order. The first item is the default.
///
/// Paths not in `typeable` are dropped. Duplicates keep the earliest reason.
pub fn detect_entry_candidates(
    typeable: &[String],
    edges: &[ImportEdge],
    manifest_hints: &[EntryCandidate],
) -> (out: Vec<EntryCandidate>)
    ensures
        exists|bins: Seq<Seq<char>>, apps: Seq<Seq<char>>, g: Option<Seq<char>>|
            {
                &&& sorted_by_rank(bins, false)
                &&& forall|p: Seq<char>|
                    bins.contains(p) <==> (views(typeable@).contains(p) && exec_rank_spec(p) is Some)
                &&& sorted_by_rank(apps, true)
                &&& forall|p: Seq<char>|
                    apps.contains(p) <==> (views(typeable@).contains(p) && app_rank_spec(p) is Some)
                &&& graph_pick_ok(g, views(typeable@), edges@)
                &&& cand_views(out@) == admitted(
                    cand_views(manifest_hints@) + tagged(bins, "bin"@) + tagged(apps, "app"@)
                        + crate_roots() + graph_items(g),
                    views(typeable@),
                )
            },
{
    let mut out: Vec<EntryCandidate> = Vec::new();
    let mut i: usize = 0;
    while i < manifest_hints.len()
        invariant
            i <= manifest_hints@.len(),
            cand_views(out@) == admitted(cand_views(manifest_hints@.take(i as int)), views(typeable@)),
        decreases manifest_hints.len() - i,
    {
        let hint = &manifest_hints[i];
        let ghost before = cand_views(manifest_hints@.take(i as int));
        offer(&mut out, typeable, copy_string(&hint.path), hint.reason, Ghost(before));
        assert(cand_views(manifest_hints@.take(i + 1)) =~= before.push(cand_view(*hint)));
        i += 1;
    }
    assert(manifest_hints@.take(manifest_hints@.len() as int) =~= manifest_hints@);
    let ghost s0 = cand_views(manifest_hints@);
    let bins = ranked_candidates(typeable, false);
    offer_all(&mut out, typeable, &bins, "bin", Ghost(s0));
    let ghost s1 = s0 + tagged(views(bins@), "bin"@);
    let apps = ranked_candidates(typeable, true);
    offer_all(&mut out, typeable, &apps, "app", Ghost(s1));
    let ghost s2 = s1 + tagged(views(apps@), "app"@);
    offer(&mut out, typeable, "src/lib.rs".to_owned(), "crate root", Ghost(s2));
    let ghost s3 = s2.push(("src/lib.rs"@, "crate root"@));
    offer(&mut out, typeable, "lib.rs".to_owned(), "crate root", Ghost(s3));
    let ghost s4 = s3.push(("lib.rs"@, "crate root"@));
    offer(&mut out, typeable, "src/mod.rs".to_owned(), "crate root", Ghost(s4));
    let ghost s5 = s4.push(("src/mod.rs"@, "crate root"@));
    assert(s5 =~= s2 + crate_roots());
    let g = graph_estimate(typeable, edges);
    let ghost gv: Option<Seq<char>> = if g is Some {
        Some(g.unwrap()@)
    } else {
        None
    };
    match g {
        Some(p) => {
            offer(&mut out, typeable, p, "graph", Ghost(s5));
            assert(s5.push((gv.unwrap(), "graph"@)) =~= s5 + graph_items(gv));
        },
        None => {
            assert(s5 =~= s5 + graph_items(gv));
        },
    }
    assert(s5 + graph_items(gv) =~= cand_views(manifest_hints@) + tagged(views(bins@), "bin"@)
        + tagged(views(apps@), "app"@) + crate_roots() + graph_items(gv));
    out
}

/// Index of the first occurrence of each path, used as its node number.
fn first_index(typeable: &[String], path: &str) -> (r: Option<usize>)
    ensures
        match r {
            Some(i) => i < typeable@.len() && typeable@[i as int]@ == path@,
            None => !views(typeable@).contains(path@),
        },
        match first_pos(views(typeable@), path@) {
            Some(i) => r == Some(i as usize),
            None => r is None,
        },
{
    proof {
        lemma_first_pos(views(typeable@), path@);
    }
    let mut i: usize = 0;
    while i < typeable.len()
        invariant
            i <= typeable@.len(),
            forall|j: int| 0 <= j < i ==> typeable@[j]@ != path@,
        decreases typeable.len() - i,
    {
        if str_eq(typeable[i].as_str(), path) {
            proof {
                lemma_first_pos(views(typeable@), path@);
                let ts = views(typeable@);
                assert(ts[i as int] == path@);
                assert forall|j: int| 0 <= j < i implies ts[j] != path@ by {
                    assert(ts[j] == typeable@[j]@);
                }
            }
            return Some(i);
        }
        i += 1;
    }
    proof {
        lemma_first_pos(views(typeable@), path@);
        let ts = views(typeable@);
        assert forall|j: int| 0 <= j < ts.len() implies ts[j] != path@ by {
            assert(ts[j] == typeable@[j]@);
        }
    }
    assert(!views(typeable@).contains(path@)) by {
        if views(typeable@).contains(path@) {
            let vt = views(typeable@);
            let q = choose|q: int| 0 <= q < vt.len() && vt[q] == path@;
            assert(typeable@[q]@ == path@);
        }
    }
    None
}

/// Some link goes from node `u` to node `w`.
pub open spec fn linked(links: Seq<(usize, usize)>, u: int, w: int) -> bool {
    exists|k: int| 0 <= k < links.len() && links[k].0 == u && links[k].1 == w
}

/// Step `i` of the node sequence `p` follows a link.
pub open spec fn step_ok(links: Seq<(usize, usize)>, p: Seq<int>, i: int) -> bool {
    linked(links, p[i], p[i + 1])
}

/// `p` is a non-empty sequence of nodes, each linked to the next.
pub open spec fn is_walk(links: Seq<(usize, usize)>, p: Seq<int>) -> bool {
    p.len() > 0 && forall|i: int| 0 <= i < p.len() - 1 ==> #[trigger] step_ok(links, p, i)
}

/// Node `v` can be reached from node `s` by following links (in no step at all
/// when `v == s`).
pub open spec fn reaches(links: Seq<(usize, usize)>, s: int, v: int) -> bool {
    exists|p: Seq<int>| #[trigger] is_walk(links, p) && p[0] == s && p.last() == v
}

/// For each of the nodes `0..n`, whether `start` reaches it.
pub open spec fn reach_flags(links: Seq<(usize, usize)>, start: int, n: nat) -> Seq<bool> {
    Seq::new(n, |v: int| reaches(links, start, v))
}

/// How many of the nodes `0..n` `start` reaches.
pub open spec fn reach_size(links: Seq<(usize, usize)>, start: int, n: nat) -> nat {
    (n - unvisited(reach_flags(links, start, n))) as nat
}

proof fn lemma_reaches_self(links: Seq<(usize, usize)>, s: int)
    ensures
        reaches(links, s, s),
{
    let p = seq![s];
    assert(is_walk(links, p));
}

proof fn lemma_reaches_step(links: Seq<(usize, usize)>, s: int, k: int)
    requires
        0 <= k < links.len(),
        reaches(links, s, links[k].0 as int),
    ensures
        reaches(links, s, links[k].1 as int),
{
    let p = choose|p: Seq<int>| #[trigger] is_walk(links, p) && p[0] == s && p.last() == links[k].0 as int;
    let q = p.push(links[k].1 as int);
    assert forall|i: int| 0 <= i < q.len() - 1 implies #[trigger] step_ok(links, q, i) by {
        if i < p.len() - 1 {
            assert(step_ok(links, p, i));
            assert(q[i] == p[i] && q[i + 1] == p[i + 1]);
        } else {
            assert(q[i] == links[k].0 as int && q[i + 1] == links[k].1 as int);
        }
    }
    assert(is_walk(links, q));
    assert(q[0] == s && q.last() == links[k].1 as int);
}

/// Every node on a walk from a marked node is marked, when the marks are
/// closed under links.
proof fn lemma_closed_walk(links: Seq<(usize, usize)>, marks: Seq<bool>, p: Seq<int>)
    requires
        is_walk(links, p),
        0 <= p[0] < marks.len(),
        marks[p[0]],
        forall|k: int| 0 <= k < links.len() ==> links[k].0 < marks.len() && links[k].1 < marks.len(),
        forall|k: int| 0 <= k < links.len() && #[trigger] marks[links[k].0 as int] ==> marks[links[k].1 as int],
    ensures
        0 <= p.last() < marks.len(),
        marks[p.last()],
    decreases p.len(),
{
    if p.len() > 1 {
        let q = p.drop_last();
        assert forall|i: int| 0 <= i < q.len() - 1 implies #[trigger] step_ok(links, q, i) by {
            assert(step_ok(links, p, i));
        }
        lemma_closed_walk(links, marks, q);
        assert(step_ok(links, p, p.len() - 2));
        let k = choose|k: int| 0 <= k < links.len() && links[k].0 == p[p.len() - 2] && links[k].1 == p[p.len() - 1];
        assert(marks[links[k].0 as int]);
    }
}

/// Number of distinct files reachable from node `start` (itself included).
fn reachable_count(start: usize, n: usize, links: &Vec<(usize, usize)>) -> (c: usize)
    requires
        start < n,
        forall|k: int| 0 <= k < links@.len() ==> links@[k].0 < n && links@[k].1 < n,
    ensures
        c == reach_size(links@, start as int, n as nat),
{
    let mut visited: Vec<bool> = Vec::new();
    let mut i: usize = 0;
    while i < n
        invariant
            i <= n,
            visited@.len() == i,
            forall|q: int| 0 <= q < i ==> !visited@[q],
        decreases n - i,
    {
        visited.push(false);
        i += 1;
    }
    let mut stack: Vec<usize> = Vec::new();
    stack.push(start);
    let mut count: usize = 0;
    proof {
        lemma_unvisited_all_false(visited@);
        lemma_reaches_self(links@, start as int);
        assert(stack@[0] == start);
    }
    while stack.len() > 0
        invariant
            start < n,
            visited@.len() == n,
            count == n - unvisited(visited@),
            unvisited(visited@) <= n,
            forall|k: int| 0 <= k < stack@.len() ==> stack@[k] < n,
            forall|k: int| 0 <= k < links@.len() ==> links@[k].0 < n && links@[k].1 < n,
            visited@[start as int] || stack@.contains(start),
            forall|k: int|
                0 <= k < links@.len() && #[trigger] visited@[links@[k].0 as int] ==> visited@[links@[k].1 as int]
                    || stack@.contains(links@[k].1),
            forall|v: int| 0 <= v < n && #[trigger] visited@[v] ==> reaches(links@, start as int, v),
            forall|j: int| 0 <= j < stack@.len() ==> reaches(links@, start as int, #[trigger] stack@[j] as int),
        decreases unvisited(visited@), stack@.len(),
    {
        let ghost old_stack = stack@;
        let top = stack.pop().unwrap();
        assert(stack@ =~= old_stack.drop_last());
        assert(top == old_stack[old_stack.len() - 1]);
        assert(forall|x: usize| old_stack.contains(x) && x != top ==> stack@.contains(x)) by {
            assert forall|x: usize| old_stack.contains(x) && x != top implies stack@.contains(x) by {
                let j = choose|j: int| 0 <= j < old_stack.len() && old_stack[j] == x;
                assert(stack@[j] == x);
            }
        }
        assert(reaches(links@, start as int, top as int)) by {
            assert(old_stack[old_stack.len() - 1] == top);
        }
        if visited[top] {
            continue;
        }
        proof {
            lemma_unvisited_set(visited@, top as int);
        }
        let ghost old_visited = visited@;
        visited.set(top, true);
        count += 1;
        let ghost mid_stack = stack@;
        let mut k: usize = 0;
        while k < links.len()
            invariant
                k <= links@.len(),
                top < n,
                forall|q: int| 0 <= q < stack@.len() ==> stack@[q] < n,
                forall|q: int| 0 <= q < links@.len() ==> links@[q].0 < n && links@[q].1 < n,
                stack@.len() >= mid_stack.len(),
                forall|q: int| 0 <= q < mid_stack.len() ==> stack@[q] == mid_stack[q],
                forall|q: int| 0 <= q < k && links@[q].0 == top ==> stack@.contains(#[trigger] links@[q].1),
                reaches(links@, start as int, top as int),
                forall|j: int| 0 <= j < stack@.len() ==> reaches(links@, start as int, #[trigger] stack@[j] as int),
            decreases links.len() - k,
        {
            if links[k].0 == top {
                proof {
                    lemma_reaches_step(links@, start as int, k as int);
                }
                let ghost before = stack@;
                stack.push(links[k].1);
                assert(stack@[stack@.len() - 1] == links@[k as int].1);
                assert forall|q: int| 0 <= q < k && links@[q].0 == top implies stack@.contains(
                    #[trigger] links@[q].1,
                ) by {
                    let j = choose|j: int| 0 <= j < before.len() && before[j] == links@[q].1;
                    assert(stack@[j] == before[j]);
                }
            }
            k += 1;
        }
        proof {
            assert forall|x: usize| mid_stack.contains(x) implies stack@.contains(x) by {
                let j = choose|j: int| 0 <= j < mid_stack.len() && mid_stack[j] == x;
                assert(stack@[j] == x);
            }
            assert(visited@[start as int] || stack@.contains(start)) by {
                if !old_visited[start as int] && start != top {
                    assert(old_stack.contains(start));
                    assert(mid_stack.contains(start));
                }
            }
            assert forall|q: int|
                0 <= q < links@.len() && #[trigger] visited@[links@[q].0 as int] implies visited@[links@[q].1 as int]
                    || stack@.contains(links@[q].1) by {
                if links@[q].0 == top {
                    assert(stack@.contains(links@[q].1));
                } else {
                    assert(old_visited[links@[q].0 as int]);
                    if !old_visited[links@[q].1 as int] && links@[q].1 != top {
                        assert(old_stack.contains(links@[q].1));
                        assert(mid_stack.contains(links@[q].1));
                    }
                }
            }
            assert forall|v: int| 0 <= v < n && #[trigger] visited@[v] implies reaches(links@, start as int, v) by {
                if v != top {
                    assert(old_visited[v]);
                }
            }
        }
    }
    proof {
        assert forall|k: int| 0 <= k < links@.len() && #[trigger] visited@[links@[k].0 as int] implies visited@[links@[k].1 as int] by {
            assert(!stack@.contains(links@[k].1));
        }
        assert(!stack@.contains(start));
        assert forall|v: int| 0 <= v < n implies visited@[v] == reach_flags(links@, start as int, n as nat)[v] by {
            if reaches(links@, start as int, v) {
                let p = choose|p: Seq<int>| #[trigger] is_walk(links@, p) && p[0] == start as int && p.last() == v;
                lemma_closed_walk(links@, visited@, p);
            }
        }
        assert(visited@ =~= reach_flags(links@, start as int, n as nat));
    }
    count
}

proof fn lemma_unvisited_set(a: Seq<bool>, u: int)
    requires
        0 <= u < a.len(),
        !a[u],
    ensures
        unvisited(a.update(u, true)) + 1
            == unvisited(a),
        unvisited(a) <= a.len(),
    decreases a.len(),
{
    if u < a.len() - 1 {
        assert(a.update(u, true).drop_last() =~= a.drop_last().update(u, true));
        lemma_unvisited_set(a.drop_last(), u);
    } else {
        assert(a.update(u, true).drop_last() =~= a.drop_last());
        lemma_unvisited_le(a.drop_last());
    }
}

proof fn lemma_unvisited_all_false(a: Seq<bool>)
    requires
        forall|q: int| 0 <= q < a.len() ==> !a[q],
    ensures
        unvisited(a) == a.len(),
    decreases a.len(),
{
    if a.len() > 0 {
        lemma_unvisited_all_false(a.drop_last());
    }
}

proof fn lemma_unvisited_le(a: Seq<bool>)
    ensures
        unvisited(a) <= a.len(),
    decreases a.len(),
{
    if a.len() > 0 {
        lemma_unvisited_le(a.drop_last());
    }
}

/// The typeable file nothing imports that reaches the most files; ties go to
/// the shallower path, then the smaller one.
fn graph_estimate(typeable: &[String], edges: &[ImportEdge]) -> (g: Option<String>)
    ensures
        graph_pick_ok(
            match g {
                Some(p) => Some(p@),
                None => None,
            },
            views(typeable@),
            edges@,
        ),
{
    let n = typeable.len();
    let mut links: Vec<(usize, usize)> = Vec::new();
    let mut imported: Vec<bool> = Vec::new();
    let mut i: usize = 0;
    while i < n
        invariant
            i <= n,
            imported@.len() == i,
            forall|q: int| 0 <= q < i ==> !imported@[q],
        decreases n - i,
    {
        imported.push(false);
        i += 1;
    }
    let mut k: usize = 0;
    while k < edges.len()
        invariant
            k <= edges@.len(),
            n == typeable@.len(),
            imported@.len() == n,
            forall|q: int| 0 <= q < links@.len() ==> links@[q].0 < n && links@[q].1 < n,
            forall|q: int|
                0 <= q < n && imported@[q] ==> is_imported(typeable@[q]@, views(typeable@), edges@),
            forall|e: int, q: int|
                0 <= e < k && 0 <= q < n && views(typeable@).contains(edges@[e].importer@)
                    && #[trigger] edges@[e].imported@ == #[trigger] typeable@[q]@ ==> imported@[q],
            links@ == import_links(views(typeable@), edges@.take(k as int)),
        decreases edges.len() - k,
    {
        let from = first_index(typeable, edges[k].importer.as_str());
        let to = first_index(typeable, edges[k].imported.as_str());
        assert(edges@.take(k + 1).drop_last() =~= edges@.take(k as int));
        assert(edges@.take(k + 1).last() == edges@[k as int]);
        match (from, to) {
            (Some(a), Some(b)) => {
                assert(views(typeable@)[a as int] == typeable@[a as int]@);
                assert(views(typeable@)[b as int] == typeable@[b as int]@);
                links.push((a, b));
                let mut q: usize = 0;
                while q < n
                    invariant
                        q <= n,
                        n == typeable@.len(),
                        imported@.len() == n,
                        k < edges@.len(),
                        views(typeable@).contains(edges@[k as int].importer@),
                        views(typeable@).contains(edges@[k as int].imported@),
                        forall|p: int|
                            0 <= p < n && imported@[p] ==> is_imported(
                                typeable@[p]@,
                                views(typeable@),
                                edges@,
                            ),
                        forall|e: int, p: int|
                            0 <= e < k && 0 <= p < n && views(typeable@).contains(
                                edges@[e].importer@,
                            ) && #[trigger] edges@[e].imported@ == #[trigger] typeable@[p]@
                                ==> imported@[p],
                        forall|p: int|
                            0 <= p < q && edges@[k as int].imported@ == typeable@[p]@
                                ==> imported@[p],
                    decreases n - q,
                {
                    if str_eq(typeable[q].as_str(), edges[k].imported.as_str()) {
                        imported.set(q, true);
                        assert(is_imported(typeable@[q as int]@, views(typeable@), edges@)) by {
                            assert(edges@[k as int].imported@ == typeable@[q as int]@);
                        }
                    }
                    q += 1;
                }
                assert(views(typeable@)[a as int] == typeable@[a as int]@);
                assert(views(typeable@)[b as int] == typeable@[b as int]@);
            },
            _ => {
                assert forall|p: int| 0 <= p < n && views(typeable@).contains(
                    edges@[k as int].importer@,
                ) && edges@[k as int].imported@ == typeable@[p]@ implies imported@[p] by {
                    match from {
                        Some(a) => {
                            assert(views(typeable@)[p] == typeable@[p]@);
                        },
                        None => {},
                    }
                }
            },
        }
        k += 1;
    }
    assert(edges@.take(edges@.len() as int) =~= edges@);
    let mut best: Option<usize> = None;
    let mut best_reach: usize = 0;
    let mut best_depth: usize = 0;
    let mut q: usize = 0;
    while q < n
        invariant
            q <= n,
            n == typeable@.len(),
            imported@.len() == n,
            forall|l: int| 0 <= l < links@.len() ==> links@[l].0 < n && links@[l].1 < n,
            forall|p: int|
                0 <= p < n && imported@[p] ==> is_imported(typeable@[p]@, views(typeable@), edges@),
            forall|e: int, p: int|
                0 <= e < edges@.len() && 0 <= p < n && views(typeable@).contains(edges@[e].importer@)
                    && #[trigger] edges@[e].imported@ == #[trigger] typeable@[p]@ ==> imported@[p],
            match best {
                Some(b) => b < n && !imported@[b as int],
                None => forall|p: int| 0 <= p < q ==> imported@[p],
            },
            links@ == import_links(views(typeable@), edges@),
            match best {
                Some(b) => {
                    &&& b < q
                    &&& best_reach == reach_size(links@, b as int, n as nat)
                    &&& best_depth == count_char(typeable@[b as int]@, '/')
                    &&& forall|r: int|
                        0 <= r < q && !imported@[r] ==> !graph_better(views(typeable@), edges@, r, b as int)
                    &&& forall|r: int|
                        0 <= r < b && !imported@[r] ==> graph_better(views(typeable@), edges@, b as int, r)
                },
                None => true,
            },
        decreases n - q,
    {
        if !imported[q] {
            let reach = reachable_count(q, n, &links);
            let cs = chars_of(typeable[q].as_str());
            let depth = count_chars(cs.as_slice(), '/');
            let ghost ts = views(typeable@);
            assert(ts[q as int] == typeable@[q as int]@);
            let better = match best {
                None => true,
                Some(b) => {
                    if reach != best_reach {
                        reach > best_reach
                    } else if depth != best_depth {
                        depth < best_depth
                    } else {
                        str_less(typeable[q].as_str(), typeable[b].as_str())
                    }
                },
            };
            proof {
                lemma_better_irreflexive(ts, edges@, q as int);
                match best {
                    Some(b) => {
                        assert(ts[b as int] == typeable@[b as int]@);
                        assert(better == graph_better(ts, edges@, q as int, b as int));
                        if better {
                            assert forall|r: int| 0 <= r < q && !imported@[r] implies graph_better(
                                ts,
                                edges@,
                                q as int,
                                r,
                            ) && !graph_better(ts, edges@, r, q as int) by {
                                lemma_better_order(ts, edges@, q as int, b as int, r);
                            }
                        }
                    },
                    None => {},
                }
            }
            if better {
                best = Some(q);
                best_reach = reach;
                best_depth = depth;
            }
        }
        q += 1;
    }
    match best {
        Some(b) => {
            assert(views(typeable@)[b as int] == typeable@[b as int]@);
            assert(!is_imported(typeable@[b as int]@, views(typeable@), edges@)) by {
                if is_imported(typeable@[b as int]@, views(typeable@), edges@) {
                    let e = choose|e: int|
                        0 <= e < edges@.len() && views(typeable@).contains(edges@[e].importer@)
                            && views(typeable@).contains(edges@[e].imported@)
                            && #[trigger] edges@[e].imported@ == typeable@[b as int]@;
                    assert(imported@[b as int]);
                }
            }
            proof {
                let ts = views(typeable@);
                assert forall|r: int| is_root(ts, edges@, r) implies !graph_better(ts, edges@, r, b as int) by {
                    assert(ts[r] == typeable@[r]@);
                    if imported@[r] {
                        assert(is_imported(typeable@[r]@, ts, edges@));
                    }
                }
                assert forall|r: int| 0 <= r < b && is_root(ts, edges@, r) implies graph_better(
                    ts,
                    edges@,
                    b as int,
                    r,
                ) by {
                    assert(ts[r] == typeable@[r]@);
                    if imported@[r] {
                        assert(is_imported(typeable@[r]@, ts, edges@));
                    }
                }
                assert(graph_best(ts, edges@, b as int));
            }
            Some(copy_string(&typeable[b]))
        },
        None => {
            assert forall|p: Seq<char>| views(typeable@).contains(p) implies is_imported(
                p,
                views(typeable@),
                edges@,
            ) by {
                let vt = views(typeable@);
                let q = choose|q: int| 0 <= q < vt.len() && vt[q] == p;
                assert(imported@[q]);
            }
            None
        },
    }
}

} // verus!
