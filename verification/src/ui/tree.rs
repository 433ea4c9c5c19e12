//! File tree view model: the rows of the repository tree, which directories
//! are open, the filter, and where the cursor and the scroll offset stand.

use vstd::prelude::*;

use crate::domain::content::{FileProgress, FileStatus, ManualOverride, RepoProgress, SkipReason};
use crate::domain::dependency::{count_reachable, count_reachable_done, file_has_status, FlowOrder, FlowStep};
use crate::domain::progress::{dir_sums, directory_progress, lemma_dir_sums_bounded};
use crate::text::{
    ascii_lower, ascii_lower_chars, chars_of, ends_with, find, find_chars, push_chars, push_str,
    rsplit_once, rsplit_once_chars, split_char, split_on, starts_with, string_of, trim, trim_chars,
};
use crate::ui::fx::keep;

verus! {

#[derive(Debug, Clone, PartialEq, Eq)]
pub enum TreeRowKind {
    Dir { path: String },
    File { path: String },
}

#[derive(Debug, Clone, PartialEq, Eq)]
pub struct TreeRow {
    pub kind: TreeRowKind,
    pub depth: usize,
    /// Display name (file name or directory name without trailing slash).
    pub name: String,
    /// `(completed, total)` normalized line counts; `None` for skipped files.
    pub progress: Option<(usize, usize)>,
    /// For directories: `(done_files, typeable_files)`. `None` for files.
    pub file_counts: Option<(usize, usize)>,
    /// File status; `None` for directories.
    pub status: Option<FileStatus>,
    /// Automatic skip reason for skipped files.
    pub skip_reason: Option<SkipReason>,
    /// True when the user skipped this file by hand.
    pub manual_skip: bool,
}

/// The path a row stands for.
pub open spec fn row_path_spec(r: TreeRow) -> Seq<char> {
    match r.kind {
        TreeRowKind::Dir { path } => path@,
        TreeRowKind::File { path } => path@,
    }
}

pub open spec fn is_dir_row(r: TreeRow) -> bool {
    r.kind is Dir
}

/// A tree row as plain values.
pub ghost struct RowView {
    pub dir: bool,
    pub path: Seq<char>,
    pub depth: nat,
    pub name: Seq<char>,
    pub progress: Option<(usize, usize)>,
    pub file_counts: Option<(usize, usize)>,
    pub status: Option<FileStatus>,
    pub skip_reason: Option<SkipReason>,
    pub manual_skip: bool,
}

pub open spec fn rv(r: TreeRow) -> RowView {
    RowView {
        dir: is_dir_row(r),
        path: row_path_spec(r),
        depth: r.depth as nat,
        name: r.name@,
        progress: r.progress,
        file_counts: r.file_counts,
        status: r.status,
        skip_reason: r.skip_reason,
        manual_skip: r.manual_skip,
    }
}

pub open spec fn rvs(rows: Seq<TreeRow>) -> Seq<RowView> {
    rows.map_values(|r: TreeRow| rv(r))
}

pub proof fn lemma_rvs_step(rows: Seq<TreeRow>, i: int)
    requires
        0 <= i < rows.len(),
    ensures
        rvs(rows.take(i + 1)) == rvs(rows.take(i)).push(rv(rows[i])),
        rvs(rows.take(i + 1)).drop_last() == rvs(rows.take(i)),
        rvs(rows.take(i + 1)).last() == rv(rows[i]),
{
    assert(rvs(rows.take(i + 1)) =~= rvs(rows.take(i)).push(rv(rows[i])));
}

impl TreeRowKind {
    pub fn duplicate(&self) -> (r: TreeRowKind)
        ensures
            r == *self,
    {
        match self {
            TreeRowKind::Dir { path } => TreeRowKind::Dir { path: path.clone() },
            TreeRowKind::File { path } => TreeRowKind::File { path: path.clone() },
        }
    }
}

impl TreeRow {
    /// A copy of this row.
    pub fn duplicate(&self) -> (r: TreeRow)
        ensures
            r == *self,
    {
        TreeRow {
            kind: self.kind.duplicate(),
            depth: self.depth,
            name: self.name.clone(),
            progress: self.progress,
            file_counts: self.file_counts,
            status: self.status,
            skip_reason: match &self.skip_reason {
                Some(r) => Some(r.duplicate()),
                None => None,
            },
            manual_skip: self.manual_skip,
        }
    }
}

/// The path of a row.
pub fn row_path(row: &TreeRow) -> (p: String)
    ensures
        p@ == row_path_spec(*row),
{
    match &row.kind {
        TreeRowKind::Dir { path } => path.clone(),
        TreeRowKind::File { path } => path.clone(),
    }
}

/// The directory holding `path`: everything before its last `/`.
pub open spec fn parent_spec(path: Seq<char>) -> Option<Seq<char>> {
    match rsplit_once(path, seq!['/']) {
        Some((a, _)) => Some(a),
        None => None,
    }
}

pub fn parent_path(path: &str) -> (r: Option<String>)
    ensures
        match parent_spec(path@) {
            Some(a) => r matches Some(s) && s@ == a,
            None => r is None,
        },
{
    let c = chars_of(path);
    proof {
        reveal_strlit("/");
        assert("/"@ == seq!['/']);
    }
    match rsplit_once_chars(c.as_slice(), "/") {
        Some((a, _)) => Some(string_of(a.as_slice())),
        None => None,
    }
}

/// A compressed directory name cut to `max` cells: unchanged when it fits,
/// else `first/…/last` when that fits, else its tail behind `…`.
pub open spec fn elide_spec(name: Seq<char>, max: nat) -> Seq<char> {
    let parts = split_char(name, '/');
    let candidate = parts[0] + "/…/"@ + parts.last();
    if max == 0 {
        Seq::empty()
    } else if name.len() <= max {
        name
    } else if parts.len() >= 3 && candidate.len() <= max {
        candidate
    } else if max <= 1 {
        "…"@
    } else {
        "…"@ + name.skip(name.len() - (max - 1))
    }
}

/// Elide the middle of a compressed directory name when it exceeds `max` cells.
pub fn elide_dir_name(name: &str, max: usize) -> (r: String)
    ensures
        r@ == elide_spec(name@, max as nat),
{
    proof {
        reveal_strlit("/…/");
        reveal_strlit("…");
        crate::text::lemma_split_char_nonempty(name@, '/');
    }
    if max == 0 {
        return String::new();
    }
    let c = chars_of(name);
    if c.len() <= max {
        return string_of(c.as_slice());
    }
    let parts = split_on(c.as_slice(), '/');
    let ghost sp = split_char(name@, '/');
    if parts.len() >= 3 {
        let mut candidate = string_of(parts[0].as_slice());
        push_str(&mut candidate, "/…/");
        push_chars(&mut candidate, parts[parts.len() - 1].as_slice());
        assert(candidate@ == sp[0] + "/…/"@ + sp.last());
        if chars_of(candidate.as_str()).len() <= max {
            return candidate;
        }
    }
    if max <= 1 {
        return "…".to_string();
    }
    let mut r = "…".to_string();
    let tail = crate::text::subrange(c.as_slice(), c.len() - (max - 1), c.len());
    push_chars(&mut r, tail.as_slice());
    assert(tail@ =~= name@.skip(name@.len() - (max - 1)));
    r
}

/// A file matches the (lowercased, trimmed) filter `q` when its path is `q`
/// or ends with `/q`, or when `q` occurs in its name at the start or right
/// after `.`, `/`, `_` or `-`.
pub open spec fn matches_filter_spec(path: Seq<char>, name: Seq<char>, q: Seq<char>) -> bool {
    let p = ascii_lower(path);
    let n = ascii_lower(name);
    if p == q || ends_with(p, seq!['/'] + q) {
        true
    } else {
        match find(n, q) {
            Some(i) => i == 0 || n[i - 1] == '.' || n[i - 1] == '/' || n[i - 1] == '_' || n[i - 1]
                == '-',
            None => false,
        }
    }
}

pub fn file_matches_filter(path: &str, name: &str, q: &[char]) -> (b: bool)
    ensures
        b == matches_filter_spec(path@, name@, q@),
{
    let pc = chars_of(path);
    let nc = chars_of(name);
    let p = ascii_lower_chars(pc.as_slice());
    let n = ascii_lower_chars(nc.as_slice());
    let mut slash_q: Vec<char> = Vec::new();
    slash_q.push('/');
    let mut k: usize = 0;
    while k < q.len()
        invariant
            k <= q@.len(),
            slash_q@ == seq!['/'] + q@.take(k as int),
        decreases q.len() - k,
    {
        slash_q.push(q[k]);
        assert(q@.take(k + 1) =~= q@.take(k as int).push(q@[k as int]));
        k += 1;
    }
    assert(q@.take(q@.len() as int) =~= q@);
    if crate::text::eq_chars(p.as_slice(), q) || crate::text::ends_with_chars(
        p.as_slice(),
        slash_q.as_slice(),
    ) {
        return true;
    }
    proof {
        crate::text::lemma_find_facts(n@, q@);
    }
    match find_chars(n.as_slice(), q) {
        Some(i) => {
            if i == 0 {
                true
            } else {
                let c = n[i - 1];
                c == '.' || c == '/' || c == '_' || c == '-'
            }
        },
        None => false,
    }
}

/// The paths held in a list of strings, as a set.
pub open spec fn str_set(v: Seq<String>) -> Set<Seq<char>> {
    Set::new(|p: Seq<char>| exists|i: int| 0 <= i < v.len() && #[trigger] v[i]@ == p)
}

/// Whether `p` is one of the strings of `v`.
pub fn has_str(v: &Vec<String>, p: &str) -> (b: bool)
    ensures
        b == str_set(v@).contains(p@),
{
    let mut i: usize = 0;
    while i < v.len()
        invariant
            i <= v@.len(),
            forall|j: int| 0 <= j < i ==> #[trigger] v@[j]@ != p@,
        decreases v.len() - i,
    {
        if crate::text::str_eq(v[i].as_str(), p) {
            assert(v@[i as int]@ == p@);
            return true;
        }
        i += 1;
    }
    false
}

/// Add `p` to the set `v` (nothing happens when it is there already);
/// tells whether it was added.
pub fn insert_str(v: &mut Vec<String>, p: &str) -> (added: bool)
    ensures
        str_set(final(v)@) == str_set(old(v)@).insert(p@),
        added == !str_set(old(v)@).contains(p@),
        !added ==> *final(v) == *old(v),
{
    if has_str(v, p) {
        assert(str_set(v@).insert(p@) =~= str_set(v@));
        false
    } else {
        let ghost before = v@;
        v.push(p.to_string());
        assert forall|q: Seq<char>| str_set(v@).contains(q) <==> str_set(before).insert(p@).contains(q) by {
            if str_set(before).contains(q) {
                let i = choose|i: int| 0 <= i < before.len() && #[trigger] before[i]@ == q;
                assert(v@[i]@ == q);
            }
            if q == p@ {
                assert(v@[before.len() as int]@ == q);
            }
            if str_set(v@).contains(q) {
                let i = choose|i: int| 0 <= i < v@.len() && #[trigger] v@[i]@ == q;
                if i < before.len() {
                    assert(before[i]@ == q);
                }
            }
        }
        assert(str_set(v@) =~= str_set(before).insert(p@));
        true
    }
}

/// Remove `p` from the set `v`; tells whether it was there.
pub fn remove_str(v: &mut Vec<String>, p: &str) -> (removed: bool)
    ensures
        str_set(final(v)@) == str_set(old(v)@).remove(p@),
        removed == str_set(old(v)@).contains(p@),
        !removed ==> *final(v) == *old(v),
{
    let ghost before = v@;
    let was = has_str(v, p);
    if !was {
        assert(str_set(v@).remove(p@) =~= str_set(v@));
        return false;
    }
    let mut out: Vec<String> = Vec::new();
    let mut i: usize = 0;
    while i < v.len()
        invariant
            i <= v@.len(),
            v@ == before,
            str_set(out@) == str_set(before.take(i as int)).remove(p@),
        decreases v.len() - i,
    {
        let ghost prev = out@;
        assert(before.take(i + 1) =~= before.take(i as int).push(before[i as int]));
        if !crate::text::str_eq(v[i].as_str(), p) {
            out.push(v[i].clone());
        }
        assert forall|q: Seq<char>| str_set(out@).contains(q) <==> str_set(before.take(i + 1)).remove(p@).contains(q) by {
            let t = before.take(i + 1);
            if str_set(out@).contains(q) {
                let k = choose|k: int| 0 <= k < out@.len() && #[trigger] out@[k]@ == q;
                if k < prev.len() {
                    assert(str_set(prev).contains(q));
                    let m = choose|m: int| 0 <= m < i && #[trigger] before.take(i as int)[m]@ == q;
                    assert(t[m]@ == q);
                } else {
                    assert(t[i as int]@ == q);
                }
            }
            if str_set(t).remove(p@).contains(q) {
                let m = choose|m: int| 0 <= m < t.len() && #[trigger] t[m]@ == q;
                if m < i {
                    assert(before.take(i as int)[m]@ == q);
                    assert(str_set(prev).contains(q));
                    let k = choose|k: int| 0 <= k < prev.len() && #[trigger] prev[k]@ == q;
                    assert(out@[k]@ == q);
                } else {
                    assert(out@[out@.len() - 1]@ == q);
                }
            }
        }
        assert(str_set(out@) =~= str_set(before.take(i + 1)).remove(p@));
        i += 1;
    }
    assert(before.take(before.len() as int) =~= before);
    *v = out;
    was
}

/// The rows left once closed directories hide what lies below them, and
/// the depth below which rows are hidden after the last row.
pub open spec fn collapse_state(rows: Seq<RowView>, opened: Set<Seq<char>>) -> (Seq<RowView>, Option<nat>)
    decreases rows.len(),
{
    if rows.len() == 0 {
        (Seq::empty(), None)
    } else {
        let (out, hidden) = collapse_state(rows.drop_last(), opened);
        let row = rows.last();
        if hidden matches Some(d) && row.depth > d {
            (out, hidden)
        } else {
            let h = if row.dir && !opened.contains(row.path) {
                Some(row.depth)
            } else {
                None
            };
            (out.push(row), h)
        }
    }
}

/// The rows of `rows` outside closed directories.
pub fn apply_collapse(rows: Vec<TreeRow>, opened: &Vec<String>) -> (out: Vec<TreeRow>)
    ensures
        rvs(out@) == collapse_state(rvs(rows@), str_set(opened@)).0,
{
    let mut out: Vec<TreeRow> = Vec::new();
    let mut hidden: Option<usize> = None;
    let mut i: usize = 0;
    while i < rows.len()
        invariant
            i <= rows@.len(),
            rvs(out@) == collapse_state(rvs(rows@.take(i as int)), str_set(opened@)).0,
            match hidden {
                Some(d) => collapse_state(rvs(rows@.take(i as int)), str_set(opened@)).1 == Some(d as nat),
                None => collapse_state(rvs(rows@.take(i as int)), str_set(opened@)).1 is None,
            },
        decreases rows.len() - i,
    {
        proof {
            lemma_rvs_step(rows@, i as int);
        }
        let row = &rows[i];
        let skip = match hidden {
            Some(d) => row.depth > d,
            None => false,
        };
        if !skip {
            hidden = None;
            match &row.kind {
                TreeRowKind::Dir { path } => {
                    if !has_str(opened, path.as_str()) {
                        hidden = Some(row.depth);
                    }
                },
                TreeRowKind::File { .. } => {},
            }
            let ghost before = out@;
            out.push(row.duplicate());
            assert(rvs(out@) =~= rvs(before).push(rv(rows@[i as int])));
        }
        i += 1;
    }
    assert(rows@.take(rows@.len() as int) =~= rows@);
    out
}

/// Whether file row `r` matches the filter `q`.
pub open spec fn row_matches(r: RowView, q: Seq<char>) -> bool {
    !r.dir && matches_filter_spec(r.path, r.name, q)
}

/// Whether the row is kept by the filter `q`: a file that matches, or a
/// directory holding (or being) the path of a matching file.
pub open spec fn kept_by_filter(rows: Seq<RowView>, q: Seq<char>) -> spec_fn(RowView) -> bool {
    |r: RowView|
        exists|j: int|
            0 <= j < rows.len() && row_matches(#[trigger] rows[j], q) && (if r.dir {
                rows[j].path == r.path || starts_with(rows[j].path, r.path + seq!['/'])
            } else {
                rows[j].path == r.path
            })
}

/// The filter as applied: trimmed and lowercased.
pub open spec fn filter_query(filter: Seq<char>) -> Seq<char> {
    ascii_lower(trim(filter))
}

pub open spec fn filter_rows_spec(rows: Seq<RowView>, filter: Seq<char>) -> Seq<RowView> {
    let q = filter_query(filter);
    if q.len() == 0 {
        rows
    } else {
        keep(rows, kept_by_filter(rows, q))
    }
}

/// Paths of the matching files, in row order.
fn matching_paths(rows: &Vec<TreeRow>, q: &Vec<char>) -> (m: Vec<String>)
    ensures
        forall|p: Seq<char>| str_set(m@).contains(p) <==> exists|j: int|
            0 <= j < rows@.len() && row_matches(#[trigger] rvs(rows@)[j], q@) && rvs(rows@)[j].path == p,
{
    let mut m: Vec<String> = Vec::new();
    let mut i: usize = 0;
    while i < rows.len()
        invariant
            i <= rows@.len(),
            forall|p: Seq<char>| str_set(m@).contains(p) <==> exists|j: int|
                0 <= j < i && row_matches(#[trigger] rvs(rows@)[j], q@) && rvs(rows@)[j].path == p,
        decreases rows.len() - i,
    {
        match &rows[i].kind {
            TreeRowKind::File { path } => {
                if file_matches_filter(path.as_str(), rows[i].name.as_str(), q.as_slice()) {
                    let ghost before = m@;
                    insert_str(&mut m, path.as_str());
                    assert forall|p: Seq<char>| str_set(m@).contains(p) <==> exists|j: int|
                        0 <= j < i + 1 && row_matches(#[trigger] rvs(rows@)[j], q@) && rvs(rows@)[j].path == p by {
                        if p == path@ {
                            assert(row_matches(rvs(rows@)[i as int], q@));
                        }
                    }
                } else {
                    assert forall|p: Seq<char>| str_set(m@).contains(p) <==> exists|j: int|
                        0 <= j < i + 1 && row_matches(#[trigger] rvs(rows@)[j], q@) && rvs(rows@)[j].path == p by {
                        if exists|j: int| 0 <= j < i + 1 && row_matches(#[trigger] rvs(rows@)[j], q@) && rvs(rows@)[j].path == p {
                            let j = choose|j: int| 0 <= j < i + 1 && row_matches(#[trigger] rvs(rows@)[j], q@) && rvs(rows@)[j].path == p;
                            assert(j != i);
                        }
                    }
                }
            },
            TreeRowKind::Dir { .. } => {
                assert forall|p: Seq<char>| str_set(m@).contains(p) <==> exists|j: int|
                    0 <= j < i + 1 && row_matches(#[trigger] rvs(rows@)[j], q@) && rvs(rows@)[j].path == p by {
                    if exists|j: int| 0 <= j < i + 1 && row_matches(#[trigger] rvs(rows@)[j], q@) && rvs(rows@)[j].path == p {
                        let j = choose|j: int| 0 <= j < i + 1 && row_matches(#[trigger] rvs(rows@)[j], q@) && rvs(rows@)[j].path == p;
                        assert(j != i);
                    }
                }
            },
        }
        i += 1;
    }
    m
}

/// Whether one of `m` is `d` or lies under `d/`.
fn any_under(m: &Vec<String>, d: &str) -> (b: bool)
    ensures
        b == exists|k: int| 0 <= k < m@.len() && (#[trigger] m@[k]@ == d@ || starts_with(m@[k]@, d@ + seq!['/'])),
{
    let dc = chars_of(d);
    let mut ds = dc.clone();
    ds.push('/');
    assert(ds@ == d@ + seq!['/']);
    let mut k: usize = 0;
    while k < m.len()
        invariant
            k <= m@.len(),
            ds@ == d@ + seq!['/'],
            dc@ == d@,
            forall|j: int| 0 <= j < k ==> !(#[trigger] m@[j]@ == d@ || starts_with(m@[j]@, d@ + seq!['/'])),
        decreases m.len() - k,
    {
        let mc = chars_of(m[k].as_str());
        if crate::text::eq_chars(mc.as_slice(), dc.as_slice()) || crate::text::starts_with_chars(mc.as_slice(), ds.as_slice()) {
            assert(m@[k as int]@ == d@ || starts_with(m@[k as int]@, d@ + seq!['/']));
            return true;
        }
        k += 1;
    }
    false
}

/// The rows kept by the incremental filter.
pub fn filter_rows(rows: Vec<TreeRow>, filter: &str) -> (out: Vec<TreeRow>)
    ensures
        rvs(out@) == filter_rows_spec(rvs(rows@), filter@),
{
    let fc = chars_of(filter);
    let t = trim_chars(fc.as_slice());
    let q = ascii_lower_chars(t.as_slice());
    if q.len() == 0 {
        return rows;
    }
    let m = matching_paths(&rows, &q);
    let ghost all = rvs(rows@);
    let ghost f = kept_by_filter(all, q@);
    let mut out: Vec<TreeRow> = Vec::new();
    let mut i: usize = 0;
    while i < rows.len()
        invariant
            i <= rows@.len(),
            all == rvs(rows@),
            f == kept_by_filter(all, q@),
            forall|p: Seq<char>| str_set(m@).contains(p) <==> exists|j: int|
                0 <= j < rows@.len() && row_matches(#[trigger] rvs(rows@)[j], q@) && rvs(rows@)[j].path == p,
            rvs(out@) == keep(rvs(rows@.take(i as int)), f),
        decreases rows.len() - i,
    {
        proof {
            lemma_rvs_step(rows@, i as int);
        }
        let r = &rows[i];
        let keep_it = match &r.kind {
            TreeRowKind::File { path } => has_str(&m, path.as_str()),
            TreeRowKind::Dir { path } => any_under(&m, path.as_str()),
        };
        proof {
            let v = all[i as int];
            assert(v == rv(rows@[i as int]));
            if v.dir {
                if keep_it {
                    let k = choose|k: int| 0 <= k < m@.len() && (#[trigger] m@[k]@ == v.path || starts_with(m@[k]@, v.path + seq!['/']));
                    assert(str_set(m@).contains(m@[k]@));
                    let j = choose|j: int| 0 <= j < rows@.len() && row_matches(#[trigger] rvs(rows@)[j], q@) && rvs(rows@)[j].path == m@[k]@;
                    assert(f(v));
                }
                if f(v) {
                    let j = choose|j: int| 0 <= j < all.len() && row_matches(#[trigger] all[j], q@) && (all[j].path == v.path || starts_with(all[j].path, v.path + seq!['/']));
                    assert(str_set(m@).contains(all[j].path));
                    let k = choose|k: int| 0 <= k < m@.len() && #[trigger] m@[k]@ == all[j].path;
                    assert(m@[k]@ == v.path || starts_with(m@[k]@, v.path + seq!['/']));
                }
            } else {
                if keep_it {
                    let j = choose|j: int| 0 <= j < rows@.len() && row_matches(#[trigger] rvs(rows@)[j], q@) && rvs(rows@)[j].path == v.path;
                    assert(f(v));
                }
                if f(v) {
                    let j = choose|j: int| 0 <= j < all.len() && row_matches(#[trigger] all[j], q@) && all[j].path == v.path;
                    assert(str_set(m@).contains(v.path));
                }
            }
        }
        if keep_it {
            let ghost before = out@;
            out.push(r.duplicate());
            assert(rvs(out@) =~= rvs(before).push(rv(rows@[i as int])));
        }
        i += 1;
    }
    assert(rows@.take(rows@.len() as int) =~= rows@);
    out
}

/// The end of the subtree of a row at depth `d`: the first row from `k` on
/// that is not deeper than `d`.
pub open spec fn subtree_end(rows: Seq<RowView>, d: nat, k: int) -> int
    decreases rows.len() - k,
{
    if k < 0 || k >= rows.len() || rows[k].depth <= d {
        k
    } else {
        subtree_end(rows, d, k + 1)
    }
}

pub proof fn lemma_subtree_end_bounds(rows: Seq<RowView>, d: nat, k: int)
    requires
        0 <= k <= rows.len(),
    ensures
        k <= subtree_end(rows, d, k) <= rows.len(),
    decreases rows.len() - k,
{
    if k < rows.len() && rows[k].depth > d {
        lemma_subtree_end_bounds(rows, d, k + 1);
    }
}

/// The number of rows at depth `d + 1` among `rows[from..to]`.
pub open spec fn child_count(rows: Seq<RowView>, d: nat, from: int, to: int) -> nat
    decreases to - from,
{
    if to <= from {
        0
    } else if rows[to - 1].depth == d + 1 {
        child_count(rows, d, from, to - 1) + 1
    } else {
        child_count(rows, d, from, to - 1)
    }
}

/// The first row at depth `d + 1` among `rows[from..to]` (`to` if none).
pub open spec fn first_child(rows: Seq<RowView>, d: nat, from: int, to: int) -> int
    decreases to - from,
{
    if to <= from {
        to
    } else {
        let prev = first_child(rows, d, from, to - 1);
        if prev < to - 1 {
            prev
        } else if rows[to - 1].depth == d + 1 {
            to - 1
        } else {
            to
        }
    }
}

pub proof fn lemma_first_child_bounds(rows: Seq<RowView>, d: nat, from: int, to: int)
    requires
        from <= to,
    ensures
        from <= first_child(rows, d, from, to) <= to,
        first_child(rows, d, from, to) < to ==> rows[first_child(rows, d, from, to)].depth == d + 1,
        child_count(rows, d, from, to) > 0 ==> first_child(rows, d, from, to) < to,
    decreases to - from,
{
    if from < to {
        lemma_first_child_bounds(rows, d, from, to - 1);
    }
}

/// A directory row joined with its only child directory: `parent/child`,
/// standing for the child's path with the child's counts.
pub open spec fn merged_view(row: RowView, child: RowView) -> RowView {
    RowView {
        dir: child.dir,
        path: child.path,
        name: row.name + seq!['/'] + child.name,
        progress: child.progress,
        file_counts: child.file_counts,
        ..row
    }
}

/// A row moved one level up.
pub open spec fn lifted(r: RowView) -> RowView {
    RowView { depth: if r.depth > 0 { (r.depth - 1) as nat } else { 0 }, ..r }
}

/// One pass of chain compression from row `i` on: a directory whose only
/// child is a directory becomes one `parent/child` row and the child's
/// descendants move one level up.
pub open spec fn compress_from(rows: Seq<RowView>, i: int) -> Seq<RowView>
    decreases rows.len() - i,
{
    if i < 0 || i >= rows.len() {
        Seq::empty()
    } else {
        let row = rows[i];
        let end = subtree_end(rows, row.depth, i + 1);
        let c = first_child(rows, row.depth, i + 1, end);
        proof {
            lemma_subtree_end_bounds(rows, row.depth, i + 1);
        }
        if row.dir && child_count(rows, row.depth, i + 1, end) == 1 && rows[c].dir {
            seq![merged_view(row, rows[c])] + rows.subrange(c + 1, end).map_values(
                |r: RowView| lifted(r),
            ) + compress_from(rows, end)
        } else {
            seq![row] + compress_from(rows, i + 1)
        }
    }
}

/// Compression repeated while it changes something (at most `fuel` times).
pub open spec fn chains_spec(rows: Seq<RowView>, fuel: nat) -> Seq<RowView>
    decreases fuel,
{
    if fuel == 0 {
        rows
    } else {
        let next = compress_from(rows, 0);
        if next.len() < rows.len() {
            chains_spec(next, (fuel - 1) as nat)
        } else {
            rows
        }
    }
}

/// Rows of a merged row and its lifted descendants `rows[c + 1..end]`.
fn push_lifted(out: &mut Vec<TreeRow>, rows: &Vec<TreeRow>, c: usize, end: usize)
    requires
        c < end <= rows@.len(),
    ensures
        rvs(final(out)@) == rvs(old(out)@) + rvs(rows@).subrange(c + 1, end as int).map_values(
            |r: RowView| lifted(r),
        ),
{
    let ghost base = rvs(out@);
    let ghost all = rvs(rows@);
    let mut k = c + 1;
    while k < end
        invariant
            c + 1 <= k <= end <= rows@.len(),
            all == rvs(rows@),
            rvs(out@) == base + all.subrange(c + 1, k as int).map_values(|r: RowView| lifted(r)),
        decreases end - k,
    {
        let mut lr = rows[k].duplicate();
        lr.depth = if lr.depth > 0 {
            lr.depth - 1
        } else {
            0
        };
        let ghost before = out@;
        out.push(lr);
        assert(rvs(out@) =~= rvs(before).push(rv(lr)));
        assert(rv(lr) == lifted(all[k as int]));
        assert(all.subrange(c + 1, k + 1).map_values(|r: RowView| lifted(r)) =~= all.subrange(
            c + 1,
            k as int,
        ).map_values(|r: RowView| lifted(r)).push(lifted(all[k as int])));
        k += 1;
    }
}

/// One compression pass; `changed` tells whether any chain was joined.
pub fn compress_once(rows: &Vec<TreeRow>) -> (r: (Vec<TreeRow>, bool))
    ensures
        rvs(r.0@) == compress_from(rvs(rows@), 0),
        r.0@.len() <= rows@.len(),
        r.1 == (r.0@.len() < rows@.len()),
{
    let ghost all = rvs(rows@);
    let n = rows.len();
    let mut out: Vec<TreeRow> = Vec::new();
    let mut changed = false;
    let mut i: usize = 0;
    while i < n
        invariant
            i <= n == rows@.len(),
            all == rvs(rows@),
            rvs(out@) + compress_from(all, i as int) == compress_from(all, 0),
            if changed {
                out@.len() + (n - i) < n
            } else {
                out@.len() + (n - i) == n
            },
        decreases n - i,
    {
        let d = rows[i].depth;
        let ghost dn = d as nat;
        assert(all[i as int].depth == dn);
        let mut end = i + 1;
        while end < n && rows[end].depth > d
            invariant
                i + 1 <= end <= n == rows@.len(),
                all == rvs(rows@),
                d == rows@[i as int].depth,
                dn == d as nat,
                subtree_end(all, dn, i + 1) == subtree_end(all, dn, end as int),
            decreases n - end,
        {
            assert(all[end as int] == rv(rows@[end as int]));
            assert(subtree_end(all, dn, end as int) == subtree_end(all, dn, end + 1));
            end += 1;
        }
        assert(subtree_end(all, dn, end as int) == end);
        let mut count: usize = 0;
        let mut first = i + 1;
        let mut k = i + 1;
        while k < end
            invariant
                i + 1 <= k <= end <= n == rows@.len(),
                all == rvs(rows@),
                d == rows@[i as int].depth,
                dn == d as nat,
                count == child_count(all, dn, i + 1, k as int),
                count <= k - (i + 1),
                first as int == first_child(all, dn, i + 1, k as int),
            decreases end - k,
        {
            proof {
                lemma_first_child_bounds(all, dn, i + 1, k as int);
            }
            assert(all[k as int] == rv(rows@[k as int]));
            assert(child_count(all, dn, i + 1, k + 1) == if all[k as int].depth == dn + 1 {
                child_count(all, dn, i + 1, k as int) + 1
            } else {
                child_count(all, dn, i + 1, k as int)
            });
            assert(first_child(all, dn, i + 1, k + 1) == if first_child(all, dn, i + 1, k as int) < k {
                first_child(all, dn, i + 1, k as int)
            } else if all[k as int].depth == dn + 1 {
                k as int
            } else {
                k + 1
            });
            if rows[k].depth > d && rows[k].depth - 1 == d {
                if first == k {
                    first = k;
                }
                count += 1;
            } else {
                if first == k {
                    first = k + 1;
                }
            }
            k += 1;
        }
        proof {
            lemma_first_child_bounds(all, dn, i + 1, end as int);
            lemma_subtree_end_bounds(all, dn, i + 1);
        }
        let is_dir = match &rows[i].kind {
            TreeRowKind::Dir { .. } => true,
            TreeRowKind::File { .. } => false,
        };
        let mut merged = false;
        if is_dir && count == 1 {
            assert(first < end);
            let c = first;
            let child_dir = match &rows[c].kind {
                TreeRowKind::Dir { .. } => true,
                TreeRowKind::File { .. } => false,
            };
            if child_dir {
                let row = &rows[i];
                let child = &rows[c];
                let mut name = row.name.clone();
                crate::text::push_char(&mut name, '/');
                let cn = chars_of(child.name.as_str());
                push_chars(&mut name, cn.as_slice());
                assert(name@ == row.name@ + seq!['/'] + child.name@);
                assert(all[i as int] == rv(rows@[i as int]));
                assert(all[c as int] == rv(rows@[c as int]));
                let m = TreeRow {
                    kind: child.kind.duplicate(),
                    depth: row.depth,
                    name,
                    progress: child.progress,
                    file_counts: child.file_counts,
                    status: row.status,
                    skip_reason: match &row.skip_reason {
                        Some(r) => Some(r.duplicate()),
                        None => None,
                    },
                    manual_skip: row.manual_skip,
                };
                assert(rv(m) == merged_view(all[i as int], all[c as int]));
                let ghost before = out@;
                out.push(m);
                assert(rvs(out@) =~= rvs(before).push(rv(m)));
                push_lifted(&mut out, rows, c, end);
                assert(compress_from(all, i as int) == seq![merged_view(all[i as int], all[c as int])]
                    + all.subrange(c + 1, end as int).map_values(|r: RowView| lifted(r))
                    + compress_from(all, end as int));
                assert(rvs(out@) + compress_from(all, end as int) =~= rvs(before) + compress_from(all, i as int));
                i = end;
                changed = true;
                merged = true;
            }
        }
        if !merged {
            let ghost before = out@;
            out.push(rows[i].duplicate());
            assert(rvs(out@) =~= rvs(before).push(all[i as int]));
            assert(compress_from(all, i as int) == seq![all[i as int]] + compress_from(all, i + 1));
            assert(rvs(out@) + compress_from(all, i + 1) =~= rvs(before) + compress_from(all, i as int));
            i += 1;
        }
    }
    assert(rvs(out@) =~= rvs(out@) + compress_from(all, n as int));
    (out, changed)
}

/// Join every chain of single-child directories (repeated until stable).
pub fn compress_chains(rows: Vec<TreeRow>) -> (out: Vec<TreeRow>)
    ensures
        rvs(out@) == chains_spec(rvs(rows@), rows@.len()),
{
    let ghost start = rvs(rows@);
    let ghost n0 = rows@.len();
    let mut cur = rows;
    let ghost mut fuel: nat = n0;
    loop
        invariant
            start == rvs(rows@),
            n0 == rows@.len(),
            cur@.len() <= fuel,
            chains_spec(rvs(cur@), fuel) == chains_spec(start, n0),
        decreases cur@.len(),
    {
        let (next, changed) = compress_once(&cur);
        if !changed {
            assert(chains_spec(rvs(cur@), fuel) == rvs(cur@)) by {
                if fuel > 0 {
                    assert(compress_from(rvs(cur@), 0).len() == next@.len());
                }
            }
            return cur;
        }
        assert(fuel > 0);
        assert(compress_from(rvs(cur@), 0).len() == next@.len());
        proof {
            fuel = (fuel - 1) as nat;
        }
        cur = next;
    }
}

/// The pieces `parts[0..=i]` joined with `/` (a leading empty piece adds no `/`).
pub open spec fn prefix_path(parts: Seq<Seq<char>>, i: int) -> Seq<char>
    decreases i,
{
    if i <= 0 {
        parts[0]
    } else {
        let a = prefix_path(parts, i - 1);
        if a.len() == 0 {
            parts[i]
        } else {
            a + seq!['/'] + parts[i]
        }
    }
}

/// The row of directory `acc` at `depth`, named `part`, with the counts of
/// the files under it.
pub open spec fn dir_row_view(acc: Seq<char>, depth: nat, part: Seq<char>, files: Seq<FileProgress>) -> RowView {
    let sums = dir_sums(files, acc);
    RowView {
        dir: true,
        path: acc,
        depth,
        name: part,
        progress: Some((sums.0 as usize, sums.1 as usize)),
        file_counts: Some((sums.2 as usize, (sums.2 + sums.3) as usize)),
        status: None,
        skip_reason: None,
        manual_skip: false,
    }
}

/// The row of file `f` at `depth`, named `name`.
pub open spec fn file_row_view(f: FileProgress, depth: nat, name: Seq<char>) -> RowView {
    let st = f.status_spec();
    let skipped = st == FileStatus::Skipped;
    RowView {
        dir: false,
        path: f.relative_path@,
        depth,
        name,
        progress: if skipped {
            None
        } else {
            Some((f.completed_spec() as usize, f.total_spec() as usize))
        },
        file_counts: None,
        status: Some(st),
        skip_reason: if skipped {
            f.skip_reason
        } else {
            None
        },
        manual_skip: skipped && f.manual_override == Some(ManualOverride::Skip),
    }
}

/// The rows of the first `n` directories on the way to a file (pieces
/// `parts`) that are not in `emitted` yet, and `emitted` with them added.
pub open spec fn dir_rows(parts: Seq<Seq<char>>, n: int, emitted: Set<Seq<char>>, files: Seq<FileProgress>) -> (Seq<RowView>, Set<Seq<char>>)
    decreases n,
{
    if n <= 0 {
        (Seq::empty(), emitted)
    } else {
        let (rows, em) = dir_rows(parts, n - 1, emitted, files);
        let acc = prefix_path(parts, n - 1);
        if em.contains(acc) {
            (rows, em)
        } else {
            (rows.push(dir_row_view(acc, (n - 1) as nat, parts[n - 1], files)), em.insert(acc))
        }
    }
}

/// Whether file `f` has a row: not hidden by its type, and not an excluded
/// file while excluded files are hidden.
pub open spec fn shown(f: FileProgress, hide_skipped: bool, hidden: Set<Seq<char>>) -> bool {
    !hidden.contains(f.relative_path@) && !(hide_skipped && f.status_spec() == FileStatus::Skipped)
}

/// The rows of the files `files` (of a repository whose files are `all`):
/// for each shown file, the directories on its path met for the first time,
/// then the file itself; and the directories met so far.
pub open spec fn flatten_state(
    files: Seq<FileProgress>,
    hide_skipped: bool,
    hidden: Set<Seq<char>>,
    all: Seq<FileProgress>,
) -> (Seq<RowView>, Set<Seq<char>>)
    decreases files.len(),
{
    if files.len() == 0 {
        (Seq::empty(), Set::empty())
    } else {
        let (rows, em) = flatten_state(files.drop_last(), hide_skipped, hidden, all);
        let f = files.last();
        if !shown(f, hide_skipped, hidden) {
            (rows, em)
        } else {
            let parts = split_char(f.relative_path@, '/');
            let (drows, em2) = dir_rows(parts, parts.len() - 1, em, all);
            (rows + drows.push(file_row_view(f, (parts.len() - 1) as nat, parts.last())), em2)
        }
    }
}

/// Append the rows of one shown file.
fn push_file_rows(
    progress: &RepoProgress,
    f: &FileProgress,
    rows: &mut Vec<TreeRow>,
    emitted: &mut Vec<String>,
)
    requires
        progress.fits(),
        f.fits(),
    ensures
        ({
            let parts = split_char(f.relative_path@, '/');
            let (drows, em2) = dir_rows(parts, parts.len() - 1, str_set(old(emitted)@), progress.files@);
            &&& rvs(final(rows)@) == rvs(old(rows)@) + drows.push(
                file_row_view(*f, (parts.len() - 1) as nat, parts.last()),
            )
            &&& str_set(final(emitted)@) == em2
        }),
{
    let pc = chars_of(f.relative_path.as_str());
    let parts = split_on(pc.as_slice(), '/');
    let ghost sp = split_char(f.relative_path@, '/');
    proof {
        crate::text::lemma_split_char_nonempty(f.relative_path@, '/');
    }
    let ghost base = rvs(rows@);
    let ghost em0 = str_set(emitted@);
    let last = parts.len() - 1;
    let nf = progress.files.len();
    let mut acc = String::new();
    let mut j: usize = 0;
    while j < last
        invariant
            last + 1 == parts@.len() == sp.len(),
            forall|k: int| 0 <= k < parts@.len() ==> #[trigger] parts@[k]@ == sp[k],
            j <= last,
            progress.fits(),
            nf == progress.files@.len(),
            j > 0 ==> acc@ == prefix_path(sp, j - 1),
            j == 0 ==> acc@.len() == 0,
            rvs(rows@) == base + dir_rows(sp, j as int, em0, progress.files@).0,
            str_set(emitted@) == dir_rows(sp, j as int, em0, progress.files@).1,
        decreases last - j,
    {
        if chars_of(acc.as_str()).len() > 0 {
            crate::text::push_char(&mut acc, '/');
        }
        push_chars(&mut acc, parts[j].as_slice());
        assert(acc@ == prefix_path(sp, j as int));
        if !has_str(emitted, acc.as_str()) {
            let dp = directory_progress(progress, acc.as_str());
            proof {
                lemma_dir_sums_bounded(progress.files@, acc@);
            }
            assert(dp.done_files + dp.todo_files <= nf);
            let row = TreeRow {
                kind: TreeRowKind::Dir { path: acc.clone() },
                depth: j,
                name: string_of(parts[j].as_slice()),
                progress: Some((dp.completed_lines, dp.total_lines)),
                file_counts: Some((dp.done_files, dp.done_files + dp.todo_files)),
                status: None,
                skip_reason: None,
                manual_skip: false,
            };
            assert(rv(row) == dir_row_view(acc@, j as nat, sp[j as int], progress.files@));
            let ghost before = rows@;
            rows.push(row);
            assert(rvs(rows@) =~= rvs(before).push(rv(row)));
            insert_str(emitted, acc.as_str());
        }
        j += 1;
    }
    let st = f.derive_status();
    let skipped = st == FileStatus::Skipped;
    let row = TreeRow {
        kind: TreeRowKind::File { path: f.relative_path.clone() },
        depth: last,
        name: string_of(parts[last].as_slice()),
        progress: if skipped {
            None
        } else {
            Some((f.completed_lines(), f.total_lines()))
        },
        file_counts: None,
        status: Some(st),
        skip_reason: if skipped {
            match &f.skip_reason {
                Some(r) => Some(r.duplicate()),
                None => None,
            }
        } else {
            None
        },
        manual_skip: skipped && f.manual_override == Some(ManualOverride::Skip),
    };
    assert(rv(row) == file_row_view(*f, last as nat, sp.last()));
    let ghost before = rows@;
    rows.push(row);
    assert(rvs(rows@) =~= rvs(before).push(rv(row)));
}

/// The rows of every shown file, directories first on each path.
pub fn flatten(progress: &RepoProgress, hide_skipped: bool, hidden: &Vec<String>) -> (rows: Vec<TreeRow>)
    requires
        progress.fits(),
    ensures
        rvs(rows@) == flatten_state(progress.files@, hide_skipped, str_set(hidden@), progress.files@).0,
{
    let mut rows: Vec<TreeRow> = Vec::new();
    let mut emitted: Vec<String> = Vec::new();
    let ghost hs = str_set(hidden@);
    let ghost all = progress.files@;
    assert(str_set(emitted@) =~= Set::<Seq<char>>::empty());
    let mut i: usize = 0;
    while i < progress.files.len()
        invariant
            i <= progress.files@.len(),
            all == progress.files@,
            hs == str_set(hidden@),
            progress.fits(),
            rvs(rows@) == flatten_state(all.take(i as int), hide_skipped, hs, all).0,
            str_set(emitted@) == flatten_state(all.take(i as int), hide_skipped, hs, all).1,
        decreases progress.files.len() - i,
    {
        assert(all.take(i + 1).drop_last() =~= all.take(i as int));
        assert(all.take(i + 1).last() == all[i as int]);
        let f = &progress.files[i];
        assert(f.fits());
        let is_hidden = has_str(hidden, f.relative_path.as_str());
        let st = f.derive_status();
        if !(is_hidden || (hide_skipped && st == FileStatus::Skipped)) {
            push_file_rows(progress, f, &mut rows, &mut emitted);
        }
        i += 1;
    }
    assert(all.take(all.len() as int) =~= all);
    rows
}

/// A parent path is shorter than the path.
pub proof fn lemma_parent_shorter(path: Seq<char>)
    ensures
        parent_spec(path) matches Some(a) ==> a.len() < path.len(),
{
    crate::text::lemma_rfind_facts(path, seq!['/']);
}

/// The directories above `path`: its parent, the parent's parent, and so on.
pub open spec fn ancestors(path: Seq<char>) -> Set<Seq<char>>
    decreases path.len(),
{
    match parent_spec(path) {
        Some(a) => {
            proof {
                lemma_parent_shorter(path);
            }
            ancestors(a).insert(a)
        },
        None => Set::empty(),
    }
}

pub proof fn lemma_ancestors_shorter(p: Seq<char>)
    ensures
        forall|x: Seq<char>| #[trigger] ancestors(p).contains(x) ==> x.len() < p.len(),
    decreases p.len(),
{
    lemma_parent_shorter(p);
    match parent_spec(p) {
        Some(a) => {
            lemma_ancestors_shorter(a);
            assert(ancestors(p) == ancestors(a).insert(a));
        },
        None => {
            assert(ancestors(p) == Set::<Seq<char>>::empty());
        },
    }
}

/// One step of opening ancestors: the parent joins the opened set.
proof fn lemma_ancestor_step(start: Set<Seq<char>>, path: Seq<char>, current: Seq<char>, parent: Seq<char>, opened: Set<Seq<char>>)
    requires
        opened == start.union(ancestors(path).difference(ancestors(current))),
        ancestors(current).subset_of(ancestors(path)),
        parent_spec(current) == Some(parent),
    ensures
        opened.insert(parent) == start.union(ancestors(path).difference(ancestors(parent))),
        ancestors(parent).subset_of(ancestors(path)),
{
    lemma_ancestors_shorter(parent);
    assert(ancestors(current) == ancestors(parent).insert(parent));
    assert(!ancestors(parent).contains(parent));
    assert(opened.insert(parent) =~= start.union(ancestors(path).difference(ancestors(parent))));
}

/// Add every ancestor directory of `path` to `opened`.
pub fn open_ancestors(opened: &mut Vec<String>, path: &str)
    ensures
        str_set(final(opened)@) == str_set(old(opened)@).union(ancestors(path@)),
{
    let ghost start = str_set(opened@);
    let mut current = path.to_string();
    assert(str_set(opened@) =~= start.union(ancestors(path@).difference(ancestors(current@))));
    loop
        invariant
            start == str_set(old(opened)@),
            str_set(opened@) == start.union(ancestors(path@).difference(ancestors(current@))),
            ancestors(current@).subset_of(ancestors(path@)),
        decreases current@.len(),
    {
        match parent_path(current.as_str()) {
            Some(parent) => {
                proof {
                    lemma_parent_shorter(current@);
                    lemma_ancestor_step(start, path@, current@, parent@, str_set(opened@));
                }
                insert_str(opened, parent.as_str());
                current = parent;
            },
            None => {
                assert(ancestors(current@) =~= Set::<Seq<char>>::empty());
                assert(str_set(opened@) =~= start.union(ancestors(path@)));
                return;
            },
        }
    }
}

/// The paths of the directory rows.
pub open spec fn dir_paths(rows: Seq<RowView>) -> Set<Seq<char>> {
    Set::new(|p: Seq<char>| exists|j: int| 0 <= j < rows.len() && #[trigger] rows[j].dir && rows[j].path == p)
}

/// The rows of the whole tree, chains compressed, before closing and filtering.
pub open spec fn tree_rows(files: Seq<FileProgress>, hide_skipped: bool, hidden: Set<Seq<char>>) -> Seq<RowView> {
    let f = flatten_state(files, hide_skipped, hidden, files).0;
    chains_spec(f, f.len())
}

/// The rows on screen: the whole tree, closed directories folded, filtered.
pub open spec fn visible_spec(
    files: Seq<FileProgress>,
    opened: Set<Seq<char>>,
    hide_skipped: bool,
    hidden: Set<Seq<char>>,
    filter: Seq<char>,
) -> Seq<RowView> {
    filter_rows_spec(collapse_state(tree_rows(files, hide_skipped, hidden), opened).0, filter)
}

/// The whole tree as rows.
pub fn all_rows(progress: &RepoProgress, hide_skipped: bool, hidden: &Vec<String>) -> (rows: Vec<TreeRow>)
    requires
        progress.fits(),
    ensures
        rvs(rows@) == tree_rows(progress.files@, hide_skipped, str_set(hidden@)),
{
    let f = flatten(progress, hide_skipped, hidden);
    compress_chains(f)
}

/// The rows shown for the given open directories, exclusion mode and filter.
pub fn visible_rows_of(
    progress: &RepoProgress,
    opened: &Vec<String>,
    hide_skipped: bool,
    hidden: &Vec<String>,
    filter: &str,
) -> (rows: Vec<TreeRow>)
    requires
        progress.fits(),
    ensures
        rvs(rows@) == visible_spec(progress.files@, str_set(opened@), hide_skipped, str_set(hidden@), filter@),
{
    let rows = all_rows(progress, hide_skipped, hidden);
    let rows = apply_collapse(rows, opened);
    filter_rows(rows, filter)
}

/// The paths of the directory rows of `rows`, in row order.
pub fn dir_paths_of(rows: &Vec<TreeRow>) -> (out: Vec<String>)
    ensures
        str_set(out@) == dir_paths(rvs(rows@)),
{
    let ghost all = rvs(rows@);
    let mut out: Vec<String> = Vec::new();
    let mut i: usize = 0;
    while i < rows.len()
        invariant
            i <= rows@.len(),
            all == rvs(rows@),
            str_set(out@) == dir_paths(all.take(i as int)),
        decreases rows.len() - i,
    {
        let ghost before = str_set(out@);
        match &rows[i].kind {
            TreeRowKind::Dir { path } => {
                insert_str(&mut out, path.as_str());
                assert(all[i as int].dir && all[i as int].path == path@);
                assert forall|p: Seq<char>| dir_paths(all.take(i + 1)).contains(p) <==> before.insert(path@).contains(p) by {
                    if dir_paths(all.take(i + 1)).contains(p) {
                        let j = choose|j: int| 0 <= j < i + 1 && #[trigger] all.take(i + 1)[j].dir && all.take(i + 1)[j].path == p;
                        if j < i {
                            assert(all.take(i as int)[j] == all[j]);
                        }
                    }
                    if before.contains(p) {
                        let j = choose|j: int| 0 <= j < i && #[trigger] all.take(i as int)[j].dir && all.take(i as int)[j].path == p;
                        assert(all.take(i + 1)[j] == all[j]);
                    }
                    if p == path@ {
                        assert(all.take(i + 1)[i as int].dir);
                    }
                }
                assert(str_set(out@) =~= dir_paths(all.take(i + 1)));
            },
            TreeRowKind::File { .. } => {
                assert(!all[i as int].dir);
                assert forall|p: Seq<char>| dir_paths(all.take(i + 1)).contains(p) <==> before.contains(p) by {
                    if dir_paths(all.take(i + 1)).contains(p) {
                        let j = choose|j: int| 0 <= j < i + 1 && #[trigger] all.take(i + 1)[j].dir && all.take(i + 1)[j].path == p;
                        assert(j != i);
                        assert(all.take(i as int)[j] == all[j]);
                    }
                    if before.contains(p) {
                        let j = choose|j: int| 0 <= j < i && #[trigger] all.take(i as int)[j].dir && all.take(i as int)[j].path == p;
                        assert(all.take(i + 1)[j] == all[j]);
                    }
                }
                assert(str_set(out@) =~= dir_paths(all.take(i + 1)));
            },
        }
        i += 1;
    }
    assert(all.take(all.len() as int) =~= all);
    out
}

/// Every directory of the (unfiltered) tree.
pub fn all_dir_paths(progress: &RepoProgress, hide_skipped: bool, hidden: &Vec<String>) -> (out: Vec<String>)
    requires
        progress.fits(),
    ensures
        str_set(out@) == dir_paths(tree_rows(progress.files@, hide_skipped, str_set(hidden@))),
{
    let rows = all_rows(progress, hide_skipped, hidden);
    dir_paths_of(&rows)
}

/// Whether every one of `dirs` is in `opened`.
fn all_in(dirs: &Vec<String>, opened: &Vec<String>) -> (b: bool)
    ensures
        b == str_set(dirs@).subset_of(str_set(opened@)),
{
    let mut i: usize = 0;
    while i < dirs.len()
        invariant
            i <= dirs@.len(),
            forall|j: int| 0 <= j < i ==> str_set(opened@).contains(#[trigger] dirs@[j]@),
        decreases dirs.len() - i,
    {
        if !has_str(opened, dirs[i].as_str()) {
            assert(str_set(dirs@).contains(dirs@[i as int]@));
            return false;
        }
        i += 1;
    }
    assert forall|p: Seq<char>| str_set(dirs@).contains(p) implies str_set(opened@).contains(p) by {
        let j = choose|j: int| 0 <= j < dirs@.len() && #[trigger] dirs@[j]@ == p;
    }
    true
}

/// Every directory of the tree is open (and there is at least one).
pub open spec fn fully_expanded_spec(
    opened: Set<Seq<char>>,
    files: Seq<FileProgress>,
    hide_skipped: bool,
    hidden: Set<Seq<char>>,
) -> bool {
    let dirs = dir_paths(tree_rows(files, hide_skipped, hidden));
    dirs != Set::<Seq<char>>::empty() && dirs.subset_of(opened)
}

pub fn is_fully_expanded(opened: &Vec<String>, progress: &RepoProgress, hide_skipped: bool, hidden: &Vec<String>) -> (b: bool)
    requires
        progress.fits(),
    ensures
        b == fully_expanded_spec(str_set(opened@), progress.files@, hide_skipped, str_set(hidden@)),
{
    let dirs = all_dir_paths(progress, hide_skipped, hidden);
    if dirs.len() == 0 {
        assert(str_set(dirs@) =~= Set::<Seq<char>>::empty());
        return false;
    }
    assert(str_set(dirs@).contains(dirs@[0]@));
    all_in(&dirs, opened)
}

/// Skipped files whose type is not hidden.
pub open spec fn excluded_spec(files: Seq<FileProgress>, hidden: Set<Seq<char>>) -> nat
    decreases files.len(),
{
    if files.len() == 0 {
        0
    } else {
        excluded_spec(files.drop_last(), hidden) + if files.last().status_spec() == FileStatus::Skipped
            && !hidden.contains(files.last().relative_path@) {
            1nat
        } else {
            0nat
        }
    }
}

pub fn excluded_count(progress: &RepoProgress, hidden: &Vec<String>) -> (n: usize)
    ensures
        n == excluded_spec(progress.files@, str_set(hidden@)),
{
    let ghost all = progress.files@;
    let mut n: usize = 0;
    let mut i: usize = 0;
    while i < progress.files.len()
        invariant
            i <= all.len(),
            all == progress.files@,
            n == excluded_spec(all.take(i as int), str_set(hidden@)),
            n <= i,
        decreases all.len() - i,
    {
        assert(all.take(i + 1).drop_last() =~= all.take(i as int));
        let f = &progress.files[i];
        if f.derive_status() == FileStatus::Skipped && !has_str(hidden, f.relative_path.as_str()) {
            n += 1;
        }
        i += 1;
    }
    assert(all.take(all.len() as int) =~= all);
    n
}

/// The recommended next file: the first step of `flow` still to type, or
/// without a flow the first file still to type.
pub open spec fn recommend_ok(files: Seq<FileProgress>, flow: Option<FlowOrder>, r: Option<Seq<char>>) -> bool {
    match flow {
        Some(o) => match r {
            Some(p) => exists|i: int|
                0 <= i < o.steps@.len() && o.steps@[i].path@ == p && file_has_status(
                    files,
                    o.steps@[i].path@,
                    FileStatus::Todo,
                ) && forall|j: int|
                    0 <= j < i ==> !#[trigger] file_has_status(files, o.steps@[j].path@, FileStatus::Todo),
            None => forall|i: int|
                0 <= i < o.steps@.len() ==> !#[trigger] file_has_status(files, o.steps@[i].path@, FileStatus::Todo),
        },
        None => match r {
            Some(p) => exists|i: int|
                0 <= i < files.len() && files[i].relative_path@ == p && files[i].status_spec()
                    == FileStatus::Todo && forall|j: int|
                    0 <= j < i ==> #[trigger] files[j].status_spec() != FileStatus::Todo,
            None => forall|i: int| 0 <= i < files.len() ==> #[trigger] files[i].status_spec() != FileStatus::Todo,
        },
    }
}

pub fn recommended_path(progress: &RepoProgress, flow: Option<&FlowOrder>) -> (r: Option<String>)
    ensures
        recommend_ok(
            progress.files@,
            match flow {
                Some(o) => Some(*o),
                None => None,
            },
            match r {
                Some(s) => Some(s@),
                None => None,
            },
        ),
{
    match flow {
        Some(order) => match order.next_step(progress) {
            Some(step) => Some(step.path.clone()),
            None => None,
        },
        None => match progress.recommend_path() {
            Some(p) => Some(p.to_string()),
            None => None,
        },
    }
}

/// The line count of the first file at `path`.
pub open spec fn lines_ok(files: Seq<FileProgress>, path: Seq<char>, r: Option<usize>) -> bool {
    match r {
        Some(n) => exists|i: int|
            0 <= i < files.len() && files[i].relative_path@ == path && n == files[i].total_spec()
                && forall|j: int| 0 <= j < i ==> #[trigger] files[j].relative_path@ != path,
        None => forall|i: int| 0 <= i < files.len() ==> #[trigger] files[i].relative_path@ != path,
    }
}

pub fn lines_of_path(progress: &RepoProgress, path: &str) -> (r: Option<usize>)
    requires
        progress.fits(),
    ensures
        lines_ok(progress.files@, path@, r),
{
    let mut i: usize = 0;
    while i < progress.files.len()
        invariant
            i <= progress.files@.len(),
            progress.fits(),
            forall|j: int| 0 <= j < i ==> #[trigger] progress.files@[j].relative_path@ != path@,
        decreases progress.files.len() - i,
    {
        if crate::text::str_eq(progress.files[i].relative_path.as_str(), path) {
            assert(progress.files@[i as int].fits());
            return Some(progress.files[i].total_lines());
        }
        i += 1;
    }
    None
}

/// The view of an optional string.
pub open spec fn opt_view(o: Option<String>) -> Option<Seq<char>> {
    match o {
        Some(s) => Some(s@),
        None => None,
    }
}

/// `a - b`, or 0 when `b` is larger.
pub open spec fn sat_sub(a: nat, b: nat) -> nat {
    if a >= b {
        (a - b) as nat
    } else {
        0
    }
}

/// The scroll offset that keeps row `sel` inside a window of `vis` rows
/// (at least one), moving the window as little as possible.
pub open spec fn clamp_spec(sel: nat, off: nat, vis: nat) -> nat {
    let h = if vis == 0 {
        1
    } else {
        vis
    };
    if sel < off {
        sel
    } else if sel - off >= h {
        (sel + 1 - h) as nat
    } else {
        off
    }
}

/// The first row from `k` on whose path is `p`.
pub open spec fn row_index_from(rows: Seq<RowView>, p: Seq<char>, k: int) -> Option<int>
    decreases rows.len() - k,
{
    if k < 0 || k >= rows.len() {
        None
    } else if rows[k].path == p {
        Some(k)
    } else {
        row_index_from(rows, p, k + 1)
    }
}

pub proof fn lemma_row_index_from(rows: Seq<RowView>, p: Seq<char>, k: int)
    requires
        0 <= k,
    ensures
        row_index_from(rows, p, k) matches Some(j) ==> k <= j < rows.len() && rows[j].path == p,
    decreases rows.len() - k,
{
    if k < rows.len() && rows[k].path != p {
        lemma_row_index_from(rows, p, k + 1);
    }
}

/// Where the cursor lands after the rows changed, looking for the rows that
/// were at `k`, `k - 1`, ... down to the top.
pub open spec fn survivor_down(rows: Seq<RowView>, paths: Seq<Seq<char>>, k: int) -> Option<int>
    decreases k + 1,
{
    if k < 0 {
        None
    } else {
        let hit = if k < paths.len() {
            row_index_from(rows, paths[k], 0)
        } else {
            None
        };
        if hit is Some {
            hit
        } else {
            survivor_down(rows, paths, k - 1)
        }
    }
}

/// ... then below it, from `k` on.
pub open spec fn survivor_up(rows: Seq<RowView>, paths: Seq<Seq<char>>, k: int) -> Option<int>
    decreases paths.len() - k,
{
    if k < 0 || k >= paths.len() {
        None
    } else {
        match row_index_from(rows, paths[k], 0) {
            Some(j) => Some(j),
            None => survivor_up(rows, paths, k + 1),
        }
    }
}

/// The row the cursor stays on: the nearest surviving row of the old list,
/// searching upwards first.
pub open spec fn survivor(rows: Seq<RowView>, paths: Seq<Seq<char>>, sel: nat) -> Option<int> {
    match survivor_down(rows, paths, sel as int) {
        Some(j) => Some(j),
        None => survivor_up(rows, paths, sel as int + 1),
    }
}

pub proof fn lemma_survivor_down_range(rows: Seq<RowView>, paths: Seq<Seq<char>>, k: int)
    ensures
        survivor_down(rows, paths, k) matches Some(j) ==> 0 <= j < rows.len(),
    decreases k + 1,
{
    if k >= 0 {
        if k < paths.len() {
            lemma_row_index_from(rows, paths[k], 0);
        }
        lemma_survivor_down_range(rows, paths, k - 1);
    }
}

pub proof fn lemma_survivor_up_range(rows: Seq<RowView>, paths: Seq<Seq<char>>, k: int)
    ensures
        survivor_up(rows, paths, k) matches Some(j) ==> 0 <= j < rows.len(),
    decreases paths.len() - k,
{
    if 0 <= k < paths.len() {
        lemma_row_index_from(rows, paths[k], 0);
        lemma_survivor_up_range(rows, paths, k + 1);
    }
}

pub proof fn lemma_survivor_range(rows: Seq<RowView>, paths: Seq<Seq<char>>, sel: nat)
    ensures
        survivor(rows, paths, sel) matches Some(j) ==> 0 <= j < rows.len(),
{
    lemma_survivor_down_range(rows, paths, sel as int);
    lemma_survivor_up_range(rows, paths, sel as int + 1);
}

pub open spec fn str_views(v: Seq<String>) -> Seq<Seq<char>> {
    v.map_values(|s: String| s@)
}

pub open spec fn row_paths(rows: Seq<RowView>) -> Seq<Seq<char>> {
    rows.map_values(|r: RowView| r.path)
}

/// The first row whose path is `p`.
pub fn row_position(rows: &Vec<TreeRow>, p: &str) -> (r: Option<usize>)
    ensures
        match row_index_from(rvs(rows@), p@, 0) {
            Some(j) => r == Some(j as usize),
            None => r is None,
        },
{
    let ghost all = rvs(rows@);
    let mut i: usize = 0;
    while i < rows.len()
        invariant
            i <= rows@.len(),
            all == rvs(rows@),
            row_index_from(all, p@, 0) == row_index_from(all, p@, i as int),
        decreases rows.len() - i,
    {
        let rp = row_path(&rows[i]);
        assert(all[i as int].path == rp@);
        if crate::text::str_eq(rp.as_str(), p) {
            return Some(i);
        }
        i += 1;
    }
    None
}

/// The paths of the rows, in order.
pub fn paths_of_rows(rows: &Vec<TreeRow>) -> (out: Vec<String>)
    ensures
        str_views(out@) == row_paths(rvs(rows@)),
{
    let mut out: Vec<String> = Vec::new();
    let mut i: usize = 0;
    while i < rows.len()
        invariant
            i <= rows@.len(),
            str_views(out@) == row_paths(rvs(rows@.take(i as int))),
        decreases rows.len() - i,
    {
        proof {
            lemma_rvs_step(rows@, i as int);
        }
        let ghost before = out@;
        let rp = row_path(&rows[i]);
        out.push(rp);
        assert(str_views(out@) =~= str_views(before).push(rp@));
        assert(row_paths(rvs(rows@.take(i + 1))) =~= row_paths(rvs(rows@.take(i as int))).push(rp@));
        i += 1;
    }
    assert(rows@.take(rows@.len() as int) =~= rows@);
    out
}

/// The nearest surviving row of `paths` (the old rows) around `sel`.
pub fn surviving_row(rows: &Vec<TreeRow>, paths: &Vec<String>, sel: usize) -> (r: Option<usize>)
    ensures
        match survivor(rvs(rows@), str_views(paths@), sel as nat) {
            Some(j) => r == Some(j as usize),
            None => r is None,
        },
{
    let ghost all = rvs(rows@);
    let ghost ps = str_views(paths@);
    let mut k: u128 = sel as u128 + 1;
    proof {
        assert(survivor_down(all, ps, sel as int) == survivor_down(all, ps, k - 1));
    }
    while k > 0
        invariant
            k <= sel + 1,
            all == rvs(rows@),
            ps == str_views(paths@),
            survivor_down(all, ps, sel as int) == survivor_down(all, ps, k - 1),
        decreases k,
    {
        let idx = (k - 1) as usize;
        if idx < paths.len() {
            match row_position(rows, paths[idx].as_str()) {
                Some(j) => {
                    assert(ps[idx as int] == paths@[idx as int]@);
                    return Some(j);
                },
                None => {
                    assert(ps[idx as int] == paths@[idx as int]@);
                },
            }
        }
        k -= 1;
    }
    if sel >= paths.len() {
        return None;
    }
    let mut u: usize = sel + 1;
    while u < paths.len()
        invariant
            sel + 1 <= u,
            all == rvs(rows@),
            ps == str_views(paths@),
            survivor_down(all, ps, sel as int) is None,
            survivor_up(all, ps, sel + 1) == survivor_up(all, ps, u as int),
        decreases paths.len() - u,
    {
        assert(ps[u as int] == paths@[u as int]@);
        match row_position(rows, paths[u].as_str()) {
            Some(j) => {
                return Some(j);
            },
            None => {},
        }
        u += 1;
    }
    None
}

/// The files a skip toggle on the selected row applies to: the selected
/// file, or every file at or under the selected directory (in file order).
pub open spec fn override_paths_spec(v: TreeView, files: Seq<FileProgress>) -> Seq<Seq<char>> {
    if (v.selected as nat) < v.rows@.len() {
        let r = rv(v.rows@[v.selected as int]);
        if r.dir {
            file_paths(keep(files, under_spec(r.path)))
        } else {
            seq![r.path]
        }
    } else {
        Seq::empty()
    }
}

/// Files whose path is `d` or lies under `d/`.
pub open spec fn under_spec(d: Seq<char>) -> spec_fn(FileProgress) -> bool {
    |f: FileProgress| f.relative_path@ == d || starts_with(f.relative_path@, d + seq!['/'])
}

pub open spec fn file_paths(files: Seq<FileProgress>) -> Seq<Seq<char>> {
    files.map_values(|f: FileProgress| f.relative_path@)
}

#[derive(Debug)]
pub struct TreeView {
    pub rows: Vec<TreeRow>,
    pub selected: usize,
    pub recommend: Option<String>,
    pub title: String,
    /// Directories the user has opened. Anything absent is closed, so a
    /// directory that only appears once excluded files are shown starts closed.
    pub opened: Vec<String>,
    /// Flow traversal order, when flow mode is active.
    pub flow: Option<FlowOrder>,
    /// Reachable `(done, total)` file counts for the flow bar.
    pub flow_counts: Option<(usize, usize)>,
    /// Repository-wide `(completed, total)` normalized line counts.
    pub overall: (usize, usize),
    /// Repository-wide `(done_files, typeable_files)`.
    pub file_counts: (usize, usize),
    /// Line count of the recommended file, for the Next row.
    pub recommend_lines: Option<usize>,
    pub hide_skipped: bool,
    /// Incremental file filter.
    pub filter: String,
    pub filter_editing: bool,
    /// Last drawn list height, used for half-page jumps.
    pub visible_rows: usize,
    /// Index of the first row drawn, kept here so that rebuilding the tree
    /// keeps the cursor on the same screen line.
    pub offset: usize,
    /// Shown once the repository is fully done.
    pub repo_complete: bool,
    /// Count of skipped files, whether or not they are hidden right now.
    pub excluded: usize,
    /// One-line status banner, cleared on next input.
    pub message: Option<String>,
    /// Paths whose file type is hidden: never shown, whatever `hide_skipped` says.
    pub hidden_paths: Vec<String>,
    /// True when every directory of the (unfiltered) tree is open.
    pub fully_expanded: bool,
}

/// The summary fields of a view agree with the repository's files.
pub open spec fn counts_ok(v: TreeView, files: Seq<FileProgress>) -> bool {
    let sums = dir_sums(files, Seq::empty());
    &&& recommend_ok(files, v.flow, opt_view(v.recommend))
    &&& match opt_view(v.recommend) {
        Some(p) => lines_ok(files, p, v.recommend_lines),
        None => v.recommend_lines is None,
    }
    &&& v.flow_counts == match v.flow {
        Some(o) => Some((count_reachable_done(o.steps@, files) as usize, count_reachable(o.steps@) as usize)),
        None => None,
    }
    &&& v.overall == (sums.0 as usize, sums.1 as usize)
    &&& v.file_counts == (sums.2 as usize, (sums.2 + sums.3) as usize)
    &&& v.excluded == excluded_spec(files, str_set(v.hidden_paths@))
    &&& v.fully_expanded == fully_expanded_spec(
        str_set(v.opened@),
        files,
        v.hide_skipped,
        str_set(v.hidden_paths@),
    )
}

/// The rows of a view are the visible rows for its settings.
pub open spec fn rows_ok(v: TreeView, files: Seq<FileProgress>) -> bool {
    rvs(v.rows@) == visible_spec(files, str_set(v.opened@), v.hide_skipped, str_set(v.hidden_paths@), v.filter@)
}

/// `after` is `before` rebuilt from `files`: fresh rows and counts, the
/// cursor on the nearest surviving row (else clamped into the list), and
/// the scroll offset chosen to keep the cursor on its screen line.
pub open spec fn refresh_spec(before: TreeView, after: TreeView, files: Seq<FileProgress>) -> bool {
    let screen = sat_sub(before.selected as nat, before.offset as nat);
    let sel = match survivor(rvs(after.rows@), row_paths(rvs(before.rows@)), before.selected as nat) {
        Some(j) => j as nat,
        None => if (before.selected as nat) < sat_sub(after.rows@.len(), 1) {
            before.selected as nat
        } else {
            sat_sub(after.rows@.len(), 1)
        },
    };
    &&& after == (TreeView {
        rows: after.rows,
        selected: after.selected,
        offset: after.offset,
        recommend: after.recommend,
        recommend_lines: after.recommend_lines,
        flow_counts: after.flow_counts,
        overall: after.overall,
        file_counts: after.file_counts,
        excluded: after.excluded,
        fully_expanded: after.fully_expanded,
        ..before
    })
    &&& rows_ok(after, files)
    &&& counts_ok(after, files)
    &&& after.selected == sel
    &&& after.offset == clamp_spec(sel, sat_sub(sel, screen), before.visible_rows as nat)
}

/// The first row of the given kind (`dir`) whose path is `p`.
pub open spec fn kind_index(rows: Seq<RowView>, p: Seq<char>, dir: bool) -> Option<int> {
    if exists|i: int| 0 <= i < rows.len() && #[trigger] rows[i].dir == dir && rows[i].path == p {
        Some(choose|i: int| 0 <= i < rows.len() && rows[i].dir == dir && rows[i].path == p && forall|j: int| 0 <= j < i ==> !(#[trigger] rows[j].dir == dir && rows[j].path == p))
    } else {
        None
    }
}

/// The first file row whose path is `p`.
pub open spec fn file_index(rows: Seq<RowView>, p: Seq<char>) -> Option<int> {
    kind_index(rows, p, false)
}

/// The first directory row whose path is `p`.
pub open spec fn dir_index(rows: Seq<RowView>, p: Seq<char>) -> Option<int> {
    kind_index(rows, p, true)
}

proof fn lemma_first_of_kind(rows: Seq<RowView>, p: Seq<char>, dir: bool, k: int)
    requires
        0 <= k < rows.len(),
        rows[k].dir == dir && rows[k].path == p,
    ensures
        exists|i: int| 0 <= i < rows.len() && rows[i].dir == dir && rows[i].path == p && forall|j: int| 0 <= j < i ==> !(#[trigger] rows[j].dir == dir && rows[j].path == p),
    decreases k,
{
    if exists|j: int| 0 <= j < k && #[trigger] rows[j].dir == dir && rows[j].path == p {
        let j = choose|j: int| 0 <= j < k && #[trigger] rows[j].dir == dir && rows[j].path == p;
        lemma_first_of_kind(rows, p, dir, j);
    } else {
        assert(forall|j: int| 0 <= j < k ==> !(#[trigger] rows[j].dir == dir && rows[j].path == p));
    }
}

pub proof fn lemma_kind_index(rows: Seq<RowView>, p: Seq<char>, dir: bool)
    ensures
        kind_index(rows, p, dir) matches Some(i) ==> 0 <= i < rows.len() && rows[i].dir == dir && rows[i].path == p
            && forall|j: int| 0 <= j < i ==> !(#[trigger] rows[j].dir == dir && rows[j].path == p),
        kind_index(rows, p, dir) is None ==> forall|i: int| 0 <= i < rows.len() ==> !(#[trigger] rows[i].dir == dir && rows[i].path == p),
{
    if exists|i: int| 0 <= i < rows.len() && #[trigger] rows[i].dir == dir && rows[i].path == p {
        let k = choose|i: int| 0 <= i < rows.len() && #[trigger] rows[i].dir == dir && rows[i].path == p;
        lemma_first_of_kind(rows, p, dir, k);
    }
}

/// The nearest directory row at `p` or above it.
pub open spec fn dir_target(rows: Seq<RowView>, p: Seq<char>) -> Option<int>
    decreases p.len(),
{
    match dir_index(rows, p) {
        Some(i) => Some(i),
        None => match parent_spec(p) {
            Some(a) => {
                proof {
                    lemma_parent_shorter(p);
                }
                dir_target(rows, a)
            },
            None => None,
        },
    }
}

/// The first row, kind given by `dir`, at `p`.
fn kind_position(rows: &Vec<TreeRow>, p: &str, dir: bool) -> (r: Option<usize>)
    ensures
        match kind_index(rvs(rows@), p@, dir) {
            Some(j) => r == Some(j as usize),
            None => r is None,
        },
{
    let ghost all = rvs(rows@);
    proof {
        lemma_kind_index(all, p@, dir);
    }
    let mut i: usize = 0;
    while i < rows.len()
        invariant
            i <= rows@.len(),
            all == rvs(rows@),
            forall|j: int| 0 <= j < i ==> !(#[trigger] all[j].dir == dir && all[j].path == p@),
            kind_index(all, p@, dir) matches Some(c) ==> 0 <= c < all.len() && all[c].dir == dir && all[c].path == p@
                && forall|j: int| 0 <= j < c ==> !(#[trigger] all[j].dir == dir && all[j].path == p@),
            kind_index(all, p@, dir) is None ==> forall|c: int| 0 <= c < all.len() ==> !(#[trigger] all[c].dir == dir && all[c].path == p@),
        decreases rows.len() - i,
    {
        let (is_dir, path) = match &rows[i].kind {
            TreeRowKind::Dir { path } => (true, path),
            TreeRowKind::File { path } => (false, path),
        };
        assert(all[i as int].dir == is_dir && all[i as int].path == path@);
        if is_dir == dir && crate::text::str_eq(path.as_str(), p) {
            proof {
                let c = kind_index(all, p@, dir).unwrap();
                assert(c == i) by {
                    if c > i {
                        assert(!(all[i as int].dir == dir && all[i as int].path == p@));
                    }
                }
            }
            return Some(i);
        }
        i += 1;
    }
    None
}

/// `v` with the cursor moved to row `i` (window scrolled as needed), or
/// unchanged when there is no target.
pub open spec fn jumped(v: TreeView, w: TreeView, target: Option<int>) -> bool {
    match target {
        Some(i) => w == (TreeView {
            selected: i as usize,
            offset: clamp_spec(i as nat, v.offset as nat, v.visible_rows as nat) as usize,
            ..v
        }),
        None => w == v,
    }
}

/// `p` opened when closed, closed when open.
pub open spec fn toggled(opened: Set<Seq<char>>, p: Seq<char>) -> Set<Seq<char>> {
    if opened.contains(p) {
        opened.remove(p)
    } else {
        opened.insert(p)
    }
}

/// The row index `k` steps from `sel` (forwards, or backwards) in a list of `len` rows.
pub open spec fn step_index(sel: nat, len: nat, k: nat, backward: bool) -> int {
    let s = (sel % len) as int;
    if backward {
        (s + len - k) % (len as int)
    } else {
        (s + k) % (len as int)
    }
}

/// The first file row at least `k` steps from `sel` (at most `len` steps).
pub open spec fn next_file_from(rows: Seq<RowView>, sel: nat, backward: bool, k: nat) -> Option<int>
    decreases rows.len() + 1 - k,
{
    if k > rows.len() || rows.len() == 0 {
        None
    } else if !rows[step_index(sel, rows.len(), k, backward)].dir {
        Some(step_index(sel, rows.len(), k, backward))
    } else {
        next_file_from(rows, sel, backward, k + 1)
    }
}

pub proof fn lemma_next_file_range(rows: Seq<RowView>, sel: nat, backward: bool, k: nat)
    ensures
        next_file_from(rows, sel, backward, k) matches Some(i) ==> 0 <= i < rows.len(),
    decreases rows.len() + 1 - k,
{
    if k <= rows.len() && rows.len() > 0 {
        let n = rows.len() as int;
        assert(0 <= step_index(sel, rows.len(), k, backward) < n) by {
            vstd::arithmetic::div_mod::lemma_mod_bound((sel % rows.len()) as int + n - k, n);
            vstd::arithmetic::div_mod::lemma_mod_bound((sel % rows.len()) as int + k, n);
        }
        lemma_next_file_range(rows, sel, backward, k + 1);
    }
}

/// The row the cursor stays near when folding everything: the selected
/// row, else the recommended file, else the root.
pub open spec fn keep_path(v: TreeView) -> Seq<char> {
    if (v.selected as nat) < v.rows@.len() {
        rv(v.rows@[v.selected as int]).path
    } else {
        match opt_view(v.recommend) {
            Some(r) => r,
            None => Seq::empty(),
        }
    }
}


impl TreeView {
    /// Scroll only as far as it takes to keep the cursor inside the drawn
    /// window. The offset is not capped at `rows.len() - height`: revealing
    /// excluded files must not push the cursor down the screen just because
    /// the shorter list happened to fit.
    fn clamp_offset(&mut self)
        ensures
            *final(self) == (TreeView {
                offset: clamp_spec(old(self).selected as nat, old(self).offset as nat, old(self).visible_rows as nat) as usize,
                ..*old(self)
            }),
    {
        let height = if self.visible_rows == 0 {
            1
        } else {
            self.visible_rows
        };
        if self.selected < self.offset {
            self.offset = self.selected;
        } else if self.selected - self.offset >= height {
            self.offset = self.selected - (height - 1);
        }
    }

    fn select_index(&mut self, index: usize)
        ensures
            *final(self) == (TreeView {
                selected: index,
                offset: clamp_spec(index as nat, old(self).offset as nat, old(self).visible_rows as nat) as usize,
                ..*old(self)
            }),
    {
        self.selected = index;
        self.clamp_offset();
    }

    /// Called with the drawn list height before each frame.
    pub fn set_visible_rows(&mut self, height: usize)
        ensures
            *final(self) == (TreeView {
                visible_rows: height,
                offset: clamp_spec(old(self).selected as nat, old(self).offset as nat, height as nat) as usize,
                ..*old(self)
            }),
    {
        self.visible_rows = height;
        self.clamp_offset();
    }

    /// Recompute the summary fields from `progress`.
    fn update_counts(&mut self, progress: &RepoProgress)
        requires
            progress.fits(),
        ensures
            *final(self) == (TreeView {
                recommend: final(self).recommend,
                recommend_lines: final(self).recommend_lines,
                flow_counts: final(self).flow_counts,
                overall: final(self).overall,
                file_counts: final(self).file_counts,
                excluded: final(self).excluded,
                fully_expanded: final(self).fully_expanded,
                ..*old(self)
            }),
            counts_ok(*final(self), progress.files@),
    {
        self.recommend = recommended_path(progress, self.flow.as_ref());
        self.recommend_lines = match &self.recommend {
            Some(p) => lines_of_path(progress, p.as_str()),
            None => None,
        };
        self.flow_counts = match &self.flow {
            Some(o) => Some((o.reachable_done(progress), o.reachable_total())),
            None => None,
        };
        proof {
            reveal_strlit("");
            assert(""@ =~= Seq::<char>::empty());
        }
        let root = directory_progress(progress, "");
        proof {
            lemma_dir_sums_bounded(progress.files@, Seq::empty());
        }
        let nf = progress.files.len();
        assert(root.done_files + root.todo_files <= nf);
        self.overall = (root.completed_lines, root.total_lines);
        self.file_counts = (root.done_files, root.done_files + root.todo_files);
        self.excluded = excluded_count(progress, &self.hidden_paths);
        self.fully_expanded = is_fully_expanded(&self.opened, progress, self.hide_skipped, &self.hidden_paths);
    }

    /// Rebuild rows and counts, keeping the cursor on the row it was on
    /// (else the nearest surviving row, searching upwards first) and on the
    /// screen line it was on.
    pub fn refresh_rows(&mut self, progress: &RepoProgress)
        requires
            progress.fits(),
        ensures
            refresh_spec(*old(self), *final(self), progress.files@),
    {
        let prev_paths = paths_of_rows(&self.rows);
        let prev_selected = self.selected;
        let screen_row = prev_selected.saturating_sub(self.offset);
        self.update_counts(progress);
        let rows = visible_rows_of(progress, &self.opened, self.hide_skipped, &self.hidden_paths, self.filter.as_str());
        let found = surviving_row(&rows, &prev_paths, prev_selected);
        let nrows = rows.len();
        proof {
            lemma_survivor_range(rvs(rows@), str_views(prev_paths@), prev_selected as nat);
        }
        let sel = match found {
            Some(i) => {
                let ghost sv = survivor(rvs(rows@), str_views(prev_paths@), prev_selected as nat);
                assert(sv is Some);
                let ghost j = sv.unwrap();
                assert(0 <= j < nrows);
                i
            },
            None => {
                let last = rows.len().saturating_sub(1);
                if prev_selected < last {
                    prev_selected
                } else {
                    last
                }
            },
        };
        let ghost mid = *self;
        proof {
            lemma_survivor_range(rvs(rows@), str_views(prev_paths@), prev_selected as nat);
        }
        self.rows = rows;
        self.selected = sel;
        self.offset = sel.saturating_sub(screen_row);
        self.clamp_offset();
        assert(counts_ok(mid, progress.files@));
        assert(counts_ok(*self, progress.files@));
        assert(rows_ok(*self, progress.files@));
        assert(screen_row == sat_sub(old(self).selected as nat, old(self).offset as nat));
        assert(row_paths(rvs(old(self).rows@)) == str_views(prev_paths@));
        let ghost spec_sel = match survivor(rvs(self.rows@), row_paths(rvs(old(self).rows@)), old(self).selected as nat) {
            Some(j) => j as nat,
            None => if (old(self).selected as nat) < sat_sub(self.rows@.len(), 1) {
                old(self).selected as nat
            } else {
                sat_sub(self.rows@.len(), 1)
            },
        };
        assert(self.selected == spec_sel);
        assert(self.offset == clamp_spec(spec_sel, sat_sub(spec_sel, sat_sub(old(self).selected as nat, old(self).offset as nat)), old(self).visible_rows as nat));
        assert(*self == (TreeView {
            rows: self.rows,
            selected: self.selected,
            offset: self.offset,
            recommend: self.recommend,
            recommend_lines: self.recommend_lines,
            flow_counts: self.flow_counts,
            overall: self.overall,
            file_counts: self.file_counts,
            excluded: self.excluded,
            fully_expanded: self.fully_expanded,
            ..*old(self)
        }));
    }

    /// Switch the flow order and rebuild.
    pub fn set_flow(&mut self, progress: &RepoProgress, flow: Option<FlowOrder>)
        requires
            progress.fits(),
        ensures
            refresh_spec(TreeView { flow, ..*old(self) }, *final(self), progress.files@),
    {
        self.flow = flow;
        self.refresh_rows(progress);
    }

    /// The flow step number of `path`, when it is a reachable step.
    pub fn flow_step_number(&self, path: &str) -> (r: Option<usize>)
        ensures
            match self.flow {
                Some(o) => match crate::domain::dependency::last_index_of(o.steps@, path@) {
                    Some(i) => r == if o.steps@[i].reachable {
                        Some((i + 1) as usize)
                    } else {
                        None
                    },
                    None => r is None,
                },
                None => r is None,
            },
    {
        match &self.flow {
            Some(o) => o.step_number(path),
            None => None,
        }
    }

    /// Flip between hiding and showing excluded files for this session only.
    pub fn toggle_hide_skipped(&mut self, progress: &RepoProgress)
        requires
            progress.fits(),
        ensures
            refresh_spec(TreeView { hide_skipped: !old(self).hide_skipped, ..*old(self) }, *final(self), progress.files@),
    {
        self.hide_skipped = !self.hide_skipped;
        self.refresh_rows(progress);
    }

    /// Move the cursor by `delta` rows, wrapping; nothing happens on an empty
    /// list or a zero step.
    pub fn move_by(&mut self, delta: isize)
        ensures
            if old(self).rows@.len() == 0 || delta == 0 {
                *final(self) == *old(self)
            } else {
                let next = ((old(self).selected + delta) % (old(self).rows@.len() as int)) as nat;
                *final(self) == (TreeView {
                    selected: next as usize,
                    offset: clamp_spec(next, old(self).offset as nat, old(self).visible_rows as nat) as usize,
                    ..*old(self)
                })
            },
    {
        if self.rows.len() == 0 || delta == 0 {
            return;
        }
        let next = crate::ui::wrap_move(self.selected, delta, self.rows.len());
        self.select_index(next);
    }

    /// The path of the selected row when it is a file.
    pub fn selected_file_path(&self) -> (r: Option<String>)
        ensures
            if self.selected < self.rows@.len() && !rv(self.rows@[self.selected as int]).dir {
                r matches Some(p) && p@ == rv(self.rows@[self.selected as int]).path
            } else {
                r is None
            },
    {
        if self.selected < self.rows.len() {
            match &self.rows[self.selected].kind {
                TreeRowKind::File { path } => Some(path.clone()),
                TreeRowKind::Dir { .. } => None,
            }
        } else {
            None
        }
    }

    /// The path of the selected row when it is a directory.
    pub fn selected_dir_path(&self) -> (r: Option<String>)
        ensures
            if self.selected < self.rows@.len() && rv(self.rows@[self.selected as int]).dir {
                r matches Some(p) && p@ == rv(self.rows@[self.selected as int]).path
            } else {
                r is None
            },
    {
        if self.selected < self.rows.len() {
            match &self.rows[self.selected].kind {
                TreeRowKind::Dir { path } => Some(path.clone()),
                TreeRowKind::File { .. } => None,
            }
        } else {
            None
        }
    }

    /// The path of the selected row.
    pub fn selected_path(&self) -> (r: Option<String>)
        ensures
            if self.selected < self.rows@.len() {
                r matches Some(p) && p@ == rv(self.rows@[self.selected as int]).path
            } else {
                r is None
            },
    {
        if self.selected < self.rows.len() {
            Some(row_path(&self.rows[self.selected]))
        } else {
            None
        }
    }

    pub fn select_first(&mut self)
        ensures
            *final(self) == (TreeView {
                selected: 0,
                offset: clamp_spec(0, old(self).offset as nat, old(self).visible_rows as nat) as usize,
                ..*old(self)
            }),
    {
        self.select_index(0);
    }

    pub fn select_last(&mut self)
        ensures
            ({
                let last = sat_sub(old(self).rows@.len(), 1);
                *final(self) == (TreeView {
                    selected: last as usize,
                    offset: clamp_spec(last, old(self).offset as nat, old(self).visible_rows as nat) as usize,
                    ..*old(self)
                })
            }),
    {
        let last = self.rows.len().saturating_sub(1);
        self.select_index(last);
    }

    /// Move by half the drawn height (at least one row) in `direction`.
    pub fn page_by(&mut self, direction: isize)
        requires
            ({
                let half = old(self).visible_rows / 2;
                let step = if half == 0 { 1 } else { half };
                isize::MIN <= step * direction <= isize::MAX
            }),
        ensures
            ({
                let half = old(self).visible_rows / 2;
                let step = (if half == 0 { 1 } else { half }) * direction;
                if old(self).rows@.len() == 0 || step == 0 {
                    *final(self) == *old(self)
                } else {
                    let next = ((old(self).selected + step) % (old(self).rows@.len() as int)) as nat;
                    *final(self) == (TreeView {
                        selected: next as usize,
                        offset: clamp_spec(next, old(self).offset as nat, old(self).visible_rows as nat) as usize,
                        ..*old(self)
                    })
                }
            }),
    {
        let half = self.visible_rows / 2;
        let h = if half == 0 {
            1
        } else {
            half
        };
        assert(h <= isize::MAX) by {
            assert(self.visible_rows <= usize::MAX);
        }
        let step = (h as isize) * direction;
        self.move_by(step);
    }

    /// Put the cursor on the first file row at `path`; tells whether there is one.
    pub fn jump_to_path(&mut self, path: &str) -> (found: bool)
        ensures
            match file_index(rvs(old(self).rows@), path@) {
                Some(i) => found && *final(self) == (TreeView {
                    selected: i as usize,
                    offset: clamp_spec(i as nat, old(self).offset as nat, old(self).visible_rows as nat) as usize,
                    ..*old(self)
                }),
                None => !found && *final(self) == *old(self),
            },
    {
        let n = self.rows.len();
        match kind_position(&self.rows, path, false) {
            Some(i) => {
                proof {
                    lemma_kind_index(rvs(self.rows@), path@, false);
                }
                self.select_index(i);
                true
            },
            None => false,
        }
    }

    /// Put the cursor on the recommended file, if it has a row.
    pub fn jump_recommend(&mut self) -> (found: bool)
        ensures
            match opt_view(old(self).recommend) {
                Some(p) => match file_index(rvs(old(self).rows@), p) {
                    Some(i) => found && *final(self) == (TreeView {
                        selected: i as usize,
                        offset: clamp_spec(i as nat, old(self).offset as nat, old(self).visible_rows as nat) as usize,
                        ..*old(self)
                    }),
                    None => !found && *final(self) == *old(self),
                },
                None => !found && *final(self) == *old(self),
            },
    {
        match &self.recommend {
            Some(p) => {
                let path = p.clone();
                self.jump_to_path(path.as_str())
            },
            None => false,
        }
    }

    pub fn begin_filter(&mut self)
        ensures
            *final(self) == (TreeView { filter_editing: true, ..*old(self) }),
    {
        self.filter_editing = true;
    }

    /// Type `ch` into the filter and rebuild.
    pub fn push_filter(&mut self, ch: char, progress: &RepoProgress)
        requires
            progress.fits(),
        ensures
            final(self).filter@ == old(self).filter@.push(ch),
            refresh_spec(TreeView { filter: final(self).filter, ..*old(self) }, *final(self), progress.files@),
    {
        crate::text::push_char(&mut self.filter, ch);
        self.refresh_rows(progress);
    }

    /// Erase the last filter character and rebuild.
    pub fn pop_filter(&mut self, progress: &RepoProgress)
        requires
            progress.fits(),
        ensures
            final(self).filter@ == if old(self).filter@.len() > 0 {
                old(self).filter@.drop_last()
            } else {
                old(self).filter@
            },
            refresh_spec(TreeView { filter: final(self).filter, ..*old(self) }, *final(self), progress.files@),
    {
        let c = chars_of(self.filter.as_str());
        if c.len() > 0 {
            let kept = crate::text::subrange(c.as_slice(), 0, c.len() - 1);
            self.filter = string_of(kept.as_slice());
            assert(kept@ =~= c@.drop_last());
        }
        self.refresh_rows(progress);
    }

    /// Drop the filter, stop editing it, and rebuild.
    pub fn clear_filter(&mut self, progress: &RepoProgress)
        requires
            progress.fits(),
        ensures
            final(self).filter@ == Seq::<char>::empty(),
            refresh_spec(TreeView { filter: final(self).filter, filter_editing: false, ..*old(self) }, *final(self), progress.files@),
    {
        self.filter = String::new();
        self.filter_editing = false;
        self.refresh_rows(progress);
    }


    /// Put the cursor on the next (or previous) file row, wrapping.
    pub fn next_match(&mut self, backward: bool)
        ensures
            jumped(*old(self), *final(self), next_file_from(rvs(old(self).rows@), old(self).selected as nat, backward, 1)),
    {
        let n = self.rows.len();
        if n == 0 {
            return;
        }
        let ghost all = rvs(self.rows@);
        let s = (self.selected % n) as u128;
        let len = n as u128;
        let mut off: u128 = 1;
        while off <= len
            invariant
                1 <= off <= len + 1,
                len == n == self.rows@.len() == all.len(),
                all == rvs(self.rows@),
                s == (self.selected % n) as int,
                *self == *old(self),
                next_file_from(all, self.selected as nat, backward, 1) == next_file_from(all, self.selected as nat, backward, off as nat),
            decreases len + 1 - off,
        {
            let idx = if backward {
                (s + len - off) % len
            } else {
                (s + off) % len
            };
            assert(idx == step_index(self.selected as nat, n as nat, off as nat, backward));
            let i = idx as usize;
            assert(all[i as int] == rv(self.rows@[i as int]));
            let is_file = match &self.rows[i].kind {
                TreeRowKind::File { .. } => true,
                TreeRowKind::Dir { .. } => false,
            };
            if is_file {
                self.select_index(i);
                return;
            }
            off += 1;
        }
    }

    /// Put the cursor on the nearest directory row at `path` or above it.
    fn jump_dir(&mut self, path: &str)
        ensures
            jumped(*old(self), *final(self), dir_target(rvs(old(self).rows@), path@)),
    {
        let mut current = path.to_string();
        loop
            invariant
                *self == *old(self),
                dir_target(rvs(self.rows@), path@) == dir_target(rvs(self.rows@), current@),
            decreases current@.len(),
        {
            let n = self.rows.len();
            match kind_position(&self.rows, current.as_str(), true) {
                Some(i) => {
                    proof {
                        lemma_kind_index(rvs(self.rows@), current@, true);
                    }
                    assert(dir_index(rvs(self.rows@), current@) == Some(i as int));
                    self.select_index(i);
                    return;
                },
                None => {},
            }
            match parent_path(current.as_str()) {
                Some(parent) => {
                    proof {
                        lemma_parent_shorter(current@);
                    }
                    current = parent;
                },
                None => {
                    return;
                },
            }
        }
    }

    /// Open the selected directory (and rebuild) when it is closed.
    pub fn expand_dir(&mut self, progress: &RepoProgress)
        requires
            progress.fits(),
        ensures
            if (old(self).selected as nat) < old(self).rows@.len() && rv(old(self).rows@[old(self).selected as int]).dir
                && !str_set(old(self).opened@).contains(rv(old(self).rows@[old(self).selected as int]).path) {
                &&& str_set(final(self).opened@) == str_set(old(self).opened@).insert(rv(old(self).rows@[old(self).selected as int]).path)
                &&& refresh_spec(TreeView { opened: final(self).opened, ..*old(self) }, *final(self), progress.files@)
            } else {
                *final(self) == *old(self)
            },
    {
        match self.selected_dir_path() {
            Some(path) => {
                if insert_str(&mut self.opened, path.as_str()) {
                    self.refresh_rows(progress);
                }
            },
            None => {},
        }
    }

    /// Close the selected directory when it is open; otherwise move to the
    /// nearest directory row above the selected row.
    pub fn collapse_or_parent(&mut self, progress: &RepoProgress)
        requires
            progress.fits(),
        ensures
            if (old(self).selected as nat) < old(self).rows@.len() {
                let r = rv(old(self).rows@[old(self).selected as int]);
                if r.dir && str_set(old(self).opened@).contains(r.path) {
                    &&& str_set(final(self).opened@) == str_set(old(self).opened@).remove(r.path)
                    &&& refresh_spec(TreeView { opened: final(self).opened, ..*old(self) }, *final(self), progress.files@)
                } else {
                    match parent_spec(r.path) {
                        Some(a) => jumped(*old(self), *final(self), dir_target(rvs(old(self).rows@), a)),
                        None => *final(self) == *old(self),
                    }
                }
            } else {
                *final(self) == *old(self)
            },
    {
        if self.selected >= self.rows.len() {
            return;
        }
        let ghost r = rv(self.rows@[self.selected as int]);
        let (is_dir, path) = match &self.rows[self.selected].kind {
            TreeRowKind::Dir { path } => (true, path.clone()),
            TreeRowKind::File { path } => (false, path.clone()),
        };
        assert(r.dir == is_dir && r.path == path@);
        if is_dir {
            if remove_str(&mut self.opened, path.as_str()) {
                self.refresh_rows(progress);
                return;
            }
        }
        match parent_path(path.as_str()) {
            Some(parent) => self.jump_dir(parent.as_str()),
            None => {},
        }
    }

    /// Open the selected directory when closed, close it when open; rebuild.
    pub fn toggle_collapse(&mut self, progress: &RepoProgress)
        requires
            progress.fits(),
        ensures
            if (old(self).selected as nat) < old(self).rows@.len() && rv(old(self).rows@[old(self).selected as int]).dir {
                &&& str_set(final(self).opened@) == toggled(str_set(old(self).opened@), rv(old(self).rows@[old(self).selected as int]).path)
                &&& refresh_spec(TreeView { opened: final(self).opened, ..*old(self) }, *final(self), progress.files@)
            } else {
                *final(self) == *old(self)
            },
    {
        match self.selected_dir_path() {
            Some(path) => {
                if !remove_str(&mut self.opened, path.as_str()) {
                    insert_str(&mut self.opened, path.as_str());
                }
                self.refresh_rows(progress);
            },
            None => {},
        }
    }

    /// Open every directory, or when all are open already, close all but
    /// the ancestors of the selected row so that it stays visible.
    pub fn toggle_expand_all(&mut self, progress: &RepoProgress)
        requires
            progress.fits(),
        ensures
            ({
                let dirs = dir_paths(tree_rows(progress.files@, old(self).hide_skipped, str_set(old(self).hidden_paths@)));
                if dirs == Set::<Seq<char>>::empty() {
                    *final(self) == *old(self)
                } else {
                    &&& str_set(final(self).opened@) == if dirs.subset_of(str_set(old(self).opened@)) {
                        ancestors(keep_path(*old(self)))
                    } else {
                        str_set(old(self).opened@).union(dirs)
                    }
                    &&& refresh_spec(TreeView { opened: final(self).opened, ..*old(self) }, *final(self), progress.files@)
                }
            }),
    {
        let dirs = all_dir_paths(progress, self.hide_skipped, &self.hidden_paths);
        if dirs.len() == 0 {
            assert(str_set(dirs@) =~= Set::<Seq<char>>::empty());
            return;
        }
        assert(str_set(dirs@).contains(dirs@[0]@));
        if all_in(&dirs, &self.opened) {
            let keep = match self.selected_path() {
                Some(p) => p,
                None => match &self.recommend {
                    Some(r) => r.clone(),
                    None => String::new(),
                },
            };
            assert(keep@ == keep_path(*old(self)));
            let mut opened: Vec<String> = Vec::new();
            assert(str_set(opened@) =~= Set::<Seq<char>>::empty());
            open_ancestors(&mut opened, keep.as_str());
            assert(str_set(opened@) =~= ancestors(keep@));
            self.opened = opened;
        } else {
            let ghost start = str_set(self.opened@);
            let mut k: usize = 0;
            while k < dirs.len()
                invariant
                    k <= dirs@.len(),
                    str_set(self.opened@) == start.union(str_set(dirs@.take(k as int))),
                    start == str_set(old(self).opened@),
                    *self == (TreeView { opened: self.opened, ..*old(self) }),
                decreases dirs.len() - k,
            {
                insert_str(&mut self.opened, dirs[k].as_str());
                assert(str_set(dirs@.take(k + 1)) =~= str_set(dirs@.take(k as int)).insert(dirs@[k as int]@)) by {
                    assert forall|q: Seq<char>| str_set(dirs@.take(k + 1)).contains(q) <==> str_set(dirs@.take(k as int)).insert(dirs@[k as int]@).contains(q) by {
                        if str_set(dirs@.take(k + 1)).contains(q) {
                            let j = choose|j: int| 0 <= j < k + 1 && #[trigger] dirs@.take(k + 1)[j]@ == q;
                            if j < k {
                                assert(dirs@.take(k as int)[j]@ == q);
                            }
                        }
                        if str_set(dirs@.take(k as int)).contains(q) {
                            let j = choose|j: int| 0 <= j < k && #[trigger] dirs@.take(k as int)[j]@ == q;
                            assert(dirs@.take(k + 1)[j]@ == q);
                        }
                        if q == dirs@[k as int]@ {
                            assert(dirs@.take(k + 1)[k as int]@ == q);
                        }
                    }
                }
                assert(str_set(self.opened@) =~= start.union(str_set(dirs@.take(k + 1))));
                k += 1;
            }
            assert(dirs@.take(dirs@.len() as int) =~= dirs@);
            assert(str_set(self.opened@) == str_set(old(self).opened@).union(str_set(dirs@)));
        }
        self.refresh_rows(progress);
    }


    /// The tree of `progress` with every directory open and the cursor on
    /// the recommended file (or the first row), scrolled to the top.
    pub fn from_progress_full(
        repo_name: &str,
        progress: &RepoProgress,
        hide_skipped: bool,
        flow: Option<FlowOrder>,
        hidden_paths: Vec<String>,
    ) -> (v: TreeView)
        requires
            progress.fits(),
        ensures
            counts_ok(v, progress.files@),
            rows_ok(v, progress.files@),
            str_set(v.opened@) == dir_paths(tree_rows(progress.files@, hide_skipped, str_set(hidden_paths@))),
            v.title@ == repo_name@,
            v.flow == flow,
            v.hide_skipped == hide_skipped,
            v.hidden_paths == hidden_paths,
            v.filter@ == Seq::<char>::empty(),
            !v.filter_editing,
            v.visible_rows == 1,
            v.offset == 0,
            !v.repo_complete,
            v.message is None,
            v.selected == match opt_view(v.recommend) {
                Some(p) => match file_index(rvs(v.rows@), p) {
                    Some(i) => i as usize,
                    None => 0usize,
                },
                None => 0usize,
            },
    {
        let opened = all_dir_paths(progress, hide_skipped, &hidden_paths);
        let rows = visible_rows_of(progress, &opened, hide_skipped, &hidden_paths, "");
        let mut view = TreeView {
            rows,
            selected: 0,
            recommend: None,
            title: repo_name.to_string(),
            opened,
            flow,
            flow_counts: None,
            overall: (0, 0),
            file_counts: (0, 0),
            recommend_lines: None,
            hide_skipped,
            filter: String::new(),
            filter_editing: false,
            visible_rows: 1,
            offset: 0,
            repo_complete: false,
            excluded: 0,
            message: None,
            hidden_paths,
            fully_expanded: false,
        };
        proof {
            reveal_strlit("");
            assert(""@ =~= Seq::<char>::empty());
        }
        view.update_counts(progress);
        view.jump_recommend();
        view.offset = 0;
        view
    }

    /// The files a skip toggle on the selected row applies to.
    pub fn override_paths(&self, progress: &RepoProgress) -> (r: Vec<String>)
        ensures
            str_views(r@) == override_paths_spec(*self, progress.files@),
    {
        let mut out: Vec<String> = Vec::new();
        if self.selected >= self.rows.len() {
            return out;
        }
        let ghost r = rv(self.rows@[self.selected as int]);
        match &self.rows[self.selected].kind {
            TreeRowKind::File { path } => {
                out.push(path.clone());
                assert(str_views(out@) =~= seq![r.path]);
                out
            },
            TreeRowKind::Dir { path } => {
                let d = chars_of(path.as_str());
                let mut ds = d.clone();
                ds.push('/');
                let ghost pred = under_spec(path@);
                let ghost all = progress.files@;
                let mut i: usize = 0;
                while i < progress.files.len()
                    invariant
                        i <= all.len(),
                        all == progress.files@,
                        d@ == path@,
                        ds@ == path@ + seq!['/'],
                        pred == under_spec(path@),
                        str_views(out@) == file_paths(keep(all.take(i as int), pred)),
                    decreases all.len() - i,
                {
                    assert(all.take(i + 1).drop_last() =~= all.take(i as int));
                    assert(all.take(i + 1).last() == all[i as int]);
                    let fc = chars_of(progress.files[i].relative_path.as_str());
                    if crate::text::eq_chars(fc.as_slice(), d.as_slice()) || crate::text::starts_with_chars(
                        fc.as_slice(),
                        ds.as_slice(),
                    ) {
                        let ghost before = out@;
                        out.push(progress.files[i].relative_path.clone());
                        assert(str_views(out@) =~= str_views(before).push(all[i as int].relative_path@));
                        assert(file_paths(keep(all.take(i + 1), pred)) =~= file_paths(keep(all.take(i as int), pred)).push(all[i as int].relative_path@));
                    }
                    i += 1;
                }
                assert(all.take(all.len() as int) =~= all);
                out
            },
        }
    }
}

/// Rows left for the list in a Tree screen `height` rows tall: the header,
/// Next, detail and footer lines and the two border rows are taken off.
pub fn list_height(height: u16) -> (n: usize)
    ensures
        n == sat_sub(height as nat, 6),
{
    if height >= 6 {
        (height - 6) as usize
    } else {
        0
    }
}

/// Rebuilding the tree keeps the cursor on the screen line it was on, as
/// long as the cursor was on screen and the row it lands on is at least
/// that far down the list.
pub proof fn law_refresh_keeps_screen_line(before: TreeView, after: TreeView, files: Seq<FileProgress>)
    requires
        refresh_spec(before, after, files),
        before.offset <= before.selected,
        before.selected - before.offset < if before.visible_rows == 0 {
            1
        } else {
            before.visible_rows
        },
        after.selected >= before.selected - before.offset,
    ensures
        after.offset <= after.selected,
        after.selected - after.offset == before.selected - before.offset,
{
}

/// Wherever the cursor goes, the window scrolls so that it is inside it.
pub proof fn law_cursor_stays_in_window(sel: nat, off: nat, vis: nat)
    ensures
        clamp_spec(sel, off, vis) <= sel,
        sel < clamp_spec(sel, off, vis) + if vis == 0 {
            1
        } else {
            vis
        },
{
}

/// Folding a directory twice (or unfolding it twice) leaves the set of open
/// directories as it was.
pub proof fn law_toggle_twice(opened: Set<Seq<char>>, p: Seq<char>)
    ensures
        toggled(toggled(opened, p), p) == opened,
{
    if opened.contains(p) {
        assert(opened.remove(p).insert(p) =~= opened);
    } else {
        assert(opened.insert(p).remove(p) =~= opened);
    }
}

/// An empty filter keeps every row.
pub proof fn law_empty_filter_keeps_rows(rows: Seq<RowView>)
    ensures
        filter_rows_spec(rows, Seq::empty()) == rows,
{
    assert(trim(Seq::<char>::empty()) =~= Seq::<char>::empty()) by {
        reveal_with_fuel(crate::text::trim_end, 1);
    }
    assert(ascii_lower(Seq::<char>::empty()) =~= Seq::<char>::empty());
}


/// Every file row of `rows` stands for one of `paths`.
pub open spec fn file_rows_within(rows: Seq<RowView>, paths: Set<Seq<char>>) -> bool {
    forall|j: int| 0 <= j < rows.len() && !#[trigger] rows[j].dir ==> paths.contains(rows[j].path)
}

/// The paths of the files that get a row.
pub open spec fn shown_paths(files: Seq<FileProgress>, hide_skipped: bool, hidden: Set<Seq<char>>) -> Set<Seq<char>> {
    Set::new(|p: Seq<char>| exists|i: int| 0 <= i < files.len() && #[trigger] files[i].relative_path@ == p && shown(files[i], hide_skipped, hidden))
}

proof fn lemma_dir_rows_are_dirs(parts: Seq<Seq<char>>, n: int, emitted: Set<Seq<char>>, files: Seq<FileProgress>)
    ensures
        forall|j: int| 0 <= j < dir_rows(parts, n, emitted, files).0.len() ==> #[trigger] dir_rows(parts, n, emitted, files).0[j].dir,
    decreases n,
{
    if n > 0 {
        lemma_dir_rows_are_dirs(parts, n - 1, emitted, files);
    }
}

proof fn lemma_flatten_within(files: Seq<FileProgress>, hide_skipped: bool, hidden: Set<Seq<char>>, all: Seq<FileProgress>)
    ensures
        file_rows_within(flatten_state(files, hide_skipped, hidden, all).0, shown_paths(files, hide_skipped, hidden)),
    decreases files.len(),
{
    if files.len() > 0 {
        let prev = files.drop_last();
        lemma_flatten_within(prev, hide_skipped, hidden, all);
        let s0 = shown_paths(prev, hide_skipped, hidden);
        let s1 = shown_paths(files, hide_skipped, hidden);
        assert forall|p: Seq<char>| s0.contains(p) implies s1.contains(p) by {
            let i = choose|i: int| 0 <= i < prev.len() && #[trigger] prev[i].relative_path@ == p && shown(prev[i], hide_skipped, hidden);
            assert(files[i] == prev[i]);
        }
        let (rows, em) = flatten_state(prev, hide_skipped, hidden, all);
        let f = files.last();
        if shown(f, hide_skipped, hidden) {
            let parts = split_char(f.relative_path@, '/');
            let (drows, em2) = dir_rows(parts, parts.len() - 1, em, all);
            lemma_dir_rows_are_dirs(parts, parts.len() - 1, em, all);
            let out = rows + drows.push(file_row_view(f, (parts.len() - 1) as nat, parts.last()));
            assert(s1.contains(f.relative_path@)) by {
                assert(files[files.len() - 1] == f);
            }
            assert forall|j: int| 0 <= j < out.len() && !#[trigger] out[j].dir implies s1.contains(out[j].path) by {
                if j < rows.len() {
                    assert(out[j] == rows[j]);
                } else if j < rows.len() + drows.len() {
                    assert(out[j] == drows[j - rows.len()]);
                }
            }
        }
    }
}

proof fn lemma_compress_within(rows: Seq<RowView>, i: int, paths: Set<Seq<char>>)
    requires
        file_rows_within(rows, paths),
    ensures
        file_rows_within(compress_from(rows, i), paths),
    decreases rows.len() - i,
{
    if 0 <= i < rows.len() {
        let row = rows[i];
        let end = subtree_end(rows, row.depth, i + 1);
        let c = first_child(rows, row.depth, i + 1, end);
        lemma_subtree_end_bounds(rows, row.depth, i + 1);
        lemma_first_child_bounds(rows, row.depth, i + 1, end);
        if row.dir && child_count(rows, row.depth, i + 1, end) == 1 && rows[c].dir {
            lemma_compress_within(rows, end, paths);
            let mid = rows.subrange(c + 1, end).map_values(|r: RowView| lifted(r));
            let rest = compress_from(rows, end);
            let out = seq![merged_view(row, rows[c])] + mid + rest;
            assert(compress_from(rows, i) == out);
            assert forall|j: int| 0 <= j < out.len() && !#[trigger] out[j].dir implies paths.contains(out[j].path) by {
                if j == 0 {
                } else if j < 1 + mid.len() {
                    assert(out[j] == lifted(rows[c + j]));
                } else {
                    assert(out[j] == rest[j - 1 - mid.len()]);
                }
            }
        } else {
            lemma_compress_within(rows, i + 1, paths);
            let rest = compress_from(rows, i + 1);
            let out = seq![row] + rest;
            assert(compress_from(rows, i) == out);
            assert forall|j: int| 0 <= j < out.len() && !#[trigger] out[j].dir implies paths.contains(out[j].path) by {
                if j > 0 {
                    assert(out[j] == rest[j - 1]);
                }
            }
        }
    }
}

proof fn lemma_chains_within(rows: Seq<RowView>, fuel: nat, paths: Set<Seq<char>>)
    requires
        file_rows_within(rows, paths),
    ensures
        file_rows_within(chains_spec(rows, fuel), paths),
    decreases fuel,
{
    if fuel > 0 {
        lemma_compress_within(rows, 0, paths);
        lemma_chains_within(compress_from(rows, 0), (fuel - 1) as nat, paths);
    }
}

proof fn lemma_collapse_within(rows: Seq<RowView>, opened: Set<Seq<char>>, paths: Set<Seq<char>>)
    requires
        file_rows_within(rows, paths),
    ensures
        file_rows_within(collapse_state(rows, opened).0, paths),
    decreases rows.len(),
{
    if rows.len() > 0 {
        lemma_collapse_within(rows.drop_last(), opened, paths);
    }
}

proof fn lemma_keep_within(rows: Seq<RowView>, pred: spec_fn(RowView) -> bool, paths: Set<Seq<char>>)
    requires
        file_rows_within(rows, paths),
    ensures
        file_rows_within(keep(rows, pred), paths),
    decreases rows.len(),
{
    if rows.len() > 0 {
        lemma_keep_within(rows.drop_last(), pred, paths);
    }
}

/// Hidden files never get a row, and neither do excluded files while
/// excluded files are hidden: every file row on screen is a shown file.
pub proof fn law_only_shown_files_have_rows(
    files: Seq<FileProgress>,
    opened: Set<Seq<char>>,
    hide_skipped: bool,
    hidden: Set<Seq<char>>,
    filter: Seq<char>,
    j: int,
)
    requires
        0 <= j < visible_spec(files, opened, hide_skipped, hidden, filter).len(),
        !visible_spec(files, opened, hide_skipped, hidden, filter)[j].dir,
    ensures
        exists|i: int|
            0 <= i < files.len() && #[trigger] files[i].relative_path@ == visible_spec(files, opened, hide_skipped, hidden, filter)[j].path
                && shown(files[i], hide_skipped, hidden),
        !hidden.contains(visible_spec(files, opened, hide_skipped, hidden, filter)[j].path),
{
    let paths = shown_paths(files, hide_skipped, hidden);
    let f = flatten_state(files, hide_skipped, hidden, files).0;
    lemma_flatten_within(files, hide_skipped, hidden, files);
    lemma_chains_within(f, f.len(), paths);
    let t = tree_rows(files, hide_skipped, hidden);
    lemma_collapse_within(t, opened, paths);
    let c = collapse_state(t, opened).0;
    let q = filter_query(filter);
    if q.len() > 0 {
        lemma_keep_within(c, kept_by_filter(c, q), paths);
    }
    let v = visible_spec(files, opened, hide_skipped, hidden, filter);
    assert(paths.contains(v[j].path));
}

} // verus!
