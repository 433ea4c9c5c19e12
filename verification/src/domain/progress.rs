//! Pure progress aggregation helpers.

use vstd::prelude::*;

use crate::domain::content::{
    files_all_lines, files_completed, files_total, lemma_chunks_completed_le_total,
    lemma_files_all_prefix, FileProgress, FileStatus, RepoProgress,
};
use crate::domain::dependency::{insert_sorted_unique, strictly_sorted, views};
use crate::text::{
    chars_of, lemma_split_char_nonempty, split_char, split_on, starts_with, starts_with_chars,
    str_eq, string_of,
};

verus! {

/// Directory node progress for tree display.
#[derive(Debug, Clone, PartialEq, Eq)]
pub struct DirProgress {
    pub path: String,
    pub completed_lines: usize,
    pub total_lines: usize,
    pub done_files: usize,
    pub todo_files: usize,
    pub skipped_files: usize,
}

/// `s` without trailing `c`s.
pub open spec fn trim_end_char(s: Seq<char>, c: char) -> Seq<char>
    decreases s.len(),
{
    if s.len() > 0 && s.last() == c {
        trim_end_char(s.drop_last(), c)
    } else {
        s
    }
}

/// The path prefix that files under `dir` start with (`""` for the root).
pub open spec fn dir_prefix_of(dir: Seq<char>) -> Seq<char> {
    if dir.len() == 0 {
        Seq::empty()
    } else {
        trim_end_char(dir, '/') + seq!['/']
    }
}

/// The file at `path` is under directory `dir`.
pub open spec fn under_dir(path: Seq<char>, dir: Seq<char>) -> bool {
    let prefix = dir_prefix_of(dir);
    prefix.len() == 0 || starts_with(path, prefix) || path == dir
}

/// Line and file counts of the files under `dir`.
pub open spec fn dir_sums(files: Seq<FileProgress>, dir: Seq<char>) -> (nat, nat, nat, nat, nat)
    decreases files.len(),
{
    if files.len() == 0 {
        (0, 0, 0, 0, 0)
    } else {
        let (c, t, d, o, s) = dir_sums(files.drop_last(), dir);
        let f = files.last();
        if !under_dir(f.relative_path@, dir) {
            (c, t, d, o, s)
        } else {
            match f.status_spec() {
                FileStatus::Skipped => (c, t, d, o, s + 1),
                FileStatus::Done => (c + f.completed_spec(), t + f.total_spec(), d + 1, o, s),
                FileStatus::Todo => (c + f.completed_spec(), t + f.total_spec(), d, o + 1, s),
            }
        }
    }
}

pub proof fn lemma_dir_sums_bounded(files: Seq<FileProgress>, dir: Seq<char>)
    ensures
        dir_sums(files, dir).0 <= dir_sums(files, dir).1,
        dir_sums(files, dir).1 <= files_all_lines(files),
        dir_sums(files, dir).2 + dir_sums(files, dir).3 + dir_sums(files, dir).4 <= files.len(),
    decreases files.len(),
{
    if files.len() > 0 {
        lemma_dir_sums_bounded(files.drop_last(), dir);
        lemma_chunks_completed_le_total(files.last().chunks@);
    }
}

fn trim_end_slashes(s: &[char]) -> (out: Vec<char>)
    ensures
        out@ == trim_end_char(s@, '/'),
{
    let mut end = s.len();
    assert(s@.take(end as int) =~= s@);
    while end > 0 && s[end - 1] == '/'
        invariant
            end <= s@.len(),
            trim_end_char(s@, '/') == trim_end_char(s@.take(end as int), '/'),
        decreases end,
    {
        assert(s@.take(end as int).drop_last() =~= s@.take(end - 1));
        end -= 1;
    }
    crate::text::subrange(s, 0, end)
}

/// Aggregate line counts under a directory prefix (`""` = repo root).
pub fn directory_progress(repo: &RepoProgress, dir_prefix: &str) -> (d: DirProgress)
    requires
        repo.fits(),
    ensures
        d.path@ == dir_prefix@,
        (d.completed_lines as nat, d.total_lines as nat, d.done_files as nat, d.todo_files as nat, d.skipped_files as nat)
            == dir_sums(repo.files@, dir_prefix@),
{
    let dir = chars_of(dir_prefix);
    let prefix: Vec<char> = if dir.len() == 0 {
        Vec::new()
    } else {
        let mut p = trim_end_slashes(dir.as_slice());
        p.push('/');
        p
    };
    assert(prefix@ =~= dir_prefix_of(dir_prefix@));
    let mut completed: usize = 0;
    let mut total: usize = 0;
    let mut done_files: usize = 0;
    let mut todo_files: usize = 0;
    let mut skipped_files: usize = 0;
    let mut i: usize = 0;
    while i < repo.files.len()
        invariant
            repo.fits(),
            i <= repo.files@.len(),
            prefix@ == dir_prefix_of(dir_prefix@),
            dir@ == dir_prefix@,
            (completed as nat, total as nat, done_files as nat, todo_files as nat, skipped_files as nat)
                == dir_sums(repo.files@.take(i as int), dir_prefix@),
        decreases repo.files.len() - i,
    {
        let f = &repo.files[i];
        let ghost prev = repo.files@.take(i as int);
        let ghost next = repo.files@.take(i + 1);
        assert(next.drop_last() =~= prev);
        proof {
            lemma_dir_sums_bounded(next, dir_prefix@);
            lemma_files_all_prefix(repo.files@, i + 1);
            lemma_dir_sums_bounded(prev, dir_prefix@);
            assert(next.len() <= repo.files@.len());
        }
        let path = chars_of(f.relative_path.as_str());
        let under = if prefix.len() == 0 {
            true
        } else {
            starts_with_chars(path.as_slice(), prefix.as_slice()) || crate::text::eq_chars(
                path.as_slice(),
                dir.as_slice(),
            )
        };
        if under {
            match f.derive_status() {
                FileStatus::Skipped => {
                    skipped_files += 1;
                },
                FileStatus::Done => {
                    done_files += 1;
                    completed += f.completed_lines();
                    total += f.total_lines();
                },
                FileStatus::Todo => {
                    todo_files += 1;
                    completed += f.completed_lines();
                    total += f.total_lines();
                },
            }
        }
        i += 1;
    }
    assert(repo.files@.take(repo.files@.len() as int) =~= repo.files@);
    DirProgress {
        path: dir_prefix.to_owned(),
        completed_lines: completed,
        total_lines: total,
        done_files,
        todo_files,
        skipped_files,
    }
}

proof fn lemma_dir_sums_mono(files: Seq<FileProgress>, inner: Seq<char>, outer: Seq<char>)
    requires
        forall|p: Seq<char>| under_dir(p, inner) ==> under_dir(p, outer),
    ensures
        dir_sums(files, inner).0 <= dir_sums(files, outer).0,
        dir_sums(files, inner).1 <= dir_sums(files, outer).1,
        dir_sums(files, inner).2 <= dir_sums(files, outer).2,
        dir_sums(files, inner).3 <= dir_sums(files, outer).3,
        dir_sums(files, inner).4 <= dir_sums(files, outer).4,
    decreases files.len(),
{
    if files.len() > 0 {
        lemma_dir_sums_mono(files.drop_last(), inner, outer);
        assert(under_dir(files.last().relative_path@, inner) ==> under_dir(
            files.last().relative_path@,
            outer,
        ));
    }
}

proof fn lemma_trim_no_slash(s: Seq<char>)
    requires
        s.len() > 0,
        s.last() != '/',
    ensures
        trim_end_char(s, '/') == s,
{
}

/// Every count of a directory is at least that of each of its
/// subdirectories: a directory rolls up the files at every depth below it.
pub proof fn law_directory_covers_subdirectories(files: Seq<FileProgress>, dir: Seq<char>, name: Seq<char>)
    requires
        dir.len() > 0,
        dir.last() != '/',
        name.len() > 0,
        name.last() != '/',
    ensures
        ({
            let sub = dir + seq!['/'] + name;
            &&& dir_sums(files, sub).0 <= dir_sums(files, dir).0
            &&& dir_sums(files, sub).1 <= dir_sums(files, dir).1
            &&& dir_sums(files, sub).2 <= dir_sums(files, dir).2
            &&& dir_sums(files, sub).3 <= dir_sums(files, dir).3
            &&& dir_sums(files, sub).4 <= dir_sums(files, dir).4
        }),
{
    let sub = dir + seq!['/'] + name;
    lemma_trim_no_slash(dir);
    assert(sub.last() == name.last());
    lemma_trim_no_slash(sub);
    let dp = dir + seq!['/'];
    let sp = sub + seq!['/'];
    assert(dir_prefix_of(dir) == dp);
    assert(dir_prefix_of(sub) == sp);
    assert forall|p: Seq<char>| under_dir(p, sub) implies under_dir(p, dir) by {
        if starts_with(p, sp) {
            assert(p.take(dp.len() as int) =~= sp.take(dp.len() as int));
            assert(sp.take(dp.len() as int) =~= dp);
        } else {
            assert(p == sub);
            assert(p.take(dp.len() as int) =~= dp);
        }
    }
    lemma_dir_sums_mono(files, sub, dir);
}

/// A file anywhere below a directory, at any depth, is counted in it.
pub proof fn law_nested_file_counts(f: FileProgress, dir: Seq<char>, rest: Seq<char>)
    requires
        dir.len() > 0,
        dir.last() != '/',
    ensures
        f.relative_path@ == dir + seq!['/'] + rest ==> dir_sums(seq![f], dir).1 == (
            if f.status_spec() == FileStatus::Skipped {
                0
            } else {
                f.total_spec()
            }),
{
    lemma_trim_no_slash(dir);
    let dp = dir + seq!['/'];
    if f.relative_path@ == dir + seq!['/'] + rest {
        assert(dir_prefix_of(dir) == dp);
        assert(f.relative_path@.subrange(0, dp.len() as int) =~= dp);
        assert(under_dir(f.relative_path@, dir));
        assert(seq![f].drop_last() =~= Seq::<FileProgress>::empty());
        assert(seq![f].last() == f);
        assert(dir_sums(seq![f].drop_last(), dir) == (0nat, 0nat, 0nat, 0nat, 0nat));
    }
}

proof fn lemma_root_sums(files: Seq<FileProgress>)
    ensures
        dir_sums(files, Seq::empty()).0 == files_completed(files),
        dir_sums(files, Seq::empty()).1 == files_total(files),
    decreases files.len(),
{
    if files.len() > 0 {
        lemma_root_sums(files.drop_last());
    }
}

/// The repository root directory rolls up exactly the repository's line totals.
pub proof fn law_root_directory_is_repo(repo: RepoProgress)
    ensures
        dir_sums(repo.files@, Seq::empty()).0 == repo.completed_spec(),
        dir_sums(repo.files@, Seq::empty()).1 == repo.total_spec(),
        dir_sums(repo.files@, Seq::empty()).2 + dir_sums(repo.files@, Seq::empty()).3 + dir_sums(
            repo.files@,
            Seq::empty(),
        ).4 == repo.files@.len(),
{
    lemma_root_sums(repo.files@);
    lemma_root_counts(repo.files@);
}

proof fn lemma_root_counts(files: Seq<FileProgress>)
    ensures
        dir_sums(files, Seq::empty()).2 + dir_sums(files, Seq::empty()).3 + dir_sums(
            files,
            Seq::empty(),
        ).4 == files.len(),
    decreases files.len(),
{
    if files.len() > 0 {
        lemma_root_counts(files.drop_last());
    }
}

/// The first `k` pieces of a path joined back with `/`, the way directories
/// are accumulated (an empty accumulator takes the next piece as it is).
pub open spec fn joined(parts: Seq<Seq<char>>, k: nat) -> Seq<char>
    decreases k,
{
    if k == 0 {
        Seq::empty()
    } else {
        let prev = joined(parts, (k - 1) as nat);
        if prev.len() == 0 {
            parts[k - 1]
        } else {
            prev + seq!['/'] + parts[k - 1]
        }
    }
}

/// The first `k` accumulated directories of a split path.
pub open spec fn dirs_of_parts(parts: Seq<Seq<char>>, k: nat) -> Seq<Seq<char>> {
    Seq::new(k, |m: int| joined(parts, (m + 1) as nat))
}

/// The directories the file at `path` sits in, outermost first.
pub open spec fn dirs_of(path: Seq<char>) -> Seq<Seq<char>> {
    let parts = split_char(path, '/');
    if parts.len() <= 1 {
        Seq::empty()
    } else {
        dirs_of_parts(parts, (parts.len() - 1) as nat)
    }
}

/// Flatten directory names that appear in file paths.
pub fn collect_directories(repo: &RepoProgress) -> (dirs: Vec<String>)
    ensures
        strictly_sorted(views(dirs@)),
        forall|d: Seq<char>|
            views(dirs@).contains(d) <==> exists|i: int|
                0 <= i < repo.files@.len() && dirs_of((#[trigger] repo.files@[i]).relative_path@).contains(d),
{
    let mut dirs: Vec<String> = Vec::new();
    let mut i: usize = 0;
    while i < repo.files.len()
        invariant
            i <= repo.files@.len(),
            strictly_sorted(views(dirs@)),
            forall|d: Seq<char>|
                views(dirs@).contains(d) <==> exists|j: int|
                    0 <= j < i && dirs_of((#[trigger] repo.files@[j]).relative_path@).contains(d),
        decreases repo.files.len() - i,
    {
        let path = chars_of(repo.files[i].relative_path.as_str());
        let parts = split_on(path.as_slice(), '/');
        let ghost sp = split_char(path@, '/');
        proof {
            lemma_split_char_nonempty(path@, '/');
        }
        let ghost before = views(dirs@);
        let mut acc: Vec<char> = Vec::new();
        let mut k: usize = 0;
        let bound: usize = if parts.len() > 1 {
            parts.len() - 1
        } else {
            0
        };
        assert(dirs_of_parts(sp, 0) =~= Seq::<Seq<char>>::empty());
        while k < bound
            invariant
                k <= bound,
                i < repo.files@.len(),
                path@ == repo.files@[i as int].relative_path@,
                sp == split_char(path@, '/'),
                forall|d: Seq<char>|
                    before.contains(d) <==> exists|j: int|
                        0 <= j < i && dirs_of((#[trigger] repo.files@[j]).relative_path@).contains(d),
                bound == if sp.len() > 1 {
                    sp.len() - 1
                } else {
                    0
                },
                parts@.len() == sp.len(),
                forall|q: int| 0 <= q < parts@.len() ==> #[trigger] parts@[q]@ == sp[q],
                acc@ == joined(sp, k as nat),
                strictly_sorted(views(dirs@)),
                forall|d: Seq<char>|
                    views(dirs@).contains(d) <==> (before.contains(d) || dirs_of_parts(
                        sp,
                        k as nat,
                    ).contains(d)),
            decreases bound - k,
        {
            let ghost prev_dirs = views(dirs@);
            assert(forall|d: Seq<char>|
                prev_dirs.contains(d) <==> (before.contains(d) || dirs_of_parts(sp, k as nat).contains(d)));
            if acc.len() > 0 {
                acc.push('/');
            }
            let piece = &parts[k];
            let mut q: usize = 0;
            let ghost base = acc@;
            while q < piece.len()
                invariant
                    q <= piece@.len(),
                    acc@ == base + piece@.take(q as int),
                    views(dirs@) == prev_dirs,
                decreases piece.len() - q,
            {
                acc.push(piece[q]);
                assert(piece@.take(q + 1) =~= piece@.take(q as int).push(piece@[q as int]));
                q += 1;
            }
            assert(piece@.take(piece@.len() as int) =~= piece@);
            assert(acc@ =~= joined(sp, (k + 1) as nat));
            let name = string_of(acc.as_slice());
            insert_sorted_unique(&mut dirs, name.as_str());
            assert(dirs_of_parts(sp, (k + 1) as nat) =~= dirs_of_parts(sp, k as nat).push(
                joined(sp, (k + 1) as nat),
            ));
            assert forall|d: Seq<char>| views(dirs@).contains(d) <==> (before.contains(d)
                || dirs_of_parts(sp, (k + 1) as nat).contains(d)) by {
                assert(prev_dirs.contains(d) <==> (before.contains(d) || dirs_of_parts(sp, k as nat).contains(d)));
                assert(views(dirs@).contains(d) <==> (prev_dirs.contains(d) || d == name@));
                crate::text::lemma_push_contains(
                    dirs_of_parts(sp, k as nat),
                    joined(sp, (k + 1) as nat),
                    d,
                );
            }
            k += 1;
        }
        assert(dirs_of(path@) =~= dirs_of_parts(sp, k as nat));
        assert forall|d: Seq<char>| views(dirs@).contains(d) <==> exists|j: int|
            0 <= j < i + 1 && dirs_of((#[trigger] repo.files@[j]).relative_path@).contains(d) by {
            assert(views(dirs@).contains(d) <==> (before.contains(d) || dirs_of_parts(sp, k as nat).contains(d)));
            assert(before.contains(d) <==> exists|j: int|
                0 <= j < i && dirs_of((#[trigger] repo.files@[j]).relative_path@).contains(d));
            if dirs_of(path@).contains(d) {
                assert(0 <= i < i + 1 && dirs_of(repo.files@[i as int].relative_path@).contains(d));
            }
            if exists|j: int| 0 <= j < i + 1 && dirs_of((#[trigger] repo.files@[j]).relative_path@).contains(d) {
                let j = choose|j: int| 0 <= j < i + 1 && dirs_of((#[trigger] repo.files@[j]).relative_path@).contains(d);
                if j < i {
                    assert(before.contains(d));
                } else {
                    assert(dirs_of(path@).contains(d));
                }
            }
        }
        i += 1;
    }
    dirs
}

} // verus!
