//! Per-file-type include/exclude toggles, keyed by extension or bare filename.

use vstd::prelude::*;

use crate::domain::content::{FileProgress, RepoProgress, SkipReason};
use crate::text::{
    lemma_insert_contains, ascii_lower, ascii_lower_chars, chars_of, last_char_index, last_char_pos, lemma_lex_irreflexive,
    lemma_lex_total, lemma_lex_transitive, lex_less, lex_lt, push_chars, str_eq, string_of,
    subrange,
};

verus! {

/// The last path segment.
pub open spec fn base_name(p: Seq<char>) -> Seq<char> {
    match last_char_index(p, '/') {
        Some(i) => p.skip(i + 1),
        None => p,
    }
}

/// Position of the extension dot in a file name, when there is a non-empty
/// stem before it and a non-empty extension after it.
pub open spec fn ext_dot(name: Seq<char>) -> Option<int> {
    match last_char_index(name, '.') {
        Some(i) => if 0 < i && i + 1 < name.len() {
            Some(i)
        } else {
            None
        },
        None => None,
    }
}

/// Extension (lowercased, with leading `.`) if present, else the bare file name.
pub open spec fn type_key(p: Seq<char>) -> Seq<char> {
    let name = base_name(p);
    match ext_dot(name) {
        Some(i) => seq!['.'] + ascii_lower(name.skip(i + 1)),
        None => name,
    }
}

/// The file's type is named by an extension.
pub open spec fn has_ext(p: Seq<char>) -> bool {
    ext_dot(base_name(p)) is Some
}

fn key_parts(relative_path: &str) -> (r: (String, bool))
    ensures
        r.0@ == type_key(relative_path@),
        r.1 == has_ext(relative_path@),
{
    let p = chars_of(relative_path);
    proof {
        crate::text::lemma_last_char_index(p@, '/');
    }
    let name = match last_char_pos(p.as_slice(), '/') {
        Some(i) => {
            assert(i < p.len());
            subrange(p.as_slice(), i + 1, p.len())
        },
        None => p,
    };
    assert(name@ =~= base_name(relative_path@));
    proof {
        crate::text::lemma_last_char_index(name@, '.');
    }
    match last_char_pos(name.as_slice(), '.') {
        Some(i) => {
            if 0 < i && i + 1 < name.len() {
                let ext = subrange(name.as_slice(), i + 1, name.len());
                let low = ascii_lower_chars(ext.as_slice());
                let mut key = ".".to_owned();
                proof {
                    reveal_strlit(".");
                }
                push_chars(&mut key, low.as_slice());
                assert(ext@ =~= name@.skip(i + 1));
                assert(key@ =~= seq!['.'] + ascii_lower(name@.skip(i + 1)));
                return (key, true);
            }
            (string_of(name.as_slice()), false)
        },
        None => (string_of(name.as_slice()), false),
    }
}

/// Extension (lowercased, with leading `.`) if present, else the bare file name.
pub fn file_type_key(relative_path: &str) -> (k: String)
    ensures
        k@ == type_key(relative_path@),
{
    key_parts(relative_path).0
}

/// Include / exclude / hide state of one file type.
#[derive(Debug, Clone, Copy, PartialEq, Eq, Structural)]
pub enum FileTypeState {
    Included,
    Excluded,
    Hidden,
}

pub open spec fn next_state(s: FileTypeState) -> FileTypeState {
    match s {
        FileTypeState::Included => FileTypeState::Excluded,
        FileTypeState::Excluded => FileTypeState::Hidden,
        FileTypeState::Hidden => FileTypeState::Included,
    }
}

/// The stored text of a state.
pub open spec fn state_text(s: FileTypeState) -> Seq<char> {
    match s {
        FileTypeState::Included => "included"@,
        FileTypeState::Excluded => "excluded"@,
        FileTypeState::Hidden => "hidden"@,
    }
}

impl FileTypeState {
    pub fn as_str(self) -> (t: &'static str)
        ensures
            t@ == state_text(self),
    {
        match self {
            FileTypeState::Included => "included",
            FileTypeState::Excluded => "excluded",
            FileTypeState::Hidden => "hidden",
        }
    }

    /// The state a stored text names, if any.
    pub fn parse(raw: &str) -> (r: Option<FileTypeState>)
        ensures
            r matches Some(s) ==> state_text(s) == raw@,
            r is None ==> forall|s: FileTypeState| state_text(s) != raw@,
    {
        proof {
            reveal_strlit("included");
            reveal_strlit("excluded");
            reveal_strlit("hidden");
        }
        if crate::text::str_eq(raw, "included") {
            Some(FileTypeState::Included)
        } else if crate::text::str_eq(raw, "excluded") {
            Some(FileTypeState::Excluded)
        } else if crate::text::str_eq(raw, "hidden") {
            Some(FileTypeState::Hidden)
        } else {
            None
        }
    }

    pub fn cycle(self) -> (r: Self)
        ensures
            r == next_state(self),
    {
        match self {
            FileTypeState::Included => FileTypeState::Excluded,
            FileTypeState::Excluded => FileTypeState::Hidden,
            FileTypeState::Hidden => FileTypeState::Included,
        }
    }
}

/// Three toggles return a file type to its state.
pub proof fn law_state_cycle(s: FileTypeState)
    ensures
        next_state(next_state(next_state(s))) == s,
        next_state(s) != s,
{
}

#[derive(Debug, Clone, PartialEq, Eq)]
pub struct FileTypeStat {
    pub key: String,
    pub files: usize,
    pub typeable: usize,
    pub has_extension: bool,
}

/// Skip reasons whose files can never be rescued by a file-type toggle.
pub open spec fn untoggleable(r: SkipReason) -> bool {
    match r {
        SkipReason::VcsOrDependencyDir | SkipReason::GeneratedOrLockFile | SkipReason::Binary
        | SkipReason::IoError(_) => true,
        _ => false,
    }
}

fn is_untoggleable(reason: &SkipReason) -> (b: bool)
    ensures
        b == untoggleable(*reason),
{
    match reason {
        SkipReason::VcsOrDependencyDir | SkipReason::GeneratedOrLockFile | SkipReason::Binary
        | SkipReason::IoError(_) => true,
        _ => false,
    }
}

/// The file keeps its type in the toggle list: it has content, or a toggle could rescue it.
pub open spec fn keeps_type(f: FileProgress) -> bool {
    f.chunks@.len() > 0 || !(f.skip_reason is Some && untoggleable(f.skip_reason.unwrap()))
}

pub open spec fn key_count(files: Seq<FileProgress>, key: Seq<char>) -> nat
    decreases files.len(),
{
    if files.len() == 0 {
        0
    } else {
        key_count(files.drop_last(), key) + if type_key(files.last().relative_path@) == key {
            1nat
        } else {
            0nat
        }
    }
}

pub open spec fn key_typeable(files: Seq<FileProgress>, key: Seq<char>) -> nat
    decreases files.len(),
{
    if files.len() == 0 {
        0
    } else {
        key_typeable(files.drop_last(), key) + if type_key(files.last().relative_path@) == key
            && files.last().chunks@.len() > 0 {
            1nat
        } else {
            0nat
        }
    }
}

pub open spec fn key_has_ext(files: Seq<FileProgress>, key: Seq<char>) -> bool {
    exists|i: int|
        0 <= i < files.len() && type_key(#[trigger] files[i].relative_path@) == key && has_ext(
            files[i].relative_path@,
        )
}

pub open spec fn key_kept(files: Seq<FileProgress>, key: Seq<char>) -> bool {
    exists|i: int|
        0 <= i < files.len() && type_key(#[trigger] files[i].relative_path@) == key && keeps_type(
            files[i],
        )
}

/// Order of the toggle list: more files first, then by key.
pub open spec fn stat_before(a: FileTypeStat, b: FileTypeStat) -> bool {
    a.files > b.files || (a.files == b.files && lex_lt(a.key@, b.key@))
}

pub proof fn lemma_key_count_le(files: Seq<FileProgress>, key: Seq<char>)
    ensures
        key_typeable(files, key) <= key_count(files, key),
        key_count(files, key) <= files.len(),
        key_count(files, key) > 0 <==> exists|i: int|
            0 <= i < files.len() && type_key(#[trigger] files[i].relative_path@) == key,
    decreases files.len(),
{
    if files.len() > 0 {
        lemma_key_count_le(files.drop_last(), key);
        if key_count(files.drop_last(), key) > 0 {
            let i = choose|i: int|
                0 <= i < files.drop_last().len() && type_key(
                    #[trigger] files.drop_last()[i].relative_path@,
                ) == key;
            assert(files[i] == files.drop_last()[i]);
        }
        if exists|i: int| 0 <= i < files.len() && type_key(#[trigger] files[i].relative_path@) == key {
            let i = choose|i: int| 0 <= i < files.len() && type_key(#[trigger] files[i].relative_path@) == key;
            if i < files.len() - 1 {
                assert(files.drop_last()[i] == files[i]);
            }
        }
    }
}

/// One group while counting.
struct Group {
    key: String,
    files: usize,
    typeable: usize,
    has_extension: bool,
    kept: bool,
}

spec fn groups_ok(groups: Seq<Group>, files: Seq<FileProgress>) -> bool {
    &&& forall|g: int, h: int| 0 <= g < h < groups.len() ==> groups[g].key@ != groups[h].key@
    &&& forall|g: int|
        0 <= g < groups.len() ==> {
            let k = (#[trigger] groups[g]).key@;
            &&& groups[g].files == key_count(files, k)
            &&& groups[g].typeable == key_typeable(files, k)
            &&& groups[g].has_extension == key_has_ext(files, k)
            &&& groups[g].kept == key_kept(files, k)
            &&& key_count(files, k) > 0
        }
    &&& forall|i: int|
        0 <= i < files.len() ==> exists|g: int|
            0 <= g < groups.len() && (#[trigger] groups[g]).key@ == type_key(
                (#[trigger] files[i]).relative_path@,
            )
}

proof fn lemma_counts_push(prev: Seq<FileProgress>, f: FileProgress, k: Seq<char>)
    ensures
        key_count(prev.push(f), k) == key_count(prev, k) + if k == type_key(f.relative_path@) {
            1nat
        } else {
            0nat
        },
        key_typeable(prev.push(f), k) == key_typeable(prev, k) + if k == type_key(
            f.relative_path@,
        ) && f.chunks@.len() > 0 {
            1nat
        } else {
            0nat
        },
        key_has_ext(prev.push(f), k) == (key_has_ext(prev, k) || (k == type_key(f.relative_path@)
            && has_ext(f.relative_path@))),
        key_kept(prev.push(f), k) == (key_kept(prev, k) || (k == type_key(f.relative_path@)
            && keeps_type(f))),
{
    let next = prev.push(f);
    assert(next.drop_last() =~= prev);
    if key_has_ext(next, k) {
        let q = choose|q: int|
            0 <= q < next.len() && type_key(#[trigger] next[q].relative_path@) == k && has_ext(
                next[q].relative_path@,
            );
        if q < prev.len() {
            assert(prev[q] == next[q]);
        }
    }
    if key_has_ext(prev, k) {
        let q = choose|q: int|
            0 <= q < prev.len() && type_key(#[trigger] prev[q].relative_path@) == k && has_ext(
                prev[q].relative_path@,
            );
        assert(prev[q] == next[q]);
    }
    if k == type_key(f.relative_path@) {
        assert(next[prev.len() as int] == f);
    }
    if key_kept(next, k) {
        let q = choose|q: int|
            0 <= q < next.len() && type_key(#[trigger] next[q].relative_path@) == k && keeps_type(
                next[q],
            );
        if q < prev.len() {
            assert(prev[q] == next[q]);
        }
    }
    if key_kept(prev, k) {
        let q = choose|q: int|
            0 <= q < prev.len() && type_key(#[trigger] prev[q].relative_path@) == k && keeps_type(
                prev[q],
            );
        assert(prev[q] == next[q]);
    }
}

/// Count one more file into its group.
fn add_file(groups: &mut Vec<Group>, f: &FileProgress, Ghost(prev): Ghost<Seq<FileProgress>>)
    requires
        groups_ok(old(groups)@, prev),
        old(groups)@.len() <= prev.len(),
        prev.len() < usize::MAX,
    ensures
        groups_ok(final(groups)@, prev.push(*f)),
        final(groups)@.len() <= prev.len() + 1,
{
    let ghost next = prev.push(*f);
    let (key, ext) = key_parts(f.relative_path.as_str());
    let has_chunks = f.chunks.len() > 0;
    let keeps = has_chunks || !match &f.skip_reason {
        Some(r) => is_untoggleable(r),
        None => false,
    };
    assert(keeps == keeps_type(*f));
    let mut g: usize = 0;
    let mut found = false;
    while g < groups.len() && !found
        invariant
            g <= groups@.len(),
            !found ==> forall|h: int| 0 <= h < g ==> groups@[h].key@ != key@,
            found ==> g < groups@.len() && groups@[g as int].key@ == key@,
        decreases groups.len() - g + if found {
            0int
        } else {
            1int
        },
    {
        if str_eq(groups[g].key.as_str(), key.as_str()) {
            found = true;
        } else {
            g += 1;
        }
    }
    proof {
        lemma_key_count_le(prev, key@);
        lemma_key_count_le(next, key@);
    }
    if found {
        let updated = Group {
            key: crate::text::copy_string(&groups[g].key),
            files: groups[g].files + 1,
            typeable: if has_chunks {
                groups[g].typeable + 1
            } else {
                groups[g].typeable
            },
            has_extension: groups[g].has_extension || ext,
            kept: groups[g].kept || keeps,
        };
        let ghost before = groups@;
        groups.set(g, updated);
        proof {
            assert forall|h: int| 0 <= h < groups@.len() implies {
                let k = (#[trigger] groups@[h]).key@;
                &&& groups@[h].files == key_count(next, k)
                &&& groups@[h].typeable == key_typeable(next, k)
                &&& groups@[h].has_extension == key_has_ext(next, k)
                &&& groups@[h].kept == key_kept(next, k)
                &&& key_count(next, k) > 0
            } by {
                lemma_counts_push(prev, *f, groups@[h].key@);
                if h != g {
                    assert(groups@[h] == before[h]);
                }
            }
            assert forall|i: int| 0 <= i < next.len() implies exists|h: int|
                0 <= h < groups@.len() && (#[trigger] groups@[h]).key@ == type_key(
                    (#[trigger] next[i]).relative_path@,
                ) by {
                if i < prev.len() {
                    assert(next[i] == prev[i]);
                    let h = choose|h: int|
                        0 <= h < before.len() && (#[trigger] before[h]).key@ == type_key(
                            prev[i].relative_path@,
                        );
                    assert(groups@[h].key@ == before[h].key@);
                } else {
                    assert(groups@[g as int].key@ == type_key(next[i].relative_path@));
                }
            }
        }
    } else {
        proof {
            assert(key_count(prev, key@) == 0) by {
                if key_count(prev, key@) > 0 {
                    let q = choose|q: int|
                        0 <= q < prev.len() && type_key(#[trigger] prev[q].relative_path@) == key@;
                    let h = choose|h: int|
                        0 <= h < groups@.len() && (#[trigger] groups@[h]).key@ == type_key(
                            (#[trigger] prev[q]).relative_path@,
                        );
                }
            }
            assert(!key_has_ext(prev, key@)) by {
                if key_has_ext(prev, key@) {
                    let q = choose|q: int|
                        0 <= q < prev.len() && type_key(#[trigger] prev[q].relative_path@) == key@
                            && has_ext(prev[q].relative_path@);
                }
            }
            assert(!key_kept(prev, key@)) by {
                if key_kept(prev, key@) {
                    let q = choose|q: int|
                        0 <= q < prev.len() && type_key(#[trigger] prev[q].relative_path@) == key@
                            && keeps_type(prev[q]);
                }
            }
        }
        let ghost before = groups@;
        groups.push(
            Group {
                key,
                files: 1,
                typeable: if has_chunks {
                    1
                } else {
                    0
                },
                has_extension: ext,
                kept: keeps,
            },
        );
        proof {
            assert forall|h: int| 0 <= h < groups@.len() implies {
                let k = (#[trigger] groups@[h]).key@;
                &&& groups@[h].files == key_count(next, k)
                &&& groups@[h].typeable == key_typeable(next, k)
                &&& groups@[h].has_extension == key_has_ext(next, k)
                &&& groups@[h].kept == key_kept(next, k)
                &&& key_count(next, k) > 0
            } by {
                lemma_counts_push(prev, *f, groups@[h].key@);
                if h < before.len() {
                    assert(groups@[h] == before[h]);
                }
            }
            assert forall|i: int| 0 <= i < next.len() implies exists|h: int|
                0 <= h < groups@.len() && (#[trigger] groups@[h]).key@ == type_key(
                    (#[trigger] next[i]).relative_path@,
                ) by {
                if i < prev.len() {
                    assert(next[i] == prev[i]);
                    let h = choose|h: int|
                        0 <= h < before.len() && (#[trigger] before[h]).key@ == type_key(
                            prev[i].relative_path@,
                        );
                    assert(groups@[h] == before[h]);
                } else {
                    assert(groups@[before.len() as int].key@ == type_key(next[i].relative_path@));
                }
            }
        }
    }
}

spec fn stat_matches(s: FileTypeStat, g: Group) -> bool {
    &&& g.kept
    &&& s.key@ == g.key@
    &&& s.files == g.files
    &&& s.typeable == g.typeable
    &&& s.has_extension == g.has_extension
}

pub open spec fn stats_sorted(s: Seq<FileTypeStat>) -> bool {
    forall|a: int, b: int| 0 <= a < b < s.len() ==> stat_before(s[a], s[b])
}

/// Insert a stat at its place in a sorted list whose keys differ from its key.
fn insert_stat(out: &mut Vec<FileTypeStat>, stat: FileTypeStat)
    requires
        stats_sorted(old(out)@),
        forall|a: int| 0 <= a < old(out)@.len() ==> (#[trigger] old(out)@[a]).key@ != stat.key@,
    ensures
        stats_sorted(final(out)@),
        exists|j: int| 0 <= j <= old(out)@.len() && final(out)@ == old(out)@.insert(j, stat),
{
    let mut j: usize = 0;
    let mut searching = true;
    while searching && j < out.len()
        invariant
            j <= out@.len(),
            out@ == old(out)@,
            forall|a: int| 0 <= a < j ==> stat_before(#[trigger] out@[a], stat),
            !searching ==> j < out@.len() && !stat_before(out@[j as int], stat),
        decreases out.len() - j + if searching {
            1int
        } else {
            0int
        },
    {
        let ka = chars_of(out[j].key.as_str());
        let kb = chars_of(stat.key.as_str());
        let before = out[j].files > stat.files || (out[j].files == stat.files && lex_less(
            ka.as_slice(),
            kb.as_slice(),
        ));
        if before {
            j += 1;
        } else {
            searching = false;
        }
    }
    let ghost old_out = out@;
    if j < out.len() {
        proof {
            lemma_lex_total(old_out[j as int].key@, stat.key@);
        }
    }
    out.insert(j, stat);
    proof {
        assert forall|a: int, b: int| 0 <= a < b < out@.len() implies stat_before(
            out@[a],
            out@[b],
        ) by {
            if b < j {
                assert(out@[a] == old_out[a]);
                assert(out@[b] == old_out[b]);
            } else if b == j {
                assert(out@[a] == old_out[a]);
            } else if a < j {
                assert(out@[a] == old_out[a]);
                assert(out@[b] == old_out[b - 1]);
            } else if a == j {
                assert(out@[b] == old_out[b - 1]);
                if b - 1 > j {
                    let x = out@[a];
                    let y = old_out[j as int];
                    let z = old_out[b - 1];
                    assert(stat_before(y, z));
                    if x.files == y.files && y.files == z.files {
                        lemma_lex_transitive(x.key@, y.key@, z.key@);
                    }
                }
            } else {
                assert(out@[a] == old_out[a - 1]);
                assert(out@[b] == old_out[b - 1]);
            }
        }
    }
}

/// File types present in a repository, ordered by file count desc, key asc.
/// Types whose files are all excluded for reasons a toggle cannot affect
/// (binary, generated/lock, vcs dir, io error) are omitted.
pub fn file_type_stats(progress: &RepoProgress) -> (out: Vec<FileTypeStat>)
    ensures
        forall|i: int|
            0 <= i < out@.len() ==> {
                let k = (#[trigger] out@[i]).key@;
                &&& out@[i].files == key_count(progress.files@, k)
                &&& out@[i].typeable == key_typeable(progress.files@, k)
                &&& out@[i].has_extension == key_has_ext(progress.files@, k)
                &&& key_kept(progress.files@, k)
                &&& key_count(progress.files@, k) > 0
            },
        forall|j: int|
            0 <= j < progress.files@.len() && key_kept(
                progress.files@,
                type_key(progress.files@[j].relative_path@),
            ) ==> exists|i: int|
                0 <= i < out@.len() && (#[trigger] out@[i]).key@ == type_key(
                    progress.files@[j].relative_path@,
                ),
        stats_sorted(out@),
{
    let files = &progress.files;
    let mut groups: Vec<Group> = Vec::new();
    let mut i: usize = 0;
    while i < files.len()
        invariant
            i <= files@.len(),
            groups@.len() <= i,
            groups_ok(groups@, files@.take(i as int)),
        decreases files.len() - i,
    {
        assert(files@.take(i + 1) =~= files@.take(i as int).push(files@[i as int]));
        add_file(&mut groups, &files[i], Ghost(files@.take(i as int)));
        i += 1;
    }
    assert(files@.take(files@.len() as int) =~= files@);
    let ghost all = files@;
    let mut out: Vec<FileTypeStat> = Vec::new();
    let ghost mut src: Seq<int> = Seq::empty();
    let mut g: usize = 0;
    while g < groups.len()
        invariant
            g <= groups@.len(),
            groups_ok(groups@, all),
            all == progress.files@,
            stats_sorted(out@),
            src.len() == out@.len(),
            forall|a: int|
                0 <= a < out@.len() ==> 0 <= #[trigger] src[a] < g && stat_matches(
                    out@[a],
                    groups@[src[a]],
                ),
            forall|h: int| 0 <= h < g && groups@[h].kept ==> #[trigger] src.contains(h),
        decreases groups.len() - g,
    {
        if groups[g].kept {
            let stat = FileTypeStat {
                key: crate::text::copy_string(&groups[g].key),
                files: groups[g].files,
                typeable: groups[g].typeable,
                has_extension: groups[g].has_extension,
            };
            let ghost old_out = out@;
            assert forall|a: int| 0 <= a < old_out.len() implies (#[trigger] old_out[a]).key@
                != stat.key@ by {
                assert(0 <= src[a] < g);
            }
            insert_stat(&mut out, stat);
            proof {
                let j = choose|j: int| 0 <= j <= old_out.len() && out@ == old_out.insert(j, stat);
                let old_src = src;
                src = src.insert(j, g as int);
                assert forall|a: int| 0 <= a < out@.len() implies 0 <= #[trigger] src[a] < g + 1
                    && stat_matches(out@[a], groups@[src[a]]) by {
                    if a < j {
                        assert(out@[a] == old_out[a]);
                        assert(src[a] == old_src[a]);
                    } else if a > j {
                        assert(out@[a] == old_out[a - 1]);
                        assert(src[a] == old_src[a - 1]);
                    }
                }
                assert forall|h: int| 0 <= h < g + 1 && groups@[h].kept implies #[trigger] src.contains(h) by {
                    lemma_insert_contains(old_src, j, g as int, h);
                }
            }
        }
        g += 1;
    }
    proof {
        assert forall|i: int| 0 <= i < out@.len() implies {
            let k = (#[trigger] out@[i]).key@;
            &&& out@[i].files == key_count(all, k)
            &&& out@[i].typeable == key_typeable(all, k)
            &&& out@[i].has_extension == key_has_ext(all, k)
            &&& key_kept(all, k)
            &&& key_count(all, k) > 0
        } by {
            assert(0 <= src[i] < groups@.len());
            assert(stat_matches(out@[i], groups@[src[i]]));
        }
        assert forall|j: int|
            0 <= j < all.len() && key_kept(all, type_key(all[j].relative_path@)) implies exists|i: int|
            0 <= i < out@.len() && (#[trigger] out@[i]).key@ == type_key(all[j].relative_path@) by {
            let h = choose|h: int|
                0 <= h < groups@.len() && (#[trigger] groups@[h]).key@ == type_key(
                    (#[trigger] all[j]).relative_path@,
                );
            assert(groups@[h].kept);
            assert(src.contains(h));
            let a = choose|a: int| 0 <= a < src.len() && src[a] == h;
            assert(stat_matches(out@[a], groups@[src[a]]));
        }
    }
    out
}

/// Per-repository enabled/disabled/hidden state for file-type keys.
///
/// Later entries for the same key override earlier ones.
#[derive(Debug, Clone, PartialEq, Eq)]
pub struct FileTypePrefs {
    entries: Vec<(String, FileTypeState)>,
}

/// The state each key maps to; a later entry for a key wins.
pub open spec fn prefs_map(entries: Seq<(String, FileTypeState)>) -> Map<Seq<char>, FileTypeState>
    decreases entries.len(),
{
    if entries.len() == 0 {
        Map::empty()
    } else {
        prefs_map(entries.drop_last()).insert(entries.last().0@, entries.last().1)
    }
}

impl View for FileTypePrefs {
    type V = Map<Seq<char>, FileTypeState>;

    closed spec fn view(&self) -> Map<Seq<char>, FileTypeState> {
        prefs_map(self.entries@)
    }
}

impl Default for FileTypePrefs {
    fn default() -> (p: Self)
        ensures
            p@ == Map::<Seq<char>, FileTypeState>::empty(),
    {
        FileTypePrefs { entries: Vec::new() }
    }
}

impl FileTypePrefs {
    pub fn new(entries: Vec<(String, FileTypeState)>) -> (p: Self)
        ensures
            p@ == prefs_map(entries@),
    {
        FileTypePrefs { entries }
    }

    pub fn get(&self, key: &str) -> (r: Option<FileTypeState>)
        ensures
            r == if self@.contains_key(key@) {
                Some(self@[key@])
            } else {
                None::<FileTypeState>
            },
    {
        let mut i = self.entries.len();
        assert(self.entries@.take(i as int) =~= self.entries@);
        while i > 0
            invariant
                i <= self.entries@.len(),
                forall|j: int| i <= j < self.entries@.len() ==> self.entries@[j].0@ != key@,
                prefs_map(self.entries@).contains_key(key@) == prefs_map(
                    self.entries@.take(i as int),
                ).contains_key(key@),
                prefs_map(self.entries@).contains_key(key@) ==> prefs_map(self.entries@)[key@]
                    == prefs_map(self.entries@.take(i as int))[key@],
            decreases i,
        {
            assert(self.entries@.take(i as int).drop_last() =~= self.entries@.take(i - 1));
            if str_eq(self.entries[i - 1].0.as_str(), key) {
                return Some(self.entries[i - 1].1);
            }
            i -= 1;
        }
        None
    }

    pub fn is_empty(&self) -> (b: bool)
        ensures
            b == (self@.dom().len() == 0),
    {
        proof {
            lemma_prefs_map_finite(self.entries@);
        }
        if self.entries.len() == 0 {
            true
        } else {
            proof {
                let last = self.entries@.last();
                assert(prefs_map(self.entries@).contains_key(last.0@));
            }
            false
        }
    }

    /// The stored entries, later ones overriding earlier ones for a key.
    pub fn iter(&self) -> (r: Vec<(String, FileTypeState)>)
        ensures
            prefs_map(r@) == self@,
    {
        let mut r: Vec<(String, FileTypeState)> = Vec::new();
        let mut i: usize = 0;
        while i < self.entries.len()
            invariant
                i <= self.entries@.len(),
                r@.len() == i,
                forall|j: int| 0 <= j < i ==> r@[j].0@ == self.entries@[j].0@ && r@[j].1 == self.entries@[j].1,
            decreases self.entries.len() - i,
        {
            let (k, v) = (crate::text::copy_string(&self.entries[i].0), self.entries[i].1);
            r.push((k, v));
            i += 1;
        }
        proof {
            lemma_prefs_map_same(r@, self.entries@);
        }
        r
    }
}

proof fn lemma_prefs_map_finite(entries: Seq<(String, FileTypeState)>)
    ensures
        prefs_map(entries).dom().finite(),
    decreases entries.len(),
{
    if entries.len() > 0 {
        lemma_prefs_map_finite(entries.drop_last());
    }
}

proof fn lemma_prefs_map_same(a: Seq<(String, FileTypeState)>, b: Seq<(String, FileTypeState)>)
    requires
        a.len() == b.len(),
        forall|j: int| 0 <= j < a.len() ==> a[j].0@ == b[j].0@ && a[j].1 == b[j].1,
    ensures
        prefs_map(a) == prefs_map(b),
    decreases a.len(),
{
    if a.len() > 0 {
        lemma_prefs_map_same(a.drop_last(), b.drop_last());
    }
}

} // verus!
