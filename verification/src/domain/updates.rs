//! In-place updates of the repository progress: a hand-made override, a
//! finished body, a saved typing checkpoint. Each touches the first file at
//! the given path and nothing else.

use vstd::prelude::*;

use crate::domain::content::{
    chunks_total, files_all_lines, ChunkCompletion, ChunkProgress, FileProgress, FileStatus, ManualOverride,
    RepoProgress, TypingCheckpoint,
};
use crate::text::{copy_string, decimal, decimal_chars, push_chars, push_str};

verus! {

/// The first file at `path`.
pub open spec fn file_at(files: Seq<FileProgress>, path: Seq<char>) -> Option<int> {
    if exists|i: int| 0 <= i < files.len() && #[trigger] files[i].relative_path@ == path {
        Some(choose|i: int| 0 <= i < files.len() && files[i].relative_path@ == path && forall|j: int| 0 <= j < i ==> #[trigger] files[j].relative_path@ != path)
    } else {
        None
    }
}

proof fn lemma_first_file(files: Seq<FileProgress>, path: Seq<char>, k: int)
    requires
        0 <= k < files.len(),
        files[k].relative_path@ == path,
    ensures
        exists|i: int| 0 <= i < files.len() && files[i].relative_path@ == path && forall|j: int| 0 <= j < i ==> #[trigger] files[j].relative_path@ != path,
    decreases k,
{
    if exists|j: int| 0 <= j < k && #[trigger] files[j].relative_path@ == path {
        let j = choose|j: int| 0 <= j < k && #[trigger] files[j].relative_path@ == path;
        lemma_first_file(files, path, j);
    }
}

/// Where the first file at `path` is.
fn find_file(files: &Vec<FileProgress>, path: &str) -> (r: Option<usize>)
    ensures
        match file_at(files@, path@) {
            Some(i) => r matches Some(k) && k == i && 0 <= i < files@.len(),
            None => r is None,
        },
{
    let mut i: usize = 0;
    while i < files.len()
        invariant
            i <= files@.len(),
            forall|j: int| 0 <= j < i ==> #[trigger] files@[j].relative_path@ != path@,
        decreases files.len() - i,
    {
        if crate::text::str_eq(files[i].relative_path.as_str(), path) {
            assert(files@.len() == files.len());
            proof {
                lemma_first_file(files@, path@, i as int);
                let c = file_at(files@, path@).unwrap();
                assert(c == i) by {
                    if c > i {
                        assert(files@[i as int].relative_path@ != path@);
                    }
                }
            }
            return Some(i);
        }
        i += 1;
    }
    None
}

/// `f` with its status derived afresh.
pub open spec fn restatused(f: FileProgress) -> FileProgress {
    FileProgress { status: f.status_spec(), ..f }
}

/// `f` with the manual override `value`.
pub open spec fn with_override(f: FileProgress, value: Option<ManualOverride>) -> FileProgress {
    restatused(FileProgress { manual_override: value, ..f })
}

/// The first body of `chunks` with database id `id`.
pub open spec fn chunk_at(chunks: Seq<ChunkProgress>, id: i64) -> Option<int> {
    if exists|j: int| 0 <= j < chunks.len() && #[trigger] chunks[j].id == Some(id) {
        Some(choose|j: int| 0 <= j < chunks.len() && chunks[j].id == Some(id) && forall|k: int| 0 <= k < j ==> #[trigger] chunks[k].id != Some(id))
    } else {
        None
    }
}

proof fn lemma_first_chunk(chunks: Seq<ChunkProgress>, id: i64, k: int)
    requires
        0 <= k < chunks.len(),
        chunks[k].id == Some(id),
    ensures
        exists|j: int| 0 <= j < chunks.len() && chunks[j].id == Some(id) && forall|m: int| 0 <= m < j ==> #[trigger] chunks[m].id != Some(id),
    decreases k,
{
    if exists|m: int| 0 <= m < k && #[trigger] chunks[m].id == Some(id) {
        let m = choose|m: int| 0 <= m < k && #[trigger] chunks[m].id == Some(id);
        lemma_first_chunk(chunks, id, m);
    }
}

fn find_chunk(chunks: &Vec<ChunkProgress>, id: i64) -> (r: Option<usize>)
    ensures
        match chunk_at(chunks@, id) {
            Some(j) => r matches Some(k) && k == j && 0 <= j < chunks@.len(),
            None => r is None,
        },
{
    let mut j: usize = 0;
    while j < chunks.len()
        invariant
            j <= chunks@.len(),
            forall|k: int| 0 <= k < j ==> #[trigger] chunks@[k].id != Some(id),
        decreases chunks.len() - j,
    {
        if chunks[j].id == Some(id) {
            assert(chunks@.len() == chunks.len());
            proof {
                lemma_first_chunk(chunks@, id, j as int);
                let c = chunk_at(chunks@, id).unwrap();
                assert(c == j) by {
                    if c > j {
                        assert(chunks@[j as int].id != Some(id));
                    }
                }
            }
            return Some(j);
        }
        j += 1;
    }
    None
}

/// `g` is `f` with its body `id` finished (and that body's checkpoint
/// dropped), and its status derived afresh.
pub open spec fn completed_ok(f: FileProgress, g: FileProgress, id: i64) -> bool {
    &&& g.relative_path == f.relative_path
    &&& g.skip_reason == f.skip_reason
    &&& g.manual_override == f.manual_override
    &&& g.chunks@ == match chunk_at(f.chunks@, id) {
        Some(j) => f.chunks@.update(
            j,
            ChunkProgress { completion: ChunkCompletion::Complete, checkpoint: None, ..f.chunks@[j] },
        ),
        None => f.chunks@,
    }
    &&& g.status == g.status_spec()
}

/// `g` is `f` with the checkpoint of its body `id` set to `cp`.
pub open spec fn checkpoint_ok(f: FileProgress, g: FileProgress, id: i64, cp: Option<TypingCheckpoint>) -> bool {
    &&& g.relative_path == f.relative_path
    &&& g.skip_reason == f.skip_reason
    &&& g.manual_override == f.manual_override
    &&& g.status == f.status
    &&& g.chunks@ == match chunk_at(f.chunks@, id) {
        Some(j) => f.chunks@.update(j, ChunkProgress { checkpoint: cp, ..f.chunks@[j] }),
        None => f.chunks@,
    }
}

/// `after` differs from `before` only at `i`.
pub open spec fn same_but(before: Seq<FileProgress>, after: Seq<FileProgress>, i: int) -> bool {
    &&& after.len() == before.len()
    &&& forall|k: int| 0 <= k < before.len() && k != i ==> #[trigger] after[k] == before[k]
}

/// `g` has the same bodies as `f` (whatever their completion and checkpoints).
pub open spec fn same_bodies(f: FileProgress, g: FileProgress) -> bool {
    &&& g.chunks@.len() == f.chunks@.len()
    &&& forall|j: int| 0 <= j < f.chunks@.len() ==> #[trigger] g.chunks@[j].chunk == f.chunks@[j].chunk
}

proof fn lemma_chunks_total_same(a: Seq<ChunkProgress>, b: Seq<ChunkProgress>)
    requires
        a.len() == b.len(),
        forall|j: int| 0 <= j < a.len() ==> #[trigger] b[j].chunk == a[j].chunk,
    ensures
        chunks_total(a) == chunks_total(b),
    decreases a.len(),
{
    if a.len() > 0 {
        let (x, y) = (a.drop_last(), b.drop_last());
        assert forall|j: int| 0 <= j < x.len() implies #[trigger] y[j].chunk == x[j].chunk by {
            assert(y[j] == b[j] && x[j] == a[j]);
        }
        lemma_chunks_total_same(x, y);
        assert(b[b.len() - 1].chunk == a[a.len() - 1].chunk);
    }
}

proof fn lemma_files_all_same(a: Seq<FileProgress>, b: Seq<FileProgress>)
    requires
        a.len() == b.len(),
        forall|k: int| 0 <= k < a.len() ==> (#[trigger] b[k]).total_spec() == a[k].total_spec(),
    ensures
        files_all_lines(a) == files_all_lines(b),
    decreases a.len(),
{
    if a.len() > 0 {
        let (x, y) = (a.drop_last(), b.drop_last());
        assert forall|k: int| 0 <= k < x.len() implies (#[trigger] y[k]).total_spec() == x[k].total_spec() by {
            assert(y[k] == b[k] && x[k] == a[k]);
        }
        lemma_files_all_same(x, y);
        assert(b[b.len() - 1].total_spec() == a[a.len() - 1].total_spec());
    }
}

/// Changing one file's override, completion or checkpoints, its bodies kept,
/// keeps the line counts within machine integers when they were.
pub proof fn law_update_keeps_fits(before: RepoProgress, after: RepoProgress, i: int)
    requires
        0 <= i < before.files@.len(),
        same_but(before.files@, after.files@, i),
        same_bodies(before.files@[i], after.files@[i]),
        before.fits(),
    ensures
        after.fits(),
{
    let (f, g) = (before.files@[i], after.files@[i]);
    lemma_chunks_total_same(f.chunks@, g.chunks@);
    assert forall|k: int| 0 <= k < before.files@.len() implies (#[trigger] after.files@[k]).total_spec()
        == before.files@[k].total_spec() by {
        if k != i {
            assert(after.files@[k] == before.files@[k]);
        }
    }
    lemma_files_all_same(before.files@, after.files@);
    assert forall|k: int| 0 <= k < after.files@.len() implies #[trigger] after.files@[k].fits() by {
        assert(before.files@[k].fits());
        if k == i {
            assert forall|j: int| 0 <= j < g.chunks@.len() implies #[trigger] g.chunks@[j].chunk.normalized@.len()
                < usize::MAX by {
                assert(g.chunks@[j].chunk == f.chunks@[j].chunk);
                assert(f.chunks@[j].chunk.normalized@.len() < usize::MAX);
            }
        } else {
            assert(after.files@[k] == before.files@[k]);
        }
    }
}

/// Give the first file at `path` the override `value` and its new status;
/// tells whether there is such a file.
#[verifier::rlimit(60)]
#[verifier::spinoff_prover]
pub fn set_override(progress: &mut RepoProgress, path: &str, value: Option<ManualOverride>) -> (found: bool)
    ensures
        match file_at(old(progress).files@, path@) {
            Some(i) => found && same_but(old(progress).files@, final(progress).files@, i)
                && final(progress).files@[i] == with_override(old(progress).files@[i], value),
            None => !found && *final(progress) == *old(progress),
        },
        old(progress).fits() ==> final(progress).fits(),
{
    let nfiles = progress.files.len();
    match find_file(&progress.files, path) {
        Some(i) => {
            let ghost before = progress.files@;
            let mut f = progress.files.remove(i);
            f.manual_override = value;
            f.status = f.derive_status();
            progress.files.insert(i, f);
            assert(progress.files@ =~= before.update(i as int, f));
            proof {
                if old(progress).fits() {
                    assert(same_bodies(before[i as int], progress.files@[i as int]));
                    law_update_keeps_fits(*old(progress), *progress, i as int);
                }
            }
            true
        },
        None => false,
    }
}

/// Mark body `id` of the first file at `path` finished.
#[verifier::rlimit(60)]
#[verifier::spinoff_prover]
pub fn complete_chunk(progress: &mut RepoProgress, path: &str, id: i64) -> (found: bool)
    ensures
        match file_at(old(progress).files@, path@) {
            Some(i) => found && same_but(old(progress).files@, final(progress).files@, i) && completed_ok(
                old(progress).files@[i],
                final(progress).files@[i],
                id,
            ),
            None => !found && *final(progress) == *old(progress),
        },
        old(progress).fits() ==> final(progress).fits(),
{
    let nfiles = progress.files.len();
    match find_file(&progress.files, path) {
        Some(i) => {
            let ghost before = progress.files@;
            let mut f = progress.files.remove(i);
            let ghost f0 = f;
            let nchunks = f.chunks.len();
            match find_chunk(&f.chunks, id) {
                Some(j) => {
                    let mut c = f.chunks.remove(j);
                    let ghost c0 = c;
                    c.completion = ChunkCompletion::Complete;
                    c.checkpoint = None;
                    f.chunks.insert(j, c);
                    assert(f.chunks@ =~= f0.chunks@.update(j as int, ChunkProgress { completion: ChunkCompletion::Complete, checkpoint: None, ..c0 }));
                },
                None => {},
            }
            f.status = f.derive_status();
            assert(f.relative_path == f0.relative_path);
            assert(f.skip_reason == f0.skip_reason);
            assert(f.manual_override == f0.manual_override);
            assert(f.status == f.status_spec());
            assert(f.chunks@ == match chunk_at(f0.chunks@, id) {
                Some(j) => f0.chunks@.update(
                    j,
                    ChunkProgress { completion: ChunkCompletion::Complete, checkpoint: None, ..f0.chunks@[j] },
                ),
                None => f0.chunks@,
            });
            assert(completed_ok(f0, f, id));
            progress.files.insert(i, f);
            assert(progress.files@ =~= before.update(i as int, f));
            proof {
                if old(progress).fits() {
                    assert(same_bodies(before[i as int], progress.files@[i as int]));
                    law_update_keeps_fits(*old(progress), *progress, i as int);
                }
            }
            true
        },
        None => false,
    }
}

/// Set the checkpoint of body `id` of the first file at `path`.
#[verifier::rlimit(60)]
#[verifier::spinoff_prover]
pub fn set_checkpoint(progress: &mut RepoProgress, path: &str, id: i64, cp: Option<TypingCheckpoint>) -> (found: bool)
    ensures
        match file_at(old(progress).files@, path@) {
            Some(i) => found && same_but(old(progress).files@, final(progress).files@, i) && checkpoint_ok(
                old(progress).files@[i],
                final(progress).files@[i],
                id,
                cp,
            ),
            None => !found && *final(progress) == *old(progress),
        },
        old(progress).fits() ==> final(progress).fits(),
{
    let nfiles = progress.files.len();
    match find_file(&progress.files, path) {
        Some(i) => {
            let ghost before = progress.files@;
            let mut f = progress.files.remove(i);
            let ghost f0 = f;
            let nchunks = f.chunks.len();
            match find_chunk(&f.chunks, id) {
                Some(j) => {
                    let mut c = f.chunks.remove(j);
                    let ghost c0 = c;
                    c.checkpoint = cp;
                    f.chunks.insert(j, c);
                    assert(f.chunks@ =~= f0.chunks@.update(j as int, ChunkProgress { checkpoint: cp, ..c0 }));
                },
                None => {},
            }
            assert(checkpoint_ok(f0, f, id, cp));
            progress.files.insert(i, f);
            assert(progress.files@ =~= before.update(i as int, f));
            proof {
                if old(progress).fits() {
                    assert(same_bodies(before[i as int], progress.files@[i as int]));
                    law_update_keeps_fits(*old(progress), *progress, i as int);
                }
            }
            true
        },
        None => false,
    }
}

/// An override set and then cleared leaves the file's override unset.
pub proof fn law_override_then_clear(f: FileProgress, value: Option<ManualOverride>)
    ensures
        (with_override(with_override(f, value), None).manual_override is None),
        with_override(with_override(f, value), None).status == (FileProgress { manual_override: None, ..f }).status_spec(),
{
}

/// Some file at `path` is not skipped, so it may start a flow.
pub open spec fn entry_pickable_spec(files: Seq<FileProgress>, path: Seq<char>) -> bool {
    exists|i: int|
        0 <= i < files.len() && #[trigger] files[i].relative_path@ == path && files[i].status_spec()
            != FileStatus::Skipped
}

/// Whether `path` may become the entry of the flow: some file has that path
/// and is not skipped.
pub fn entry_pickable(progress: &RepoProgress, path: &str) -> (b: bool)
    ensures
        b == entry_pickable_spec(progress.files@, path@),
{
    let mut i: usize = 0;
    while i < progress.files.len()
        invariant
            i <= progress.files@.len(),
            forall|j: int|
                0 <= j < i ==> !(#[trigger] progress.files@[j].relative_path@ == path@
                    && progress.files@[j].status_spec() != FileStatus::Skipped),
        decreases progress.files.len() - i,
    {
        let f = &progress.files[i];
        if crate::text::str_eq(f.relative_path.as_str(), path) && f.derive_status() != FileStatus::Skipped {
            assert(progress.files@[i as int].relative_path@ == path@);
            return true;
        }
        i += 1;
    }
    false
}

/// What the typing screen needs of one body of a file.
pub struct TypingTarget {
    pub chunk_id: i64,
    pub normalized: String,
    pub checkpoint: Option<TypingCheckpoint>,
    /// `lines a–b`, the body's line range in the original file.
    pub label: String,
}

/// Why a body cannot be typed.
#[derive(Debug, Clone, Copy, PartialEq, Eq, Structural)]
pub enum TargetError {
    FileNotFound,
    BodyMissing,
    NoDatabaseId,
}

/// The label of a body's line range.
pub open spec fn range_label(start: u32, end: u32) -> Seq<char> {
    "lines "@ + decimal(start as nat) + "–"@ + decimal(end as nat)
}

/// Body `idx` of the first file at `path`, with its id, text, checkpoint and
/// line-range label.
pub fn typing_target(progress: &RepoProgress, path: &str, idx: usize) -> (r: Result<TypingTarget, TargetError>)
    ensures
        match file_at(progress.files@, path@) {
            None => r == Err::<TypingTarget, TargetError>(TargetError::FileNotFound),
            Some(i) => {
                let chunks = progress.files@[i].chunks@;
                if idx >= chunks.len() {
                    r == Err::<TypingTarget, TargetError>(TargetError::BodyMissing)
                } else {
                    let c = chunks[idx as int];
                    match c.id {
                        None => r == Err::<TypingTarget, TargetError>(TargetError::NoDatabaseId),
                        Some(id) => r matches Ok(t) && t.chunk_id == id && t.normalized@
                            == c.chunk.normalized@ && t.checkpoint == c.checkpoint && t.label@
                            == range_label(c.chunk.start_line, c.chunk.end_line),
                    }
                }
            },
        },
{
    let i = match find_file(&progress.files, path) {
        Some(i) => i,
        None => return Err(TargetError::FileNotFound),
    };
    let f = &progress.files[i];
    if idx >= f.chunks.len() {
        return Err(TargetError::BodyMissing);
    }
    let c = &f.chunks[idx];
    let id = match c.id {
        Some(id) => id,
        None => return Err(TargetError::NoDatabaseId),
    };
    let mut label = String::new();
    push_str(&mut label, "lines ");
    let a = decimal_chars(c.chunk.start_line as usize);
    push_chars(&mut label, a.as_slice());
    push_str(&mut label, "–");
    let b = decimal_chars(c.chunk.end_line as usize);
    push_chars(&mut label, b.as_slice());
    let checkpoint = match &c.checkpoint {
        Some(cp) => Some(cp.duplicate()),
        None => None,
    };
    Ok(TypingTarget { chunk_id: id, normalized: copy_string(&c.chunk.normalized), checkpoint, label })
}

} // verus!
