//! Domain types shared across scan, store, and UI.

use vstd::prelude::*;
use std::path::PathBuf;

use crate::text::{
    chars_of, count_char, count_chars, decimal, decimal_chars, push_chars, push_str,
};

verus! {

#[verifier::external_type_specification]
#[verifier::external_body]
pub struct ExPathBuf(PathBuf);

/// How a repository was opened.
#[derive(Debug, Clone, Copy, PartialEq, Eq, Structural)]
pub enum SourceKind {
    Local,
    GitHub,
}

/// Resolved repository root ready for scanning.
#[derive(Debug)]
pub struct ResolvedRepository {
    /// Stable identity key used in the database.
    pub identity: String,
    pub display_name: String,
    pub kind: SourceKind,
    /// Absolute path to the working tree (local path or cache clone).
    pub root: PathBuf,
    /// Original user input (URL or path string).
    pub input: String,
}

/// Automatic exclusion reason shown in the tree.
#[derive(Debug, Clone, PartialEq, Eq)]
pub enum SkipReason {
    VcsOrDependencyDir,
    GeneratedOrLockFile,
    Binary,
    LineTooLong { max_cols: usize },
    FileTooLarge { max_lines: usize },
    TestFile,
    ConfigFile,
    FileTypeDisabled,
    NoChunks,
    IoError(String),
}

impl SkipReason {
    /// The persisted / displayed text of a reason.
    pub open spec fn text(&self) -> Seq<char> {
        match self {
            SkipReason::VcsOrDependencyDir => "excluded directory"@,
            SkipReason::GeneratedOrLockFile => "generated or lock file"@,
            SkipReason::Binary => "binary file"@,
            SkipReason::LineTooLong { max_cols } => "line longer than "@ + decimal(
                *max_cols as nat,
            ) + " cols"@,
            SkipReason::FileTooLarge { max_lines } => "more than "@ + decimal(*max_lines as nat)
                + " lines"@,
            SkipReason::TestFile => "test file (include_tests=false)"@,
            SkipReason::ConfigFile => "config or docs (include_configs=false)"@,
            SkipReason::FileTypeDisabled => "file type disabled"@,
            SkipReason::NoChunks => "no typeable content"@,
            SkipReason::IoError(msg) => "read error: "@ + msg@,
        }
    }

    /// The compact tree label of a reason.
    pub open spec fn short_text(&self) -> Seq<char> {
        match self {
            SkipReason::TestFile => "test"@,
            SkipReason::GeneratedOrLockFile => "generated"@,
            SkipReason::ConfigFile => "config"@,
            SkipReason::Binary => "binary"@,
            SkipReason::LineTooLong { .. } => "too long"@,
            SkipReason::FileTooLarge { .. } => "too large"@,
            SkipReason::FileTypeDisabled => "type off"@,
            SkipReason::NoChunks => "empty"@,
            SkipReason::VcsOrDependencyDir => "excluded dir"@,
            SkipReason::IoError(_) => "read error"@,
        }
    }

    pub fn as_str(&self) -> (s: String)
        ensures
            s@ == self.text(),
    {
        match self {
            SkipReason::VcsOrDependencyDir => "excluded directory".to_owned(),
            SkipReason::GeneratedOrLockFile => "generated or lock file".to_owned(),
            SkipReason::Binary => "binary file".to_owned(),
            SkipReason::LineTooLong { max_cols } => {
                let mut s = "line longer than ".to_owned();
                let digits = decimal_chars(*max_cols);
                push_chars(&mut s, &digits);
                push_str(&mut s, " cols");
                s
            },
            SkipReason::FileTooLarge { max_lines } => {
                let mut s = "more than ".to_owned();
                let digits = decimal_chars(*max_lines);
                push_chars(&mut s, &digits);
                push_str(&mut s, " lines");
                s
            },
            SkipReason::TestFile => "test file (include_tests=false)".to_owned(),
            SkipReason::ConfigFile => "config or docs (include_configs=false)".to_owned(),
            SkipReason::FileTypeDisabled => "file type disabled".to_owned(),
            SkipReason::NoChunks => "no typeable content".to_owned(),
            SkipReason::IoError(msg) => {
                let mut s = "read error: ".to_owned();
                push_str(&mut s, msg.as_str());
                s
            },
        }
    }

    pub fn short_label(&self) -> (s: &'static str)
        ensures
            s@ == self.short_text(),
    {
        match self {
            SkipReason::TestFile => "test",
            SkipReason::GeneratedOrLockFile => "generated",
            SkipReason::ConfigFile => "config",
            SkipReason::Binary => "binary",
            SkipReason::LineTooLong { .. } => "too long",
            SkipReason::FileTooLarge { .. } => "too large",
            SkipReason::FileTypeDisabled => "type off",
            SkipReason::NoChunks => "empty",
            SkipReason::VcsOrDependencyDir => "excluded dir",
            SkipReason::IoError(_) => "read error",
        }
    }

    /// A copy of this reason.
    pub fn duplicate(&self) -> (r: SkipReason)
        ensures
            r == *self,
    {
        match self {
            SkipReason::VcsOrDependencyDir => SkipReason::VcsOrDependencyDir,
            SkipReason::GeneratedOrLockFile => SkipReason::GeneratedOrLockFile,
            SkipReason::Binary => SkipReason::Binary,
            SkipReason::LineTooLong { max_cols } => SkipReason::LineTooLong { max_cols: *max_cols },
            SkipReason::FileTooLarge { max_lines } => SkipReason::FileTooLarge {
                max_lines: *max_lines,
            },
            SkipReason::TestFile => SkipReason::TestFile,
            SkipReason::ConfigFile => SkipReason::ConfigFile,
            SkipReason::FileTypeDisabled => SkipReason::FileTypeDisabled,
            SkipReason::NoChunks => SkipReason::NoChunks,
            SkipReason::IoError(msg) => SkipReason::IoError(msg.clone()),
        }
    }
}

/// Effective file status derived from chunks (and skip).
#[derive(Debug, Clone, Copy, PartialEq, Eq, Structural)]
pub enum FileStatus {
    Todo,
    Done,
    Skipped,
}

/// User override that always wins over automatic skip detection.
#[derive(Debug, Clone, Copy, PartialEq, Eq, Structural)]
pub enum ManualOverride {
    Skip,
    Include,
}

/// The text a stored override is written as.
pub open spec fn override_text(o: ManualOverride) -> Seq<char> {
    match o {
        ManualOverride::Skip => "skip"@,
        ManualOverride::Include => "include"@,
    }
}

/// The override a stored text denotes.
pub open spec fn parse_override_spec(raw: Seq<char>) -> Option<ManualOverride> {
    if raw == "skip"@ {
        Some(ManualOverride::Skip)
    } else if raw == "include"@ {
        Some(ManualOverride::Include)
    } else {
        None
    }
}

impl ManualOverride {
    pub fn as_str(self) -> (s: &'static str)
        ensures
            s@ == override_text(self),
    {
        match self {
            ManualOverride::Skip => "skip",
            ManualOverride::Include => "include",
        }
    }

    pub fn parse(raw: &str) -> (r: Option<ManualOverride>)
        ensures
            r == parse_override_spec(raw@),
    {
        let v = chars_of(raw);
        let skip = chars_of("skip");
        let keep = chars_of("include");
        if crate::text::eq_chars(&v, &skip) {
            Some(ManualOverride::Skip)
        } else if crate::text::eq_chars(&v, &keep) {
            Some(ManualOverride::Include)
        } else {
            None
        }
    }
}

/// Reading back the text of an override gives the same override.
pub proof fn law_override_text_roundtrip(o: ManualOverride)
    ensures
        parse_override_spec(override_text(o)) == Some(o),
{
    reveal_strlit("skip");
    reveal_strlit("include");
    if o == ManualOverride::Include {
        assert("include"@ != "skip"@) by {
            assert("include"@.len() != "skip"@.len());
        }
    }
}

/// A normalized chunk extracted from a source file.
#[derive(Debug, Clone, PartialEq, Eq)]
pub struct Chunk {
    pub relative_path: String,
    /// 1-based inclusive start line in the original file (for display).
    pub start_line: u32,
    /// 1-based inclusive end line in the original file (for display).
    pub end_line: u32,
    /// Normalized body used for typing and hashing.
    pub normalized: String,
    /// SHA-256 hex of `normalized`.
    pub hash: String,
}

impl Chunk {
    /// A copy of this chunk.
    pub fn duplicate(&self) -> (r: Chunk)
        ensures
            r == *self,
    {
        Chunk {
            relative_path: self.relative_path.clone(),
            start_line: self.start_line,
            end_line: self.end_line,
            normalized: self.normalized.clone(),
            hash: self.hash.clone(),
        }
    }
}

/// A file discovered by the scanner.
#[derive(Debug, Clone, PartialEq, Eq)]
pub struct ScannedFile {
    pub relative_path: String,
    pub status: FileStatus,
    pub skip_reason: Option<SkipReason>,
    pub chunks: Vec<Chunk>,
}

/// A resolved repository-local import, with source location for flow order.
#[derive(Debug, Clone, PartialEq, Eq)]
pub struct ImportEdge {
    pub importer: String,
    pub imported: String,
    /// 1-based line of the import / module declaration.
    pub decl_line: usize,
    /// 1-based line where a binding was first used outside import lines.
    pub first_use_line: Option<usize>,
    /// Import statement text for UI.
    pub raw: String,
}

/// Full scan result for a repository root.
#[derive(Debug, Clone, PartialEq, Eq)]
pub struct ScanResult {
    pub files: Vec<ScannedFile>,
    /// Resolved repository-local imports.
    pub import_edges: Vec<ImportEdge>,
}

/// The chunks of the files in `files` that are not skipped, in order.
pub open spec fn typeable_chunks_of(files: Seq<ScannedFile>) -> Seq<Chunk>
    decreases files.len(),
{
    if files.len() == 0 {
        Seq::empty()
    } else {
        let last = files.last();
        typeable_chunks_of(files.drop_last()) + if last.status != FileStatus::Skipped {
            last.chunks@
        } else {
            Seq::empty()
        }
    }
}

impl ScanResult {
    pub fn typeable_chunks(&self) -> (out: Vec<Chunk>)
        ensures
            out@ == typeable_chunks_of(self.files@),
    {
        let mut out: Vec<Chunk> = Vec::new();
        let mut i: usize = 0;
        while i < self.files.len()
            invariant
                i <= self.files@.len(),
                out@ == typeable_chunks_of(self.files@.take(i as int)),
            decreases self.files.len() - i,
        {
            let file = &self.files[i];
            assert(self.files@.take(i + 1).drop_last() == self.files@.take(i as int));
            if file.status != FileStatus::Skipped {
                let mut j: usize = 0;
                let ghost before = out@;
                while j < file.chunks.len()
                    invariant
                        j <= file.chunks@.len(),
                        out@ == before + file.chunks@.take(j as int),
                    decreases file.chunks.len() - j,
                {
                    out.push(file.chunks[j].duplicate());
                    assert(file.chunks@.take(j + 1) == file.chunks@.take(j as int).push(
                        file.chunks@[j as int],
                    ));
                    j += 1;
                }
                assert(file.chunks@.take(file.chunks@.len() as int) == file.chunks@);
            } else {
                assert(out@ == out@ + Seq::<Chunk>::empty());
            }
            i += 1;
        }
        assert(self.files@.take(self.files@.len() as int) == self.files@);
        out
    }

    pub fn has_typeable_content(&self) -> (b: bool)
        ensures
            b == (typeable_chunks_of(self.files@).len() > 0),
    {
        let chunks = self.typeable_chunks();
        chunks.len() > 0
    }
}

/// Progress for a single chunk after store merge.
#[derive(Debug, Clone, Copy, PartialEq, Eq, Structural)]
pub enum ChunkCompletion {
    Incomplete,
    Complete,
}

impl Default for ChunkCompletion {
    fn default() -> (c: ChunkCompletion)
        ensures
            c == ChunkCompletion::Incomplete,
    {
        ChunkCompletion::Incomplete
    }
}

/// Persisted / merged view of a file with chunk progress.
#[derive(Debug, Clone, PartialEq, Eq)]
pub struct FileProgress {
    pub relative_path: String,
    pub status: FileStatus,
    pub skip_reason: Option<SkipReason>,
    pub manual_override: Option<ManualOverride>,
    pub chunks: Vec<ChunkProgress>,
}

#[derive(Debug, Clone, PartialEq, Eq)]
pub struct ChunkProgress {
    pub chunk: Chunk,
    pub completion: ChunkCompletion,
    pub checkpoint: Option<TypingCheckpoint>,
    /// Database id when known.
    pub id: Option<i64>,
}

/// The latest durable state of an in-progress typing session.
#[derive(Debug, Clone, PartialEq, Eq)]
pub struct TypingCheckpoint {
    pub chunk_id: i64,
    /// Character offset into the normalized body, including auto-indent.
    pub cursor: usize,
    pub keystrokes: u32,
    pub misses: u32,
    /// Elapsed time while the typing session was active, excluding suspension.
    pub elapsed_ms: u64,
    /// Original session start timestamp, retained across suspensions.
    pub started_at: String,
    /// Auto-indent behavior used when this session started.
    pub auto_indent: bool,
}

/// Lines of a normalized body: `""` has none, otherwise one more than its newlines.
pub open spec fn line_count(s: Seq<char>) -> nat {
    if s.len() == 0 {
        0
    } else {
        count_char(s, '\n') + 1
    }
}

pub proof fn lemma_count_char_bound(s: Seq<char>, c: char)
    ensures
        count_char(s, c) <= s.len(),
    decreases s.len(),
{
    if s.len() > 0 {
        lemma_count_char_bound(s.drop_last(), c);
    }
}

pub proof fn lemma_count_char_prefix(s: Seq<char>, c: char, k: int)
    requires
        0 <= k <= s.len(),
    ensures
        count_char(s.take(k), c) <= count_char(s, c),
    decreases s.len(),
{
    if k < s.len() {
        assert(s.drop_last().take(k) == s.take(k));
        lemma_count_char_prefix(s.drop_last(), c, k);
    } else {
        assert(s.take(k) == s);
    }
}

/// Lines of `normalized` fully accepted before `cursor`.
pub open spec fn progressed_lines_spec(cursor: nat, normalized: Seq<char>) -> nat {
    let typed = if cursor <= normalized.len() {
        normalized.take(cursor as int)
    } else {
        normalized
    };
    let n = count_char(typed, '\n');
    if n <= line_count(normalized) {
        n
    } else {
        line_count(normalized)
    }
}

/// Count lines in a normalized body (`""` → 0).
pub fn normalized_line_count(normalized: &str) -> (n: usize)
    requires
        normalized@.len() < usize::MAX,
    ensures
        n == line_count(normalized@),
{
    let v = chars_of(normalized);
    if v.len() == 0 {
        0
    } else {
        proof {
            lemma_count_char_bound(v@, '\n');
        }
        count_chars(&v, '\n') + 1
    }
}

impl TypingCheckpoint {
    /// A copy of this checkpoint.
    pub fn duplicate(&self) -> (r: TypingCheckpoint)
        ensures
            r == *self,
    {
        TypingCheckpoint {
            chunk_id: self.chunk_id,
            cursor: self.cursor,
            keystrokes: self.keystrokes,
            misses: self.misses,
            elapsed_ms: self.elapsed_ms,
            started_at: self.started_at.clone(),
            auto_indent: self.auto_indent,
        }
    }

    /// Count only fully accepted normalized lines before the cursor.
    pub fn progressed_lines(&self, normalized: &str) -> (n: usize)
        requires
            normalized@.len() < usize::MAX,
        ensures
            n == progressed_lines_spec(self.cursor as nat, normalized@),
    {
        let total = normalized_line_count(normalized);
        let v = chars_of(normalized);
        let end = if self.cursor <= v.len() {
            self.cursor
        } else {
            v.len()
        };
        let typed = crate::text::subrange(&v, 0, end);
        assert(typed@ == if self.cursor <= v@.len() {
            v@.take(self.cursor as int)
        } else {
            v@
        });
        let n = count_chars(&typed, '\n');
        if n <= total {
            n
        } else {
            total
        }
    }
}

impl ChunkProgress {
    /// Lines of the chunk body.
    pub open spec fn total_spec(&self) -> nat {
        line_count(self.chunk.normalized@)
    }

    /// Lines of the chunk counted as typed: all when complete, else those before the checkpoint.
    pub open spec fn completed_spec(&self) -> nat {
        if self.completion == ChunkCompletion::Complete {
            line_count(self.chunk.normalized@)
        } else {
            match self.checkpoint {
                Some(cp) => progressed_lines_spec(cp.cursor as nat, self.chunk.normalized@),
                None => 0,
            }
        }
    }
}

pub open spec fn chunks_total(chunks: Seq<ChunkProgress>) -> nat
    decreases chunks.len(),
{
    if chunks.len() == 0 {
        0
    } else {
        chunks_total(chunks.drop_last()) + chunks.last().total_spec()
    }
}

pub open spec fn chunks_completed(chunks: Seq<ChunkProgress>) -> nat
    decreases chunks.len(),
{
    if chunks.len() == 0 {
        0
    } else {
        chunks_completed(chunks.drop_last()) + chunks.last().completed_spec()
    }
}

/// Status from the chunks alone: no chunks is skipped, all complete is done.
pub open spec fn status_from_chunks_spec(chunks: Seq<ChunkProgress>) -> FileStatus {
    if chunks.len() == 0 {
        FileStatus::Skipped
    } else if forall|i: int| 0 <= i < chunks.len() ==> #[trigger] chunks[i].completion
        == ChunkCompletion::Complete {
        FileStatus::Done
    } else {
        FileStatus::Todo
    }
}

pub proof fn lemma_chunk_completed_le_total(c: ChunkProgress)
    ensures
        c.completed_spec() <= c.total_spec(),
{
}

pub proof fn lemma_chunks_completed_le_total(chunks: Seq<ChunkProgress>)
    ensures
        chunks_completed(chunks) <= chunks_total(chunks),
    decreases chunks.len(),
{
    if chunks.len() > 0 {
        lemma_chunks_completed_le_total(chunks.drop_last());
    }
}

impl FileProgress {
    pub open spec fn total_spec(&self) -> nat {
        chunks_total(self.chunks@)
    }

    pub open spec fn completed_spec(&self) -> nat {
        chunks_completed(self.chunks@)
    }

    /// The chunk bodies are small enough for their line counts to be machine integers.
    pub open spec fn fits(&self) -> bool {
        &&& self.total_spec() <= usize::MAX
        &&& forall|i: int|
            0 <= i < self.chunks@.len() ==> #[trigger] self.chunks@[i].chunk.normalized@.len()
                < usize::MAX
    }

    /// The effective status: a manual skip always skips, a manual include
    /// ignores the automatic reason, otherwise an automatic reason skips.
    pub open spec fn status_spec(&self) -> FileStatus {
        match self.manual_override {
            Some(ManualOverride::Skip) => FileStatus::Skipped,
            Some(ManualOverride::Include) => status_from_chunks_spec(self.chunks@),
            None => if self.skip_reason is Some {
                FileStatus::Skipped
            } else {
                status_from_chunks_spec(self.chunks@)
            },
        }
    }

    /// Whether the chunk bodies are small enough for their line counts (`fits`).
    pub fn check_fits(&self) -> (b: bool)
        ensures
            b == self.fits(),
    {
        let mut n: usize = 0;
        let mut i: usize = 0;
        while i < self.chunks.len()
            invariant
                i <= self.chunks@.len(),
                n == chunks_total(self.chunks@.take(i as int)),
                forall|j: int|
                    0 <= j < i ==> #[trigger] self.chunks@[j].chunk.normalized@.len() < usize::MAX,
            decreases self.chunks.len() - i,
        {
            assert(self.chunks@.take(i + 1).drop_last() == self.chunks@.take(i as int));
            let body = self.chunks[i].chunk.normalized.as_str();
            let cs = chars_of(body);
            if cs.len() == usize::MAX {
                return false;
            }
            let c = normalized_line_count(body);
            match n.checked_add(c) {
                Some(m) => n = m,
                None => {
                    proof {
                        lemma_chunks_total_prefix(self.chunks@, i + 1);
                    }
                    return false;
                },
            }
            i += 1;
        }
        assert(self.chunks@.take(self.chunks@.len() as int) == self.chunks@);
        true
    }

    pub fn total_lines(&self) -> (n: usize)
        requires
            self.fits(),
        ensures
            n == self.total_spec(),
    {
        let mut n: usize = 0;
        let mut i: usize = 0;
        while i < self.chunks.len()
            invariant
                self.fits(),
                i <= self.chunks@.len(),
                n == chunks_total(self.chunks@.take(i as int)),
            decreases self.chunks.len() - i,
        {
            assert(self.chunks@.take(i + 1).drop_last() == self.chunks@.take(i as int));
            proof {
                lemma_chunks_total_prefix(self.chunks@, i + 1);
            }
            let c = normalized_line_count(self.chunks[i].chunk.normalized.as_str());
            n = n + c;
            i += 1;
        }
        assert(self.chunks@.take(self.chunks@.len() as int) == self.chunks@);
        n
    }

    pub fn completed_lines(&self) -> (n: usize)
        requires
            self.fits(),
        ensures
            n == self.completed_spec(),
    {
        let mut n: usize = 0;
        let mut i: usize = 0;
        while i < self.chunks.len()
            invariant
                self.fits(),
                i <= self.chunks@.len(),
                n == chunks_completed(self.chunks@.take(i as int)),
            decreases self.chunks.len() - i,
        {
            assert(self.chunks@.take(i + 1).drop_last() == self.chunks@.take(i as int));
            proof {
                lemma_chunks_total_prefix(self.chunks@, i + 1);
                lemma_chunks_completed_le_total(self.chunks@.take(i + 1));
            }
            let c = &self.chunks[i];
            let k = if c.completion == ChunkCompletion::Complete {
                normalized_line_count(c.chunk.normalized.as_str())
            } else {
                match &c.checkpoint {
                    Some(cp) => cp.progressed_lines(c.chunk.normalized.as_str()),
                    None => 0,
                }
            };
            n = n + k;
            i += 1;
        }
        assert(self.chunks@.take(self.chunks@.len() as int) == self.chunks@);
        n
    }

    pub fn derive_status(&self) -> (s: FileStatus)
        ensures
            s == self.status_spec(),
    {
        match self.manual_override {
            Some(ManualOverride::Skip) => FileStatus::Skipped,
            Some(ManualOverride::Include) => self.status_from_chunks(),
            None => {
                if self.skip_reason.is_some() {
                    FileStatus::Skipped
                } else {
                    self.status_from_chunks()
                }
            },
        }
    }

    fn status_from_chunks(&self) -> (s: FileStatus)
        ensures
            s == status_from_chunks_spec(self.chunks@),
    {
        if self.chunks.len() == 0 {
            return FileStatus::Skipped;
        }
        let mut i: usize = 0;
        while i < self.chunks.len()
            invariant
                i <= self.chunks@.len(),
                forall|j: int|
                    0 <= j < i ==> #[trigger] self.chunks@[j].completion
                        == ChunkCompletion::Complete,
            decreases self.chunks.len() - i,
        {
            if self.chunks[i].completion != ChunkCompletion::Complete {
                return FileStatus::Todo;
            }
            i += 1;
        }
        FileStatus::Done
    }

    /// The reason text shown in the tree for a skipped file.
    pub open spec fn display_reason_spec(&self) -> Option<Seq<char>> {
        if self.status_spec() != FileStatus::Skipped {
            None
        } else if self.manual_override == Some(ManualOverride::Skip) {
            Some("manually skipped"@)
        } else {
            match self.skip_reason {
                Some(r) => Some(r.text()),
                None => None,
            }
        }
    }

    /// The compact label shown in the tree for a skipped file.
    pub open spec fn short_reason_spec(&self) -> Option<Seq<char>> {
        if self.status_spec() != FileStatus::Skipped {
            None
        } else if self.manual_override == Some(ManualOverride::Skip) {
            Some("manual"@)
        } else {
            match self.skip_reason {
                Some(r) => Some(r.short_text()),
                None => None,
            }
        }
    }

    /// Skip reason shown in the tree. Manual skip wins over the automatic reason.
    pub fn display_skip_reason(&self) -> (r: Option<String>)
        ensures
            r matches Some(s) ==> self.display_reason_spec() == Some(s@),
            r is None ==> self.display_reason_spec() is None,
    {
        if self.derive_status() != FileStatus::Skipped {
            return None;
        }
        if self.manual_override == Some(ManualOverride::Skip) {
            return Some("manually skipped".to_owned());
        }
        match &self.skip_reason {
            Some(r) => Some(r.as_str()),
            None => None,
        }
    }

    /// Compact skip label for the tree row. Manual skip is `manual`.
    pub fn short_skip_reason(&self) -> (r: Option<&'static str>)
        ensures
            r matches Some(s) ==> self.short_reason_spec() == Some(s@),
            r is None ==> self.short_reason_spec() is None,
    {
        if self.derive_status() != FileStatus::Skipped {
            return None;
        }
        if self.manual_override == Some(ManualOverride::Skip) {
            return Some("manual");
        }
        match &self.skip_reason {
            Some(r) => Some(r.short_label()),
            None => None,
        }
    }

    /// The override an `x` press applies: skip a typeable file, include a
    /// skipped file that has a body, nothing for a skipped file without one.
    pub open spec fn toggle_target_spec(&self) -> Option<ManualOverride> {
        if self.status_spec() == FileStatus::Skipped {
            if self.chunks@.len() == 0 {
                None
            } else {
                Some(ManualOverride::Include)
            }
        } else {
            Some(ManualOverride::Skip)
        }
    }

    /// `x` toggle: skip a typeable file, or include a skipped file that has a body.
    pub fn toggle_override_target(&self) -> (r: Option<ManualOverride>)
        ensures
            r == self.toggle_target_spec(),
    {
        match self.derive_status() {
            FileStatus::Skipped => {
                if self.chunks.len() == 0 {
                    None
                } else {
                    Some(ManualOverride::Include)
                }
            },
            FileStatus::Todo | FileStatus::Done => Some(ManualOverride::Skip),
        }
    }

    pub fn first_incomplete_chunk(&self) -> (r: Option<&ChunkProgress>)
        ensures
            r matches Some(c) ==> exists|i: int|
                0 <= i < self.chunks@.len() && self.chunks@[i] == c && self.chunks@[i].completion
                    == ChunkCompletion::Incomplete && forall|j: int|
                    0 <= j < i ==> #[trigger] self.chunks@[j].completion
                        != ChunkCompletion::Incomplete,
            r is None ==> forall|i: int|
                0 <= i < self.chunks@.len() ==> #[trigger] self.chunks@[i].completion
                    != ChunkCompletion::Incomplete,
    {
        let mut i: usize = 0;
        while i < self.chunks.len()
            invariant
                i <= self.chunks@.len(),
                forall|j: int|
                    0 <= j < i ==> #[trigger] self.chunks@[j].completion
                        != ChunkCompletion::Incomplete,
            decreases self.chunks.len() - i,
        {
            if self.chunks[i].completion == ChunkCompletion::Incomplete {
                return Some(&self.chunks[i]);
            }
            i += 1;
        }
        None
    }
}

pub proof fn lemma_chunks_total_prefix(chunks: Seq<ChunkProgress>, k: int)
    requires
        0 <= k <= chunks.len(),
    ensures
        chunks_total(chunks.take(k)) <= chunks_total(chunks),
    decreases chunks.len(),
{
    if k < chunks.len() {
        assert(chunks.drop_last().take(k) == chunks.take(k));
        lemma_chunks_total_prefix(chunks.drop_last(), k);
    } else {
        assert(chunks.take(k) == chunks);
    }
}

/// The typed lines of a file never exceed its lines.
pub proof fn law_file_completed_le_total(f: FileProgress)
    ensures
        f.completed_spec() <= f.total_spec(),
{
    lemma_chunks_completed_le_total(f.chunks@);
}

/// A manual skip always makes the file skipped; a manual include of a file
/// with a body never does.
pub proof fn law_manual_override_wins(f: FileProgress)
    ensures
        f.manual_override == Some(ManualOverride::Skip) ==> f.status_spec() == FileStatus::Skipped,
        f.manual_override == Some(ManualOverride::Include) && f.chunks@.len() > 0
            ==> f.status_spec() != FileStatus::Skipped,
{
}

/// Sum over files, counting only files that are not skipped.
pub open spec fn files_total(files: Seq<FileProgress>) -> nat
    decreases files.len(),
{
    if files.len() == 0 {
        0
    } else {
        files_total(files.drop_last()) + if files.last().status_spec() != FileStatus::Skipped {
            files.last().total_spec()
        } else {
            0
        }
    }
}

pub open spec fn files_completed(files: Seq<FileProgress>) -> nat
    decreases files.len(),
{
    if files.len() == 0 {
        0
    } else {
        files_completed(files.drop_last()) + if files.last().status_spec()
            != FileStatus::Skipped {
            files.last().completed_spec()
        } else {
            0
        }
    }
}

/// Lines of every file, skipped or not.
pub open spec fn files_all_lines(files: Seq<FileProgress>) -> nat
    decreases files.len(),
{
    if files.len() == 0 {
        0
    } else {
        files_all_lines(files.drop_last()) + files.last().total_spec()
    }
}

/// Aggregate repository progress.
#[derive(Debug, Clone, PartialEq, Eq)]
pub struct RepoProgress {
    pub files: Vec<FileProgress>,
}

impl Default for RepoProgress {
    fn default() -> (r: RepoProgress)
        ensures
            r.files@.len() == 0,
    {
        RepoProgress { files: Vec::new() }
    }
}

pub proof fn lemma_files_le_all(files: Seq<FileProgress>)
    ensures
        files_completed(files) <= files_total(files),
        files_total(files) <= files_all_lines(files),
    decreases files.len(),
{
    if files.len() > 0 {
        lemma_files_le_all(files.drop_last());
        lemma_chunks_completed_le_total(files.last().chunks@);
    }
}

pub proof fn lemma_files_all_prefix(files: Seq<FileProgress>, k: int)
    requires
        0 <= k <= files.len(),
    ensures
        files_all_lines(files.take(k)) <= files_all_lines(files),
    decreases files.len(),
{
    if k < files.len() {
        assert(files.drop_last().take(k) == files.take(k));
        lemma_files_all_prefix(files.drop_last(), k);
    } else {
        assert(files.take(k) == files);
    }
}

pub proof fn lemma_file_le_all(files: Seq<FileProgress>, i: int)
    requires
        0 <= i < files.len(),
    ensures
        files[i].total_spec() <= files_all_lines(files),
{
    lemma_files_all_prefix(files, i + 1);
    assert(files.take(i + 1).drop_last() == files.take(i));
    assert(files.take(i + 1).last() == files[i]);
}

impl RepoProgress {
    /// Every file fits, and the lines of all files together are a machine integer.
    pub open spec fn fits(&self) -> bool {
        &&& files_all_lines(self.files@) <= usize::MAX
        &&& forall|i: int| 0 <= i < self.files@.len() ==> #[trigger] self.files@[i].fits()
    }

    pub open spec fn completed_spec(&self) -> nat {
        files_completed(self.files@)
    }

    pub open spec fn total_spec(&self) -> nat {
        files_total(self.files@)
    }

    pub fn completed_lines(&self) -> (n: usize)
        requires
            self.fits(),
        ensures
            n == self.completed_spec(),
    {
        let mut n: usize = 0;
        let mut i: usize = 0;
        while i < self.files.len()
            invariant
                self.fits(),
                i <= self.files@.len(),
                n == files_completed(self.files@.take(i as int)),
            decreases self.files.len() - i,
        {
            assert(self.files@.take(i + 1).drop_last() == self.files@.take(i as int));
            proof {
                lemma_files_le_all(self.files@.take(i + 1));
                lemma_files_all_prefix(self.files@, i + 1);
            }
            let f = &self.files[i];
            if f.derive_status() != FileStatus::Skipped {
                n = n + f.completed_lines();
            }
            i += 1;
        }
        assert(self.files@.take(self.files@.len() as int) == self.files@);
        n
    }

    /// Whether the line counts of the repository fit in machine integers (`fits`).
    pub fn check_fits(&self) -> (b: bool)
        ensures
            b == self.fits(),
    {
        let mut n: usize = 0;
        let mut i: usize = 0;
        while i < self.files.len()
            invariant
                i <= self.files@.len(),
                n == files_all_lines(self.files@.take(i as int)),
                forall|j: int| 0 <= j < i ==> #[trigger] self.files@[j].fits(),
            decreases self.files.len() - i,
        {
            assert(self.files@.take(i + 1).drop_last() == self.files@.take(i as int));
            if !self.files[i].check_fits() {
                return false;
            }
            let c = self.files[i].total_lines();
            match n.checked_add(c) {
                Some(m) => n = m,
                None => {
                    proof {
                        lemma_files_all_prefix(self.files@, i + 1);
                    }
                    return false;
                },
            }
            i += 1;
        }
        assert(self.files@.take(self.files@.len() as int) == self.files@);
        true
    }

    pub fn total_lines(&self) -> (n: usize)
        requires
            self.fits(),
        ensures
            n == self.total_spec(),
    {
        let mut n: usize = 0;
        let mut i: usize = 0;
        while i < self.files.len()
            invariant
                self.fits(),
                i <= self.files@.len(),
                n == files_total(self.files@.take(i as int)),
            decreases self.files.len() - i,
        {
            assert(self.files@.take(i + 1).drop_last() == self.files@.take(i as int));
            proof {
                lemma_files_le_all(self.files@.take(i + 1));
                lemma_files_all_prefix(self.files@, i + 1);
            }
            let f = &self.files[i];
            if f.derive_status() != FileStatus::Skipped {
                n = n + f.total_lines();
            }
            i += 1;
        }
        assert(self.files@.take(self.files@.len() as int) == self.files@);
        n
    }

    /// Every file done or skipped, and at least one line to type.
    pub open spec fn complete_spec(&self) -> bool {
        &&& forall|i: int|
            0 <= i < self.files@.len() ==> #[trigger] self.files@[i].status_spec()
                != FileStatus::Todo
        &&& self.total_spec() > 0
    }

    pub fn is_repo_complete(&self) -> (b: bool)
        requires
            self.fits(),
        ensures
            b == self.complete_spec(),
    {
        let mut i: usize = 0;
        while i < self.files.len()
            invariant
                i <= self.files@.len(),
                forall|j: int|
                    0 <= j < i ==> #[trigger] self.files@[j].status_spec() != FileStatus::Todo,
            decreases self.files.len() - i,
        {
            let s = self.files[i].derive_status();
            if !(s == FileStatus::Done || s == FileStatus::Skipped) {
                return false;
            }
            i += 1;
        }
        self.total_lines() > 0
    }

    /// The first file in path order that still has something to type.
    pub fn recommend_path(&self) -> (r: Option<&str>)
        ensures
            r matches Some(p) ==> exists|i: int|
                0 <= i < self.files@.len() && self.files@[i].relative_path@ == p@
                    && self.files@[i].status_spec() == FileStatus::Todo && forall|j: int|
                    0 <= j < i ==> #[trigger] self.files@[j].status_spec() != FileStatus::Todo,
            r is None ==> forall|i: int|
                0 <= i < self.files@.len() ==> #[trigger] self.files@[i].status_spec()
                    != FileStatus::Todo,
    {
        let mut i: usize = 0;
        while i < self.files.len()
            invariant
                i <= self.files@.len(),
                forall|j: int|
                    0 <= j < i ==> #[trigger] self.files@[j].status_spec() != FileStatus::Todo,
            decreases self.files.len() - i,
        {
            if self.files[i].derive_status() == FileStatus::Todo {
                return Some(self.files[i].relative_path.as_str());
            }
            i += 1;
        }
        None
    }
}

/// The repository's typed lines never exceed its lines.
pub proof fn law_repo_completed_le_total(p: RepoProgress)
    ensures
        p.completed_spec() <= p.total_spec(),
{
    lemma_files_le_all(p.files@);
}

proof fn lemma_complete_chunks_fully_typed(chunks: Seq<ChunkProgress>)
    requires
        forall|i: int| 0 <= i < chunks.len() ==> #[trigger] chunks[i].completion == ChunkCompletion::Complete,
    ensures
        chunks_completed(chunks) == chunks_total(chunks),
    decreases chunks.len(),
{
    if chunks.len() > 0 {
        let c = chunks.drop_last();
        assert forall|i: int| 0 <= i < c.len() implies #[trigger] c[i].completion == ChunkCompletion::Complete by {
            assert(c[i] == chunks[i]);
        }
        lemma_complete_chunks_fully_typed(c);
        assert(chunks.last().completion == ChunkCompletion::Complete);
    }
}

/// A done file has all its lines typed.
pub proof fn law_done_file_fully_typed(f: FileProgress)
    requires
        f.status_spec() == FileStatus::Done,
    ensures
        f.completed_spec() == f.total_spec(),
{
    lemma_complete_chunks_fully_typed(f.chunks@);
}

proof fn lemma_files_fully_typed(files: Seq<FileProgress>)
    requires
        forall|i: int| 0 <= i < files.len() ==> #[trigger] files[i].status_spec() != FileStatus::Todo,
    ensures
        files_completed(files) == files_total(files),
    decreases files.len(),
{
    if files.len() > 0 {
        let d = files.drop_last();
        assert forall|i: int| 0 <= i < d.len() implies #[trigger] d[i].status_spec() != FileStatus::Todo by {
            assert(d[i] == files[i]);
        }
        lemma_files_fully_typed(d);
        let f = files.last();
        assert(files[files.len() - 1] == f);
        if f.status_spec() == FileStatus::Done {
            law_done_file_fully_typed(f);
        }
    }
}

/// Once no file is left to type, the repository's typed lines are all its lines.
pub proof fn law_repo_without_todo_fully_typed(p: RepoProgress)
    requires
        forall|i: int| 0 <= i < p.files@.len() ==> #[trigger] p.files@[i].status_spec() != FileStatus::Todo,
    ensures
        p.completed_spec() == p.total_spec(),
{
    lemma_files_fully_typed(p.files@);
}

proof fn lemma_count_char_prefixes(s: Seq<char>, c: char, a: int, b: int)
    requires
        0 <= a <= b <= s.len(),
    ensures
        count_char(s.take(a), c) <= count_char(s.take(b), c),
    decreases b - a,
{
    if a < b {
        lemma_count_char_prefixes(s, c, a, b - 1);
        assert(s.take(b).drop_last() =~= s.take(b - 1));
    }
}

/// Typing further never lowers the count of typed lines, and that count
/// never exceeds the body's lines.
pub proof fn law_progressed_lines_monotone(a: nat, b: nat, normalized: Seq<char>)
    requires
        a <= b,
    ensures
        progressed_lines_spec(a, normalized) <= progressed_lines_spec(b, normalized),
        progressed_lines_spec(b, normalized) <= line_count(normalized),
{
    let n = normalized.len();
    let ta: int = if a <= n { a as int } else { n as int };
    let tb: int = if b <= n { b as int } else { n as int };
    lemma_count_char_prefixes(normalized, '\n', ta, tb);
    assert(normalized.take(n as int) =~= normalized);
}

/// Outcome of a typing session for persistence.
#[derive(Debug, Clone, PartialEq, Eq)]
pub struct SessionSummary {
    pub chunk_id: i64,
    pub started_at: String,
    pub ended_at: String,
    pub completed: bool,
    pub keystrokes: u32,
    pub misses: u32,
    pub elapsed_ms: u64,
}

} // verus!
