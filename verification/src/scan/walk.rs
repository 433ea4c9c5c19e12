//! Classifying the files of a repository walk.

use vstd::prelude::*;

use crate::domain::content::{FileStatus, ImportEdge, ScanResult, ScannedFile, SkipReason};
use crate::scan::extract::{chunks_ok, extract_chunks, ExtractOptions};
use crate::text::{
    ascii_lower, ascii_lower_chars, chars_of, ends_with, ends_with_chars, lemma_lex_asymmetric,
    lemma_lex_total, lemma_lex_transitive, lex_less, lex_lt, lines_of, split_char, split_on,
    starts_with, starts_with_chars, text_lines,
};

verus! {

/// Limits used for automatic exclusion.
#[derive(Debug, Clone, Copy, PartialEq, Eq, Structural)]
pub struct WalkOptions {
    pub max_line_cols: usize,
    pub max_file_lines: usize,
    pub include_tests: bool,
    pub include_configs: bool,
    pub extract: ExtractOptions,
}

impl Default for WalkOptions {
    fn default() -> (o: Self)
        ensures
            o.max_line_cols == 200,
            o.max_file_lines == 5000,
            !o.include_tests,
            !o.include_configs,
            o.extract == (ExtractOptions {
                tab_width: 4,
                include_imports: false,
                include_doc_comments: true,
                include_comments: false,
            }),
    {
        WalkOptions {
            max_line_cols: 200,
            max_file_lines: 5000,
            include_tests: false,
            include_configs: false,
            extract: ExtractOptions::default(),
        }
    }
}

/// Directories never descended into.
pub open spec fn excluded_dirs() -> Seq<Seq<char>> {
    seq![
        ".git"@, ".hg"@, ".svn"@, ".jj"@, "node_modules"@, "target"@, "dist"@, "build"@, "out"@,
        "vendor"@, ".venv"@, "venv"@, "__pycache__"@, ".idea"@, ".vscode"@, ".repomonk"@,
    ]
}

/// Lock files and generated files, by name.
pub open spec fn lock_or_generated() -> Seq<Seq<char>> {
    seq![
        "Cargo.lock"@, "package-lock.json"@, "yarn.lock"@, "pnpm-lock.yaml"@, "Gemfile.lock"@,
        "poetry.lock"@, "composer.lock"@, "go.sum"@, "Cargo.toml.orig"@,
    ]
}

/// Name endings of generated, minified and binary files.
pub open spec fn generated_suffixes() -> Seq<Seq<char>> {
    seq![
        ".min.js"@, ".min.css"@, ".map"@, ".lock"@, ".png"@, ".jpg"@, ".jpeg"@, ".gif"@, ".webp"@,
        ".ico"@, ".pdf"@, ".zip"@, ".gz"@, ".tar"@, ".wasm"@, ".so"@, ".dylib"@, ".dll"@, ".exe"@,
        ".o"@, ".a"@,
    ]
}

/// Directory names that hold tests.
pub open spec fn test_dir_segments() -> Seq<Seq<char>> {
    seq!["test"@, "tests"@, "__tests__"@, "spec"@, "specs"@]
}

/// Name endings of test files (compared in lower case).
pub open spec fn test_suffixes() -> Seq<Seq<char>> {
    seq![
        "_test.rs"@, "_test.go"@, "_test.py"@, "_spec.rb"@, "_spec.ts"@, "_spec.js"@, ".test.ts"@,
        ".test.tsx"@, ".test.js"@, ".test.jsx"@, ".spec.ts"@, ".spec.tsx"@, ".spec.js"@,
        ".spec.jsx"@,
    ]
}

/// Configuration file names (compared ignoring ASCII case).
pub open spec fn config_names() -> Seq<Seq<char>> {
    seq![
        "Cargo.toml"@, "Cargo.toml.orig"@, "package.json"@, "package-lock.json"@,
        "tsconfig.json"@, "jsconfig.json"@, "pyproject.toml"@, "setup.cfg"@, "setup.py"@,
        "Pipfile"@, "poetry.toml"@, "go.mod"@, "go.sum"@, "Gemfile"@, "Rakefile"@, "Makefile"@,
        "CMakeLists.txt"@, "Dockerfile"@, "docker-compose.yml"@, "docker-compose.yaml"@,
        ".editorconfig"@, ".gitignore"@, ".gitattributes"@, ".env"@, ".env.example"@,
        ".eslintrc"@, ".eslintrc.js"@, ".eslintrc.cjs"@, ".eslintrc.json"@, ".prettierrc"@,
        ".prettierrc.js"@, ".prettierrc.json"@, "prettier.config.js"@, "rust-toolchain"@,
        "rust-toolchain.toml"@, "clippy.toml"@, "rustfmt.toml"@, ".rustfmt.toml"@,
    ]
}

/// Configuration file extensions (compared in lower case).
pub open spec fn config_extensions() -> Seq<Seq<char>> {
    seq![".toml"@, ".yaml"@, ".yml"@, ".ini"@, ".cfg"@, ".conf"@, ".config"@, ".jsonc"@, ".env"@]
}

pub open spec fn ends_with_any(s: Seq<char>, suffixes: Seq<Seq<char>>) -> bool {
    exists|i: int| 0 <= i < suffixes.len() && ends_with(s, #[trigger] suffixes[i])
}

pub open spec fn any_segment_in(path: Seq<char>, names: Seq<Seq<char>>, lower: bool) -> bool {
    exists|i: int|
        0 <= i < split_char(path, '/').len() && names.contains(
            if lower {
                ascii_lower(#[trigger] split_char(path, '/')[i])
            } else {
                split_char(path, '/')[i]
            },
        )
}

/// Whether a file is a test by its path or name.
pub open spec fn is_test_spec(relative: Seq<char>, name: Seq<char>) -> bool {
    let lower = ascii_lower(name);
    any_segment_in(relative, test_dir_segments(), true) || ends_with_any(lower, test_suffixes())
        || starts_with(lower, "test_"@)
}

/// Whether a file is configuration by its name.
pub open spec fn is_config_spec(name: Seq<char>) -> bool {
    let lower = ascii_lower(name);
    config_names().map_values(|n: Seq<char>| ascii_lower(n)).contains(lower) || starts_with(
        lower,
        ".env"@,
    ) || (ends_with_any(lower, config_extensions()) && !ends_with(lower, ".lock"@))
}

/// The reason a file is skipped by its path and name alone, checked in order:
/// generated or lock file, inside an excluded directory, a test, a
/// configuration file.
pub open spec fn name_skip(relative: Seq<char>, name: Seq<char>, opts: WalkOptions) -> Option<
    SkipReason,
> {
    if lock_or_generated().contains(name) || ends_with_any(name, generated_suffixes()) {
        Some(SkipReason::GeneratedOrLockFile)
    } else if any_segment_in(relative, excluded_dirs(), false) {
        Some(SkipReason::VcsOrDependencyDir)
    } else if !opts.include_tests && is_test_spec(relative, name) {
        Some(SkipReason::TestFile)
    } else if !opts.include_configs && is_config_spec(name) {
        Some(SkipReason::ConfigFile)
    } else {
        None
    }
}

pub open spec fn lits(l: Seq<&str>) -> Seq<Seq<char>> {
    l.map_values(|e: &str| e@)
}

fn in_list(s: &[char], list: &[&str]) -> (b: bool)
    ensures
        b == lits(list@).contains(s@),
{
    let mut i: usize = 0;
    while i < list.len()
        invariant
            i <= list@.len(),
            forall|q: int| 0 <= q < i ==> lits(list@)[q] != s@,
        decreases list.len() - i,
    {
        let c = chars_of(list[i]);
        if crate::text::eq_chars(s, c.as_slice()) {
            assert(lits(list@)[i as int] == s@);
            return true;
        }
        i += 1;
    }
    false
}

fn ends_with_list(s: &[char], list: &[&str]) -> (b: bool)
    ensures
        b == ends_with_any(s@, lits(list@)),
{
    let mut i: usize = 0;
    while i < list.len()
        invariant
            i <= list@.len(),
            forall|q: int| 0 <= q < i ==> !ends_with(s@, #[trigger] lits(list@)[q]),
        decreases list.len() - i,
    {
        let c = chars_of(list[i]);
        if ends_with_chars(s, c.as_slice()) {
            assert(ends_with(s@, lits(list@)[i as int]));
            return true;
        }
        i += 1;
    }
    false
}

fn segment_in_list(path: &[char], list: &[&str], lower: bool) -> (b: bool)
    ensures
        b == any_segment_in(path@, lits(list@), lower),
{
    let segs = split_on(path, '/');
    let ghost sp = split_char(path@, '/');
    let mut i: usize = 0;
    while i < segs.len()
        invariant
            i <= segs@.len(),
            segs@.len() == sp.len(),
            sp == split_char(path@, '/'),
            forall|q: int| 0 <= q < segs@.len() ==> #[trigger] segs@[q]@ == sp[q],
            forall|q: int|
                0 <= q < i ==> !lits(list@).contains(
                    if lower {
                        ascii_lower(#[trigger] sp[q])
                    } else {
                        sp[q]
                    },
                ),
        decreases segs.len() - i,
    {
        let seg = if lower {
            ascii_lower_chars(segs[i].as_slice())
        } else {
            crate::scan::deps::paths::copy_chars(&segs[i])
        };
        if in_list(seg.as_slice(), list) {
            return true;
        }
        i += 1;
    }
    false
}

fn excluded_dir_list() -> (l: [&'static str; 16])
    ensures
        lits(l@) == excluded_dirs(),
{
    let l = [
        ".git",
        ".hg",
        ".svn",
        ".jj",
        "node_modules",
        "target",
        "dist",
        "build",
        "out",
        "vendor",
        ".venv",
        "venv",
        "__pycache__",
        ".idea",
        ".vscode",
        ".repomonk",
    ];
    assert(lits(l@) =~= excluded_dirs());
    l
}

/// Whether a directory of this name is never descended into.
pub fn is_excluded_dir(name: &str) -> (b: bool)
    ensures
        b == excluded_dirs().contains(name@),
{
    let l = excluded_dir_list();
    let c = chars_of(name);
    in_list(c.as_slice(), l.as_slice())
}

fn is_test_path(relative: &[char], name: &[char]) -> (b: bool)
    ensures
        b == is_test_spec(relative@, name@),
{
    let segs = ["test", "tests", "__tests__", "spec", "specs"];
    assert(lits(segs@) =~= test_dir_segments());
    if segment_in_list(relative, segs.as_slice(), true) {
        return true;
    }
    let lower = ascii_lower_chars(name);
    let sufs = [
        "_test.rs",
        "_test.go",
        "_test.py",
        "_spec.rb",
        "_spec.ts",
        "_spec.js",
        ".test.ts",
        ".test.tsx",
        ".test.js",
        ".test.jsx",
        ".spec.ts",
        ".spec.tsx",
        ".spec.js",
        ".spec.jsx",
    ];
    assert(lits(sufs@) =~= test_suffixes());
    let t = chars_of("test_");
    ends_with_list(lower.as_slice(), sufs.as_slice()) || starts_with_chars(
        lower.as_slice(),
        t.as_slice(),
    )
}

fn config_name_list() -> (l: [&'static str; 38])
    ensures
        lits(l@) == config_names(),
{
    let l = [
        "Cargo.toml",
        "Cargo.toml.orig",
        "package.json",
        "package-lock.json",
        "tsconfig.json",
        "jsconfig.json",
        "pyproject.toml",
        "setup.cfg",
        "setup.py",
        "Pipfile",
        "poetry.toml",
        "go.mod",
        "go.sum",
        "Gemfile",
        "Rakefile",
        "Makefile",
        "CMakeLists.txt",
        "Dockerfile",
        "docker-compose.yml",
        "docker-compose.yaml",
        ".editorconfig",
        ".gitignore",
        ".gitattributes",
        ".env",
        ".env.example",
        ".eslintrc",
        ".eslintrc.js",
        ".eslintrc.cjs",
        ".eslintrc.json",
        ".prettierrc",
        ".prettierrc.js",
        ".prettierrc.json",
        "prettier.config.js",
        "rust-toolchain",
        "rust-toolchain.toml",
        "clippy.toml",
        "rustfmt.toml",
        ".rustfmt.toml",
    ];
    assert(lits(l@) =~= config_names());
    l
}

fn is_config_path(name: &[char]) -> (b: bool)
    ensures
        b == is_config_spec(name@),
{
    let lower = ascii_lower_chars(name);
    let names = config_name_list();
    let ghost lowered = config_names().map_values(|n: Seq<char>| ascii_lower(n));
    let mut i: usize = 0;
    while i < names.len()
        invariant
            i <= names@.len(),
            lits(names@) == config_names(),
            lowered == config_names().map_values(|n: Seq<char>| ascii_lower(n)),
            lower@ == ascii_lower(name@),
            forall|q: int| 0 <= q < i ==> lowered[q] != lower@,
        decreases names.len() - i,
    {
        let c = chars_of(names[i]);
        let lc = ascii_lower_chars(c.as_slice());
        assert(lowered[i as int] == ascii_lower(lits(names@)[i as int]));
        if crate::text::eq_chars(lc.as_slice(), lower.as_slice()) {
            assert(lowered.contains(lower@));
            return true;
        }
        i += 1;
    }
    assert(!lowered.contains(lower@));
    let env = chars_of(".env");
    if starts_with_chars(lower.as_slice(), env.as_slice()) {
        return true;
    }
    let exts = [".toml", ".yaml", ".yml", ".ini", ".cfg", ".conf", ".config", ".jsonc", ".env"];
    assert(lits(exts@) =~= config_extensions());
    let lock = chars_of(".lock");
    ends_with_list(lower.as_slice(), exts.as_slice()) && !ends_with_chars(
        lower.as_slice(),
        lock.as_slice(),
    )
}

/// The reason a file is skipped by its path and name alone, if any.
pub fn skip_by_name(relative: &str, name: &str, opts: &WalkOptions) -> (r: Option<SkipReason>)
    ensures
        r == name_skip(relative@, name@, *opts),
{
    let rel = chars_of(relative);
    let nm = chars_of(name);
    let locks = [
        "Cargo.lock",
        "package-lock.json",
        "yarn.lock",
        "pnpm-lock.yaml",
        "Gemfile.lock",
        "poetry.lock",
        "composer.lock",
        "go.sum",
        "Cargo.toml.orig",
    ];
    assert(lits(locks@) =~= lock_or_generated());
    let sufs = [
        ".min.js",
        ".min.css",
        ".map",
        ".lock",
        ".png",
        ".jpg",
        ".jpeg",
        ".gif",
        ".webp",
        ".ico",
        ".pdf",
        ".zip",
        ".gz",
        ".tar",
        ".wasm",
        ".so",
        ".dylib",
        ".dll",
        ".exe",
        ".o",
        ".a",
    ];
    assert(lits(sufs@) =~= generated_suffixes());
    if in_list(nm.as_slice(), locks.as_slice()) || ends_with_list(nm.as_slice(), sufs.as_slice()) {
        return Some(SkipReason::GeneratedOrLockFile);
    }
    let dirs = excluded_dir_list();
    if segment_in_list(rel.as_slice(), dirs.as_slice(), false) {
        return Some(SkipReason::VcsOrDependencyDir);
    }
    if !opts.include_tests && is_test_path(rel.as_slice(), nm.as_slice()) {
        return Some(SkipReason::TestFile);
    }
    if !opts.include_configs && is_config_path(nm.as_slice()) {
        return Some(SkipReason::ConfigFile);
    }
    None
}

/// Bytes counted as non-text control characters.
pub open spec fn is_control(b: u8) -> bool {
    b < 7 || (b > 13 && b < 32)
}

pub open spec fn control_count(s: Seq<u8>) -> nat
    decreases s.len(),
{
    if s.len() == 0 {
        0
    } else {
        control_count(s.drop_last()) + if is_control(s.last()) {
            1nat
        } else {
            0nat
        }
    }
}

/// Binary content: a NUL byte anywhere, or more than 30% control bytes in the
/// first 8 KiB.
pub open spec fn looks_binary_spec(bytes: Seq<u8>) -> bool {
    let sample = bytes.take(if bytes.len() < 8192 {
        bytes.len() as int
    } else {
        8192
    });
    bytes.contains(0u8) || (sample.len() > 0 && 10 * control_count(sample) > 3 * sample.len())
}

proof fn lemma_control_count_bound(s: Seq<u8>)
    ensures
        control_count(s) <= s.len(),
    decreases s.len(),
{
    if s.len() > 0 {
        lemma_control_count_bound(s.drop_last());
    }
}

/// Whether file contents look binary.
pub fn looks_binary(bytes: &[u8]) -> (b: bool)
    ensures
        b == looks_binary_spec(bytes@),
{
    let mut i: usize = 0;
    while i < bytes.len()
        invariant
            i <= bytes@.len(),
            forall|q: int| 0 <= q < i ==> bytes@[q] != 0u8,
        decreases bytes.len() - i,
    {
        if bytes[i] == 0 {
            assert(bytes@[i as int] == 0u8);
            return true;
        }
        i += 1;
    }
    assert(!bytes@.contains(0u8));
    let n: usize = if bytes.len() < 8192 {
        bytes.len()
    } else {
        8192
    };
    if n == 0 {
        return false;
    }
    let ghost sample = bytes@.take(n as int);
    let mut count: usize = 0;
    let mut k: usize = 0;
    while k < n
        invariant
            k <= n <= bytes@.len(),
            n <= 8192,
            sample == bytes@.take(n as int),
            count == control_count(sample.take(k as int)),
            count <= k,
        decreases n - k,
    {
        assert(sample.take(k + 1).drop_last() =~= sample.take(k as int));
        let c = bytes[k];
        if c < 7 || (c > 13 && c < 32) {
            count += 1;
        }
        k += 1;
    }
    assert(sample.take(n as int) =~= sample);
    10 * count > 3 * n
}

/// std's `String::from_utf8_lossy`: the text of `bytes`, with invalid UTF-8
/// sequences replaced.
pub uninterp spec fn utf8_lossy(bytes: Seq<u8>) -> Seq<char>;

/// std's `String::from_utf8_lossy`; what it returns is named `utf8_lossy`.
#[verifier::external_body]
fn decode_lossy(bytes: &[u8]) -> (s: String)
    ensures
        s@ == utf8_lossy(bytes@),
{
    String::from_utf8_lossy(bytes).to_string()
}

/// A file skipped for `reason`.
pub fn skipped(relative: String, reason: SkipReason) -> (f: ScannedFile)
    ensures
        f.relative_path == relative,
        f.status == FileStatus::Skipped,
        f.skip_reason == Some(reason),
        f.chunks@.len() == 0,
        scanned_ok(f),
{
    ScannedFile {
        relative_path: relative,
        status: FileStatus::Skipped,
        skip_reason: Some(reason),
        chunks: Vec::new(),
    }
}

/// Some line of the text is longer than `max` characters.
pub open spec fn has_long_line(text: Seq<char>, max: nat) -> bool {
    exists|i: int| 0 <= i < text_lines(text).len() && #[trigger] text_lines(text)[i].len() > max
}

/// What reading a file's contents decides, in order: binary content, too many
/// lines, too long a line, nothing left to type; otherwise its chunk.
pub open spec fn contents_ok(relative: Seq<char>, bytes: Seq<u8>, opts: WalkOptions, f: ScannedFile) -> bool {
    let text = utf8_lossy(bytes);
    &&& f.relative_path@ == relative
    &&& if looks_binary_spec(bytes) {
        f.status == FileStatus::Skipped && f.skip_reason == Some(SkipReason::Binary)
            && f.chunks@.len() == 0
    } else if text_lines(text).len() > opts.max_file_lines {
        f.status == FileStatus::Skipped && f.skip_reason == Some(
            SkipReason::FileTooLarge { max_lines: opts.max_file_lines },
        ) && f.chunks@.len() == 0
    } else if has_long_line(text, opts.max_line_cols as nat) {
        f.status == FileStatus::Skipped && f.skip_reason == Some(
            SkipReason::LineTooLong { max_cols: opts.max_line_cols },
        ) && f.chunks@.len() == 0
    } else if f.chunks@.len() == 0 {
        f.status == FileStatus::Skipped && f.skip_reason == Some(SkipReason::NoChunks)
            && chunks_ok(relative, text, opts.extract, Seq::empty())
    } else {
        f.status == FileStatus::Todo && f.skip_reason is None && chunks_ok(
            relative,
            text,
            opts.extract,
            f.chunks@,
        )
    }
}

/// Classify a file by its contents (read after its name passed).
pub fn classify_contents(relative: String, bytes: &[u8], opts: &WalkOptions) -> (f: ScannedFile)
    ensures
        contents_ok(relative@, bytes@, *opts, f),
        scanned_ok(f),
{
    if looks_binary(bytes) {
        return skipped(relative, SkipReason::Binary);
    }
    let text = decode_lossy(bytes);
    let lines = lines_of(text.as_str());
    if lines.len() > opts.max_file_lines {
        return skipped(relative, SkipReason::FileTooLarge { max_lines: opts.max_file_lines });
    }
    let mut i: usize = 0;
    while i < lines.len()
        invariant
            i <= lines@.len(),
            lines@.len() == text_lines(text@).len(),
            forall|q: int| 0 <= q < lines@.len() ==> #[trigger] lines@[q]@ == text_lines(text@)[q],
            forall|q: int| 0 <= q < i ==> text_lines(text@)[q].len() <= opts.max_line_cols,
            !looks_binary_spec(bytes@),
            text@ == utf8_lossy(bytes@),
            lines@.len() <= opts.max_file_lines,
        decreases lines.len() - i,
    {
        if lines[i].len() > opts.max_line_cols {
            assert(text_lines(text@)[i as int].len() > opts.max_line_cols);
            return skipped(relative, SkipReason::LineTooLong { max_cols: opts.max_line_cols });
        }
        i += 1;
    }
    let chunks = extract_chunks(relative.as_str(), text.as_str(), opts.extract);
    if chunks.len() == 0 {
        return skipped(relative, SkipReason::NoChunks);
    }
    ScannedFile { relative_path: relative, status: FileStatus::Todo, skip_reason: None, chunks }
}

/// A scanned file is skipped exactly when it has a reason and exactly when it
/// has no chunk; it is never done at scan time, and a file to type has one chunk.
pub open spec fn scanned_ok(f: ScannedFile) -> bool {
    &&& (f.status == FileStatus::Skipped) == (f.skip_reason is Some)
    &&& (f.status == FileStatus::Skipped) == (f.chunks@.len() == 0)
    &&& f.status != FileStatus::Done
    &&& f.status == FileStatus::Todo ==> f.chunks@.len() == 1
}

/// Paths in non-decreasing lexicographic order.
pub open spec fn sorted_by_path(files: Seq<ScannedFile>) -> bool {
    forall|i: int, j: int|
        0 <= i < j < files.len() ==> !lex_lt(files[j].relative_path@, files[i].relative_path@)
}

/// The scan of a repository from the files its walk classified: the same
/// files, sorted by path.
pub fn scan_repository(files: Vec<ScannedFile>) -> (r: ScanResult)
    ensures
        r.files@.to_multiset() == files@.to_multiset(),
        sorted_by_path(r.files@),
        r.import_edges@.len() == 0,
        (forall|i: int| 0 <= i < files@.len() ==> scanned_ok(#[trigger] files@[i])) ==> forall|i: int|
            0 <= i < r.files@.len() ==> scanned_ok(#[trigger] r.files@[i]),
{
    broadcast use vstd::seq_lib::group_to_multiset_ensures, vstd::seq_lib::to_multiset_insert, vstd::multiset::group_multiset_axioms, vstd::multiset::lemma_multiset_empty_len;

    let ghost orig = files@;
    let mut rest = files;
    let mut out: Vec<ScannedFile> = Vec::new();
    assert(rest@ =~= orig);
    assert(out@ =~= Seq::<ScannedFile>::empty());
    assert(out@.to_multiset().len() == 0);
    assert(out@.to_multiset().add(rest@.to_multiset()) =~= orig.to_multiset());
    while rest.len() > 0
        invariant
            out@.to_multiset().add(rest@.to_multiset()) == orig.to_multiset(),
            sorted_by_path(out@),
        decreases rest.len(),
    {
        let ghost before = rest@;
        let f = rest.pop().unwrap();
        assert(before =~= rest@.push(f));
        let mut j: usize = 0;
        while j < out.len() && !lex_less(
            chars_of(f.relative_path.as_str()).as_slice(),
            chars_of(out[j].relative_path.as_str()).as_slice(),
        )
            invariant
                j <= out@.len(),
                forall|k: int| 0 <= k < j ==> !lex_lt(f.relative_path@, #[trigger] out@[k].relative_path@),
            decreases out.len() - j,
        {
            j += 1;
        }
        let ghost old_out = out@;
        proof {
            assert forall|k: int| j <= k < old_out.len() implies !lex_lt(
                old_out[k].relative_path@,
                f.relative_path@,
            ) by {
                if j < old_out.len() {
                    assert(lex_lt(f.relative_path@, old_out[j as int].relative_path@));
                    if lex_lt(old_out[k].relative_path@, f.relative_path@) {
                        lemma_lex_transitive(
                            old_out[k].relative_path@,
                            f.relative_path@,
                            old_out[j as int].relative_path@,
                        );
                        if k > j {
                            assert(!lex_lt(
                                old_out[k].relative_path@,
                                old_out[j as int].relative_path@,
                            ));
                        } else {
                            lemma_lex_asymmetric(
                                old_out[k].relative_path@,
                                old_out[k].relative_path@,
                            );
                        }
                    }
                }
            }
        }
        let ghost fv = f;
        out.insert(j, f);
        proof {
            assert(out@ == old_out.insert(j as int, fv));
            vstd::seq_lib::to_multiset_insert(old_out, j as int, fv);
            vstd::seq_lib::to_multiset_build(rest@, fv);
            assert(out@.to_multiset() == old_out.to_multiset().insert(fv));
            assert(before.to_multiset() == rest@.to_multiset().insert(fv));
            assert(out@.to_multiset().add(rest@.to_multiset()) =~= old_out.to_multiset().add(
                before.to_multiset(),
            ));
            assert forall|a: int, b: int| 0 <= a < b < out@.len() implies !lex_lt(
                out@[b].relative_path@,
                out@[a].relative_path@,
            ) by {
                if a < j && b == j {
                } else if a == j && b > j {
                    assert(out@[b] == old_out[b - 1]);
                } else if a < j && b > j {
                    assert(out@[b] == old_out[b - 1]);
                    assert(out@[a] == old_out[a]);
                } else if b < j {
                    assert(out@[b] == old_out[b]);
                    assert(out@[a] == old_out[a]);
                } else {
                    assert(out@[b] == old_out[b - 1]);
                    assert(out@[a] == old_out[a - 1]);
                }
            }
        }
    }
    assert(rest@.to_multiset().len() == 0);
    assert(out@.to_multiset().add(rest@.to_multiset()) =~= out@.to_multiset());
    proof {
        if forall|i: int| 0 <= i < orig.len() ==> scanned_ok(#[trigger] orig[i]) {
            assert forall|i: int| 0 <= i < out@.len() implies scanned_ok(#[trigger] out@[i]) by {
                let x = out@[i];
                assert(out@.contains(x));
                assert(orig.to_multiset().count(x) > 0);
                assert(orig.contains(x));
                let k = choose|k: int| 0 <= k < orig.len() && orig[k] == x;
                assert(scanned_ok(orig[k]));
            }
        }
    }
    ScanResult { files: out, import_edges: Vec::new() }
}

} // verus!
