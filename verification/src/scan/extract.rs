//! Normalize source text into a single file-body typing unit.

use sha2::{Digest, Sha256};
use vstd::prelude::*;

use crate::domain::content::Chunk;
use crate::scan::label::{label_lines, labels_spec, LineLabel};
use crate::scan::label::treesitter::syntax_for;
use crate::scan::language::language_of_path;
use crate::text::{
    chars_of, is_ascii_seq, lemma_split_char_nonempty, split_char, split_on, string_of, trim,
    trim_chars, trim_end, trim_end_chars,
};

verus! {

/// Extraction / normalization options.
#[derive(Debug, Clone, Copy, PartialEq, Eq, Structural)]
pub struct ExtractOptions {
    pub tab_width: usize,
    pub include_imports: bool,
    pub include_doc_comments: bool,
    pub include_comments: bool,
}

impl Default for ExtractOptions {
    fn default() -> (o: Self)
        ensures
            o == (ExtractOptions {
                tab_width: 4,
                include_imports: false,
                include_doc_comments: true,
                include_comments: false,
            }),
    {
        ExtractOptions {
            tab_width: 4,
            include_imports: false,
            include_doc_comments: true,
            include_comments: false,
        }
    }
}

/// `n` spaces.
pub open spec fn spaces(n: nat) -> Seq<char> {
    Seq::new(n, |i: int| ' ')
}

/// `line` with tabs expanded to the next multiple of `w` columns, starting at
/// column `m` (taken modulo `w`).
pub open spec fn expand_from(line: Seq<char>, w: nat, m: nat) -> Seq<char>
    decreases line.len(),
{
    if line.len() == 0 {
        Seq::empty()
    } else if line[0] == '\t' {
        spaces((w - m) as nat) + expand_from(line.drop_first(), w, 0)
    } else {
        seq![line[0]] + expand_from(line.drop_first(), w, if w == 0 {
            0
        } else {
            ((m + 1) % w) as nat
        })
    }
}

pub open spec fn effective_width(tab_width: usize) -> nat {
    if tab_width >= 1 {
        tab_width as nat
    } else {
        1
    }
}

/// One kept line: tabs expanded, trailing whitespace removed.
pub open spec fn clean_line(line: Seq<char>, w: nat) -> Seq<char> {
    trim_end(expand_from(line, w, 0))
}

/// Lines joined with `\n`.
pub open spec fn join_lines(lines: Seq<Seq<char>>) -> Seq<char>
    decreases lines.len(),
{
    if lines.len() == 0 {
        Seq::empty()
    } else if lines.len() == 1 {
        lines[0]
    } else {
        join_lines(lines.drop_last()) + seq!['\n'] + lines.last()
    }
}

/// The ASCII lines of `lines`, cleaned.
pub open spec fn normalized_lines(lines: Seq<Seq<char>>, w: nat) -> Seq<Seq<char>>
    decreases lines.len(),
{
    if lines.len() == 0 {
        Seq::empty()
    } else {
        let prev = normalized_lines(lines.drop_last(), w);
        if is_ascii_seq(lines.last()) {
            prev.push(clean_line(lines.last(), w))
        } else {
            prev
        }
    }
}

/// Normalized text: non-ASCII lines dropped, tabs expanded, trailing
/// whitespace stripped.
pub open spec fn normalize_spec(text: Seq<char>, tab_width: usize) -> Seq<char> {
    join_lines(normalized_lines(split_char(text, '\n'), effective_width(tab_width)))
}

fn is_ascii_line(line: &[char]) -> (b: bool)
    ensures
        b == is_ascii_seq(line@),
{
    let mut i: usize = 0;
    while i < line.len()
        invariant
            i <= line@.len(),
            forall|j: int| 0 <= j < i ==> (line@[j] as u32) < 128,
        decreases line.len() - i,
    {
        if (line[i] as u32) >= 128 {
            return false;
        }
        i += 1;
    }
    true
}

fn expand_tabs(line: &[char], w: usize) -> (out: Vec<char>)
    requires
        w >= 1,
    ensures
        out@ == expand_from(line@, w as nat, 0),
{
    let mut out: Vec<char> = Vec::new();
    let mut m: usize = 0;
    let mut i: usize = 0;
    assert(line@.skip(0) =~= line@);
    while i < line.len()
        invariant
            w >= 1,
            i <= line@.len(),
            m < w,
            out@ + expand_from(line@.skip(i as int), w as nat, m as nat) == expand_from(
                line@,
                w as nat,
                0,
            ),
        decreases line.len() - i,
    {
        let ghost rest = line@.skip(i as int);
        assert(rest.drop_first() =~= line@.skip(i + 1));
        let c = line[i];
        if c == '\t' {
            let n = w - m;
            let ghost before = out@;
            let mut k: usize = 0;
            while k < n
                invariant
                    k <= n,
                    out@ == before + spaces(k as nat),
                decreases n - k,
            {
                out.push(' ');
                assert(spaces((k + 1) as nat) =~= spaces(k as nat).push(' '));
                k += 1;
            }
            assert(before + spaces(n as nat) + expand_from(line@.skip(i + 1), w as nat, 0) =~= before
                + (spaces(n as nat) + expand_from(line@.skip(i + 1), w as nat, 0)));
            m = 0;
        } else {
            let ghost before = out@;
            out.push(c);
            let next_m = if m + 1 == w {
                0
            } else {
                m + 1
            };
            assert(next_m as nat == ((m + 1) % (w as int)) as nat) by (nonlinear_arith)
                requires
                    next_m == if m + 1 == w {
                        0
                    } else {
                        m + 1
                    },
                    m < w,
                    w >= 1,
            ;
            assert(before.push(c) + expand_from(line@.skip(i + 1), w as nat, next_m as nat) =~= before
                + (seq![c] + expand_from(line@.skip(i + 1), w as nat, next_m as nat)));
            m = next_m;
        }
        i += 1;
    }
    assert(line@.skip(line@.len() as int) =~= Seq::<char>::empty());
    assert(out@ + Seq::<char>::empty() =~= out@);
    out
}

fn append_line(out: &mut Vec<char>, first: bool, line: &[char])
    ensures
        final(out)@ == if first {
            old(out)@ + line@
        } else {
            old(out)@ + seq!['\n'] + line@
        },
{
    if !first {
        out.push('\n');
    }
    let ghost before = out@;
    let mut i: usize = 0;
    while i < line.len()
        invariant
            i <= line@.len(),
            out@ == before + line@.take(i as int),
        decreases line.len() - i,
    {
        out.push(line[i]);
        assert(line@.take(i + 1) =~= line@.take(i as int).push(line@[i as int]));
        i += 1;
    }
    assert(line@.take(line@.len() as int) =~= line@);
}

/// Normalize raw file text for typing.
///
/// - Tabs → spaces (`tab_width`)
/// - Strip trailing whitespace per line
/// - Drop lines containing non-ASCII characters
pub fn normalize(text: &str, tab_width: usize) -> (n: String)
    ensures
        n@ == normalize_spec(text@, tab_width),
{
    let width: usize = if tab_width >= 1 {
        tab_width
    } else {
        1
    };
    let chars = chars_of(text);
    let lines = split_on(chars.as_slice(), '\n');
    let ghost sp = split_char(text@, '\n');
    let mut out: Vec<char> = Vec::new();
    let mut count: usize = 0;
    let mut i: usize = 0;
    while i < lines.len()
        invariant
            width as nat == effective_width(tab_width),
            i <= lines@.len(),
            lines@.len() == sp.len(),
            forall|q: int| 0 <= q < lines@.len() ==> #[trigger] lines@[q]@ == sp[q],
            count == normalized_lines(sp.take(i as int), width as nat).len(),
            count <= i,
            out@ == join_lines(normalized_lines(sp.take(i as int), width as nat)),
        decreases lines.len() - i,
    {
        assert(sp.take(i + 1).drop_last() =~= sp.take(i as int));
        assert(sp.take(i + 1).last() == lines@[i as int]@);
        let line = lines[i].as_slice();
        if is_ascii_line(line) {
            let expanded = expand_tabs(line, width);
            let trimmed = trim_end_chars(expanded.as_slice());
            let ghost prev = normalized_lines(sp.take(i as int), width as nat);
            append_line(&mut out, count == 0, trimmed.as_slice());
            assert(prev.push(trimmed@).drop_last() =~= prev);
            count += 1;
        }
        i += 1;
    }
    assert(sp.take(sp.len() as int) =~= sp);
    string_of(out.as_slice())
}

/// The SHA-256 digest of the UTF-8 bytes of a text, as lowercase hex.
pub uninterp spec fn sha256_hex(text: Seq<char>) -> Seq<char>;

/// Hash normalized body (SHA-256 hex).
///
/// `Sha256::update` over the bytes, then `finalize` printed with `{:x}`:
/// the contract names the digest and says it is 64 lowercase hex digits.
#[verifier::external_body]
pub fn hash_normalized(normalized: &str) -> (h: String)
    ensures
        h@ == sha256_hex(normalized@),
        h@.len() == 64,
        forall|i: int|
            0 <= i < h@.len() ==> ('0' <= #[trigger] h@[i] <= '9') || ('a' <= h@[i] <= 'f'),
{
    let mut hasher = Sha256::new();
    hasher.update(normalized.as_bytes());
    format!("{:x}", hasher.finalize())
}

pub open spec fn keeps_label(label: LineLabel, opts: ExtractOptions) -> bool {
    match label {
        LineLabel::Code => true,
        LineLabel::Import => opts.include_imports,
        LineLabel::Doc => opts.include_doc_comments,
        LineLabel::Comment => opts.include_comments,
    }
}

fn should_include(label: LineLabel, opts: ExtractOptions) -> (b: bool)
    ensures
        b == keeps_label(label, opts),
{
    match label {
        LineLabel::Code => true,
        LineLabel::Import => opts.include_imports,
        LineLabel::Doc => opts.include_doc_comments,
        LineLabel::Comment => opts.include_comments,
    }
}

/// The kept lines with their 1-based original line numbers.
pub open spec fn line_map(
    lines: Seq<Seq<char>>,
    labels: Seq<LineLabel>,
    opts: ExtractOptions,
) -> Seq<(u32, Seq<char>)>
    decreases lines.len(),
{
    if lines.len() == 0 {
        Seq::empty()
    } else {
        let idx = lines.len() - 1;
        let prev = line_map(lines.drop_last(), labels, opts);
        let label = if idx < labels.len() {
            labels[idx]
        } else {
            LineLabel::Code
        };
        if keeps_label(label, opts) && is_ascii_seq(lines.last()) {
            prev.push(
                (((idx + 1) as u32), clean_line(lines.last(), effective_width(opts.tab_width))),
            )
        } else {
            prev
        }
    }
}

/// Whether a printable (ASCII) line is kept depends on its label and on the
/// option for that label alone: code always, imports exactly when
/// `include_imports` holds, doc comments exactly when `include_doc_comments`
/// holds, other comments exactly when `include_comments` holds.
pub proof fn law_kept_lines_follow_their_option(line: Seq<char>, label: LineLabel, opts: ExtractOptions)
    requires
        is_ascii_seq(line),
    ensures
        ({
            let kept = line_map(seq![line], seq![label], opts).len() == 1;
            &&& label == LineLabel::Code ==> kept
            &&& label == LineLabel::Import ==> (kept <==> opts.include_imports)
            &&& label == LineLabel::Doc ==> (kept <==> opts.include_doc_comments)
            &&& label == LineLabel::Comment ==> (kept <==> opts.include_comments)
        }),
{
    let lines = seq![line];
    assert(lines.drop_last() =~= Seq::<Seq<char>>::empty());
    assert(lines.last() == line);
    assert(seq![label][0] == label);
    assert(line_map(lines.drop_last(), seq![label], opts) =~= Seq::<(u32, Seq<char>)>::empty());
}

/// The typing units of a file given the label of each of its lines.
pub open spec fn extract_spec(
    relative_path: Seq<char>,
    original: Seq<char>,
    opts: ExtractOptions,
    labels: Seq<LineLabel>,
) -> Option<(u32, u32, Seq<char>)> {
    let map = line_map(split_char(original, '\n'), labels, opts);
    let body = join_lines(map.map_values(|e: (u32, Seq<char>)| e.1));
    if map.len() == 0 || trim(body).len() == 0 {
        None
    } else {
        Some((map[0].0, map.last().0, body))
    }
}

/// Extract the single typing unit of a file given the label of each line.
///
/// Display line ranges use original 1-based line numbers of kept lines.
pub fn extract_with_labels(
    relative_path: &str,
    original: &str,
    opts: ExtractOptions,
    labels: &[LineLabel],
) -> (chunks: Vec<Chunk>)
    ensures
        match extract_spec(relative_path@, original@, opts, labels@) {
            None => chunks@.len() == 0,
            Some((start, end, body)) => {
                &&& chunks@.len() == 1
                &&& chunks@[0].relative_path@ == relative_path@
                &&& chunks@[0].start_line == start
                &&& chunks@[0].end_line == end
                &&& chunks@[0].normalized@ == body
                &&& chunks@[0].hash@ == sha256_hex(body)
            },
        },
{
    let width: usize = if opts.tab_width >= 1 {
        opts.tab_width
    } else {
        1
    };
    let chars = chars_of(original);
    let lines = split_on(chars.as_slice(), '\n');
    let ghost sp = split_char(original@, '\n');
    let mut body: Vec<char> = Vec::new();
    let mut count: usize = 0;
    let mut first_line: u32 = 0;
    let mut last_line: u32 = 0;
    let mut i: usize = 0;
    while i < lines.len()
        invariant
            width as nat == effective_width(opts.tab_width),
            i <= lines@.len(),
            lines@.len() == sp.len(),
            forall|q: int| 0 <= q < lines@.len() ==> #[trigger] lines@[q]@ == sp[q],
            count == line_map(sp.take(i as int), labels@, opts).len(),
            count <= i,
            count > 0 ==> first_line == line_map(sp.take(i as int), labels@, opts)[0].0
                && last_line == line_map(sp.take(i as int), labels@, opts).last().0,
            body@ == join_lines(
                line_map(sp.take(i as int), labels@, opts).map_values(|e: (u32, Seq<char>)| e.1),
            ),
        decreases lines.len() - i,
    {
        let ghost prev = line_map(sp.take(i as int), labels@, opts);
        assert(sp.take(i + 1).drop_last() =~= sp.take(i as int));
        assert(sp.take(i + 1).last() == lines@[i as int]@);
        let label = if i < labels.len() {
            labels[i]
        } else {
            LineLabel::Code
        };
        let line = lines[i].as_slice();
        if should_include(label, opts) && is_ascii_line(line) {
            let expanded = expand_tabs(line, width);
            let trimmed = trim_end_chars(expanded.as_slice());
            let line_no = (i + 1) as u32;
            let ghost entry = (line_no, trimmed@);
            append_line(&mut body, count == 0, trimmed.as_slice());
            let ghost next = prev.push(entry);
            assert(next.map_values(|e: (u32, Seq<char>)| e.1).drop_last() =~= prev.map_values(
                |e: (u32, Seq<char>)| e.1,
            ));
            if count == 0 {
                first_line = line_no;
            }
            last_line = line_no;
            count += 1;
        }
        i += 1;
    }
    assert(sp.take(sp.len() as int) =~= sp);
    if count == 0 {
        return Vec::new();
    }
    let t = trim_chars(body.as_slice());
    if t.len() == 0 {
        return Vec::new();
    }
    let normalized = string_of(body.as_slice());
    let hash = hash_normalized(normalized.as_str());
    let mut chunks: Vec<Chunk> = Vec::new();
    chunks.push(
        Chunk {
            relative_path: relative_path.to_owned(),
            start_line: first_line,
            end_line: last_line,
            normalized,
            hash,
        },
    );
    chunks
}

/// What extracting a file gives: at most one chunk, holding the
/// normalized body under the line labels of the file's syntax tree (none for
/// unsupported languages), hashed.
pub open spec fn chunks_ok(relative_path: Seq<char>, original: Seq<char>, opts: ExtractOptions, chunks: Seq<Chunk>) -> bool {
    match extract_spec(
        relative_path,
        original,
        opts,
        labels_spec(original, syntax_for(language_of_path(relative_path), original)),
    ) {
        None => chunks.len() == 0,
        Some((start, end, body)) => {
            &&& chunks.len() == 1
            &&& chunks[0].relative_path@ == relative_path
            &&& chunks[0].start_line == start
            &&& chunks[0].end_line == end
            &&& chunks[0].normalized@ == body
            &&& chunks[0].hash@ == sha256_hex(body)
        },
    }
}

/// Extract a single typing unit from source file text.
///
/// Display line ranges use original 1-based line numbers of kept lines.
/// Returns an empty vec when nothing remains after normalization.
pub fn extract_chunks(relative_path: &str, original: &str, opts: ExtractOptions) -> (chunks: Vec<
    Chunk,
>)
    ensures
        chunks_ok(relative_path@, original@, opts, chunks@),
{
    let labels = label_lines(relative_path, original);
    extract_with_labels(relative_path, original, opts, labels.as_slice())
}

} // verus!
