//! Tree-sitter based line labeling for the supported languages.
//!
//! Parsing is done by tree-sitter; the nodes it returns are classified here.

use vstd::prelude::*;

use crate::scan::label::LineLabel;
use crate::scan::language::SourceLanguage;
use crate::text::{chars_of, starts_with, starts_with_chars, trim_start, trim_start_chars};

verus! {

#[verifier::external_type_specification]
#[verifier::external_body]
pub struct ExGrammar(tree_sitter::Language);

#[verifier::external_type_specification]
#[verifier::external_body]
pub struct ExSyntaxTree(tree_sitter::Tree);

/// One node of a parsed syntax tree: its kind, its byte range in the source,
/// and its text when that range is valid UTF-8.
#[derive(Debug, Clone, PartialEq, Eq)]
pub struct SyntaxNode {
    pub kind: String,
    pub start_byte: usize,
    pub end_byte: usize,
    pub text: Option<String>,
}

/// A syntax node as plain values: kind, start byte, end byte, text.
pub type NodeView = (Seq<char>, nat, nat, Option<Seq<char>>);

pub open spec fn node_view(n: SyntaxNode) -> NodeView {
    (
        n.kind@,
        n.start_byte as nat,
        n.end_byte as nat,
        match n.text {
            Some(t) => Some(t@),
            None => None,
        },
    )
}

pub open spec fn nodes_view(nodes: Seq<SyntaxNode>) -> Seq<NodeView> {
    nodes.map_values(|n: SyntaxNode| node_view(n))
}

/// What tree-sitter makes of `source` in the grammar of `language`: the nodes
/// of the syntax tree in pre-order, or `None` when the grammar is refused, no
/// tree comes back, or the tree holds a syntax error. It depends on the two
/// arguments alone.
pub uninterp spec fn syntax_nodes(language: SourceLanguage, source: Seq<char>) -> Option<
    Seq<(Seq<char>, nat, nat, Option<Seq<char>>)>,
>;

/// A tree-sitter grammar, with the language it was made for. Only `grammar`
/// makes one.
struct Grammar {
    grammar: tree_sitter::Language,
    language: SourceLanguage,
}

/// A parsed syntax tree, with the language and the text it was parsed from.
/// Only `parse` makes one.
struct ParsedSource {
    tree: tree_sitter::Tree,
    language: SourceLanguage,
    source: Ghost<Seq<char>>,
}

/// The tree-sitter grammar of a language: the `LANGUAGE` constants of the
/// grammar crates, and no grammar for `Unknown` only.
#[verifier::external_body]
fn grammar(language: SourceLanguage) -> (g: Option<Grammar>)
    ensures
        g is None <==> language == SourceLanguage::Unknown,
        g matches Some(x) ==> x.language == language,
{
    let grammar: tree_sitter::Language = match language {
        SourceLanguage::Rust => tree_sitter_rust::LANGUAGE.into(),
        SourceLanguage::TypeScript => tree_sitter_typescript::LANGUAGE_TYPESCRIPT.into(),
        SourceLanguage::Tsx => tree_sitter_typescript::LANGUAGE_TSX.into(),
        SourceLanguage::JavaScript | SourceLanguage::Jsx => tree_sitter_javascript::LANGUAGE.into(),
        SourceLanguage::Python => tree_sitter_python::LANGUAGE.into(),
        SourceLanguage::Go => tree_sitter_go::LANGUAGE.into(),
        SourceLanguage::Unknown => return None,
    };
    Some(Grammar { grammar, language })
}

/// `Parser::set_language` then `Parser::parse`: `None` when the grammar is
/// refused or parsing gives no tree, and then tree-sitter makes nothing of the
/// source. The tree itself is opaque; it is tagged with its language and text.
#[verifier::external_body]
fn parse(grammar: &Grammar, source: &str) -> (r: Option<ParsedSource>)
    ensures
        r matches Some(t) ==> t.language == grammar.language && t.source@ == source@,
        r is None ==> syntax_nodes(grammar.language, source@) is None,
{
    let mut parser = tree_sitter::Parser::new();
    parser.set_language(&grammar.grammar).ok()?;
    let tree = parser.parse(source, None)?;
    Some(ParsedSource { tree, language: grammar.language, source: Ghost(source@) })
}

/// `Node::has_error` on the root of a parsed tree: whether it holds a syntax
/// error, in which case tree-sitter makes nothing of the text.
#[verifier::external_body]
fn tree_has_error(parsed: &ParsedSource) -> (b: bool)
    ensures
        b <==> syntax_nodes(parsed.language, parsed.source@) is None,
{
    parsed.tree.root_node().has_error()
}

/// The nodes of a tree in pre-order (`TreeCursor::goto_descendant` over
/// `Node::descendant_count`), with their text in the source the tree was
/// parsed from: for a tree without errors, what tree-sitter makes of that text.
#[verifier::external_body]
fn tree_nodes(parsed: &ParsedSource, source: &str) -> (r: Vec<SyntaxNode>)
    requires
        parsed.source@ == source@,
    ensures
        syntax_nodes(parsed.language, source@) is Some ==> syntax_nodes(parsed.language, source@)
            == Some(nodes_view(r@)),
{
    let root = parsed.tree.root_node();
    let mut cursor = root.walk();
    (0..root.descendant_count()).map(|i| {
        cursor.goto_descendant(i);
        let n = cursor.node();
        let text = n.utf8_text(source.as_bytes()).ok().map(|t| t.to_string());
        SyntaxNode { kind: n.kind().to_string(), start_byte: n.start_byte(), end_byte: n.end_byte(), text }
    }).collect()
}

/// What tree-sitter makes of `source` for a supported language; `None` for
/// `Unknown`.
pub open spec fn syntax_for(language: SourceLanguage, source: Seq<char>) -> Option<Seq<NodeView>> {
    if language == SourceLanguage::Unknown {
        None
    } else {
        syntax_nodes(language, source)
    }
}

/// The syntax nodes of `source`, or `None` when the language has no parser,
/// parsing fails, or the tree has errors.
pub fn syntax_of(language: SourceLanguage, source: &str) -> (r: Option<Vec<SyntaxNode>>)
    ensures
        match r {
            Some(v) => syntax_for(language, source@) == Some(nodes_view(v@)),
            None => syntax_for(language, source@) is None,
        },
{
    let g = match grammar(language) {
        Some(g) => g,
        None => return None,
    };
    let tree = match parse(&g, source) {
        Some(t) => t,
        None => return None,
    };
    if tree_has_error(&tree) {
        return None;
    }
    Some(tree_nodes(&tree, source))
}

#[derive(Debug, Clone, Copy, PartialEq, Eq, Structural)]
pub enum MarkKind {
    Import,
    Doc,
    Comment,
}

/// A byte range of the source covered by an import or a comment.
#[derive(Debug, Clone, Copy, PartialEq, Eq, Structural)]
pub struct Mark {
    pub start_byte: usize,
    pub end_byte: usize,
    pub kind: MarkKind,
}

pub open spec fn is_import_kind(kind: Seq<char>) -> bool {
    kind == "use_declaration"@ || kind == "extern_crate_declaration"@ || kind
        == "import_statement"@ || kind == "import_declaration"@ || kind
        == "import_from_statement"@ || kind == "import_clause"@ || kind == "import_specifier"@
}

/// A comment whose text starts (after leading whitespace) like a doc comment.
pub open spec fn is_doc_text(text: Option<Seq<char>>) -> bool {
    match text {
        Some(t) => {
            let s = trim_start(t);
            starts_with(s, "///"@) || starts_with(s, "//!"@) || starts_with(s, "/**"@)
                || starts_with(s, "##"@)
        },
        None => false,
    }
}

/// The mark a node puts on the source, if any.
pub open spec fn node_mark(n: NodeView) -> Option<Mark> {
    if n.0 == "comment"@ {
        Some(
            Mark {
                start_byte: n.1 as usize,
                end_byte: n.2 as usize,
                kind: if is_doc_text(n.3) {
                    MarkKind::Doc
                } else {
                    MarkKind::Comment
                },
            },
        )
    } else if is_import_kind(n.0) {
        Some(Mark { start_byte: n.1 as usize, end_byte: n.2 as usize, kind: MarkKind::Import })
    } else {
        None
    }
}

pub open spec fn marks_of(nodes: Seq<NodeView>) -> Seq<Mark>
    decreases nodes.len(),
{
    if nodes.len() == 0 {
        Seq::empty()
    } else {
        let prev = marks_of(nodes.drop_last());
        match node_mark(nodes.last()) {
            Some(m) => prev.push(m),
            None => prev,
        }
    }
}

fn lit(s: &str, l: &str) -> (b: bool)
    ensures
        b == (s@ == l@),
{
    crate::text::str_eq(s, l)
}

fn starts(s: &[char], l: &str) -> (b: bool)
    ensures
        b == starts_with(s@, l@),
{
    let p = chars_of(l);
    starts_with_chars(s, p.as_slice())
}

fn doc_text(text: &Option<String>) -> (b: bool)
    ensures
        b == is_doc_text(
            match *text {
                Some(t) => Some(t@),
                None => None,
            },
        ),
{
    match text {
        Some(t) => {
            let c = chars_of(t.as_str());
            let s = trim_start_chars(c.as_slice());
            starts(s.as_slice(), "///") || starts(s.as_slice(), "//!") || starts(
                s.as_slice(),
                "/**",
            ) || starts(s.as_slice(), "##")
        },
        None => false,
    }
}

/// The marks the nodes put on the source, in node order.
pub fn collect_marks(nodes: &[SyntaxNode]) -> (marks: Vec<Mark>)
    ensures
        marks@ == marks_of(nodes_view(nodes@)),
{
    let mut marks: Vec<Mark> = Vec::new();
    let mut i: usize = 0;
    while i < nodes.len()
        invariant
            i <= nodes@.len(),
            marks@ == marks_of(nodes_view(nodes@.take(i as int))),
        decreases nodes.len() - i,
    {
        let n = &nodes[i];
        assert(nodes_view(nodes@.take(i + 1)).drop_last() =~= nodes_view(nodes@.take(i as int)));
        assert(nodes_view(nodes@.take(i + 1)).last() == node_view(nodes@[i as int]));
        let k = n.kind.as_str();
        if lit(k, "comment") {
            let kind = if doc_text(&n.text) {
                MarkKind::Doc
            } else {
                MarkKind::Comment
            };
            marks.push(Mark { start_byte: n.start_byte, end_byte: n.end_byte, kind });
        } else if lit(k, "use_declaration") || lit(k, "extern_crate_declaration") || lit(
            k,
            "import_statement",
        ) || lit(k, "import_declaration") || lit(k, "import_from_statement") || lit(
            k,
            "import_clause",
        ) || lit(k, "import_specifier") {
            marks.push(Mark { start_byte: n.start_byte, end_byte: n.end_byte, kind: MarkKind::Import });
        }
        i += 1;
    }
    assert(nodes@.take(nodes@.len() as int) =~= nodes@);
    marks
}

/// Byte offsets at which lines start: 0 and one past each newline.
pub open spec fn line_starts(bytes: Seq<u8>) -> Seq<int>
    decreases bytes.len(),
{
    if bytes.len() == 0 {
        seq![0]
    } else {
        let prev = line_starts(bytes.drop_last());
        if bytes.last() == 10u8 {
            prev.push(bytes.len() as int)
        } else {
            prev
        }
    }
}

pub open spec fn ascii_ws(b: u8) -> bool {
    b == 32 || b == 9 || b == 10 || b == 12 || b == 13
}

pub open spec fn overlaps(m: Mark, start: int, end: int) -> bool {
    m.end_byte > start && m.start_byte < end
}

/// Byte `b` of the line `[start, end)` is inside a mark on that line.
pub open spec fn covered(marks: Seq<Mark>, start: int, end: int, b: int) -> bool {
    exists|k: int|
        0 <= k < marks.len() && overlaps(marks[k], start, end) && marks[k].start_byte <= b
            < #[trigger] marks[k].end_byte
}

pub open spec fn has_code(bytes: Seq<u8>, marks: Seq<Mark>, start: int, end: int) -> bool {
    exists|b: int| start <= b < end && !ascii_ws(#[trigger] bytes[b]) && !covered(marks, start, end, b)
}

pub open spec fn has_kind(marks: Seq<Mark>, start: int, end: int, kind: MarkKind) -> bool {
    exists|k: int| 0 <= k < marks.len() && overlaps(#[trigger] marks[k], start, end) && marks[k].kind == kind
}

/// The label of the line `[start, end)`.
pub open spec fn line_label(bytes: Seq<u8>, marks: Seq<Mark>, start: int, end: int) -> LineLabel {
    if has_code(bytes, marks, start, end) {
        LineLabel::Code
    } else if has_kind(marks, start, end, MarkKind::Import) {
        LineLabel::Import
    } else if has_kind(marks, start, end, MarkKind::Doc) {
        LineLabel::Doc
    } else if has_kind(marks, start, end, MarkKind::Comment) {
        LineLabel::Comment
    } else {
        LineLabel::Code
    }
}

/// End of line `k`: just before the next line's start, or the end of the source.
pub open spec fn line_end(bytes: Seq<u8>, k: int) -> int {
    let starts = line_starts(bytes);
    if k + 1 < starts.len() {
        starts[k + 1] - 1
    } else {
        bytes.len() as int
    }
}

/// The label of every line of the source bytes.
pub open spec fn classify(bytes: Seq<u8>, marks: Seq<Mark>) -> Seq<LineLabel> {
    Seq::new(
        line_starts(bytes).len(),
        |k: int| line_label(bytes, marks, line_starts(bytes)[k], line_end(bytes, k)),
    )
}

proof fn lemma_line_starts(bytes: Seq<u8>)
    ensures
        line_starts(bytes).len() >= 1,
        line_starts(bytes)[0] == 0,
        line_starts(bytes).len() <= bytes.len() + 1,
        forall|k: int|
            0 <= k < line_starts(bytes).len() ==> 0 <= #[trigger] line_starts(bytes)[k]
                <= bytes.len(),
        forall|k: int|
            0 < k < line_starts(bytes).len() ==> line_starts(bytes)[k - 1] < #[trigger] line_starts(
                bytes,
            )[k],
    decreases bytes.len(),
{
    if bytes.len() > 0 {
        lemma_line_starts(bytes.drop_last());
    }
}

fn line_starts_of(bytes: &[u8]) -> (starts: Vec<usize>)
    ensures
        starts@.len() == line_starts(bytes@).len(),
        forall|k: int| 0 <= k < starts@.len() ==> starts@[k] as int == #[trigger] line_starts(bytes@)[k],
{
    let mut starts: Vec<usize> = Vec::new();
    starts.push(0);
    let mut i: usize = 0;
    while i < bytes.len()
        invariant
            i <= bytes@.len(),
            starts@.len() == line_starts(bytes@.take(i as int)).len(),
            forall|k: int|
                0 <= k < starts@.len() ==> starts@[k] as int == #[trigger] line_starts(
                    bytes@.take(i as int),
                )[k],
        decreases bytes.len() - i,
    {
        assert(bytes@.take(i + 1).drop_last() =~= bytes@.take(i as int));
        if bytes[i] == 10u8 {
            starts.push(i + 1);
        }
        i += 1;
    }
    assert(bytes@.take(bytes@.len() as int) =~= bytes@);
    starts
}

fn is_ascii_ws(b: u8) -> (r: bool)
    ensures
        r == ascii_ws(b),
{
    b == 32 || b == 9 || b == 10 || b == 12 || b == 13
}

fn byte_covered(marks: &Vec<Mark>, start: usize, end: usize, b: usize) -> (r: bool)
    ensures
        r == covered(marks@, start as int, end as int, b as int),
{
    let mut k: usize = 0;
    while k < marks.len()
        invariant
            k <= marks@.len(),
            forall|q: int|
                0 <= q < k ==> !(overlaps(marks@[q], start as int, end as int)
                    && marks@[q].start_byte <= b < #[trigger] marks@[q].end_byte),
        decreases marks.len() - k,
    {
        let m = marks[k];
        if m.end_byte > start && m.start_byte < end && m.start_byte <= b && b < m.end_byte {
            return true;
        }
        k += 1;
    }
    false
}

fn any_kind(marks: &Vec<Mark>, start: usize, end: usize, kind: MarkKind) -> (r: bool)
    ensures
        r == has_kind(marks@, start as int, end as int, kind),
{
    let mut k: usize = 0;
    while k < marks.len()
        invariant
            k <= marks@.len(),
            forall|q: int|
                0 <= q < k ==> !(overlaps(#[trigger] marks@[q], start as int, end as int)
                    && marks@[q].kind == kind),
        decreases marks.len() - k,
    {
        let m = marks[k];
        if m.end_byte > start && m.start_byte < end && m.kind == kind {
            return true;
        }
        k += 1;
    }
    false
}

fn label_of_line(bytes: &[u8], marks: &Vec<Mark>, start: usize, end: usize) -> (l: LineLabel)
    requires
        start <= end <= bytes@.len(),
    ensures
        l == line_label(bytes@, marks@, start as int, end as int),
{
    let mut b = start;
    while b < end
        invariant
            start <= b <= end <= bytes@.len(),
            forall|q: int|
                start <= q < b ==> ascii_ws(#[trigger] bytes@[q]) || covered(
                    marks@,
                    start as int,
                    end as int,
                    q,
                ),
        decreases end - b,
    {
        if !is_ascii_ws(bytes[b]) && !byte_covered(marks, start, end, b) {
            return LineLabel::Code;
        }
        b += 1;
    }
    if any_kind(marks, start, end, MarkKind::Import) {
        LineLabel::Import
    } else if any_kind(marks, start, end, MarkKind::Doc) {
        LineLabel::Doc
    } else if any_kind(marks, start, end, MarkKind::Comment) {
        LineLabel::Comment
    } else {
        LineLabel::Code
    }
}

/// The computed line starts agree with `line_starts`, which are increasing
/// offsets within the source.
spec fn starts_ok(starts: Seq<usize>, bs: Seq<u8>) -> bool {
    &&& starts.len() == line_starts(bs).len()
    &&& bs.len() <= usize::MAX
    &&& forall|q: int| 0 <= q < starts.len() ==> starts[q] as int == #[trigger] line_starts(bs)[q]
    &&& forall|q: int| 0 <= q < line_starts(bs).len() ==> 0 <= #[trigger] line_starts(bs)[q] <= bs.len()
    &&& forall|q: int| 0 < q < line_starts(bs).len() ==> line_starts(bs)[q - 1] < #[trigger] line_starts(bs)[q]
}

fn line_range(starts: &Vec<usize>, k: usize, len: usize, Ghost(bs): Ghost<Seq<u8>>) -> (r: (usize, usize))
    requires
        starts_ok(starts@, bs),
        k < starts.len(),
        len == bs.len(),
    ensures
        r.0 as int == line_starts(bs)[k as int],
        r.1 as int == line_end(bs, k as int),
        r.0 <= r.1 <= len,
{
    let start = starts[k];
    assert(start as int == line_starts(bs)[k as int]);
    assert(0 <= line_starts(bs)[k as int] <= bs.len());
    if k + 1 < starts.len() {
        assert(starts@[k + 1] as int == line_starts(bs)[k + 1]);
        assert(line_starts(bs)[k as int] < line_starts(bs)[k + 1]);
        (start, starts[k + 1] - 1)
    } else {
        (start, len)
    }
}

/// Label every line of the source from the marks on it.
pub fn classify_lines(source: &str, marks: &Vec<Mark>) -> (labels: Vec<LineLabel>)
    ensures
        labels@ == classify(vstd::utf8::encode_utf8(source@), marks@),
{
    let bytes = source.as_bytes();
    let ghost bs = bytes@;
    assert(bs == vstd::utf8::encode_utf8(source@));
    let starts = line_starts_of(bytes);
    proof {
        lemma_line_starts(bs);
    }
    assert(bytes@.len() == bytes.len());
    assert(starts_ok(starts@, bs));
    let mut labels: Vec<LineLabel> = Vec::new();
    let mut k: usize = 0;
    while k < starts.len()
        invariant
            k <= starts@.len(),
            starts_ok(starts@, bs),
            bytes@ == bs,
            labels@.len() == k,
            forall|q: int| 0 <= q < k ==> #[trigger] labels@[q] == classify(bs, marks@)[q],
        decreases starts.len() - k,
    {
        let (start, end) = line_range(&starts, k, bytes.len(), Ghost(bs));
        labels.push(label_of_line(bytes, marks, start, end));
        k += 1;
    }
    assert(labels@ =~= classify(bs, marks@));
    labels
}

} // verus!
