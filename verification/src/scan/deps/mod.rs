//! Repository-local import extraction and path resolution.

pub mod js_ts;
pub mod paths;
pub mod python;
pub mod rust;

use vstd::prelude::*;

use crate::domain::content::{FileStatus, ImportEdge, ScannedFile};
use crate::domain::dependency::views;
use crate::scan::language::{language_of_path, SourceLanguage};
use crate::text::{
    chars_of, eq_chars, lines_of, starts_with, starts_with_chars, string_of, strip_prefix,
    strip_prefix_chars, subrange, text_lines, trim_start, trim_start_chars,
};

verus! {

/// One import statement found in a source file.
#[derive(Debug, Clone, PartialEq, Eq)]
pub struct ImportSpec {
    /// Module path used for resolution.
    pub raw: String,
    /// 1-based source line of the import.
    pub line: usize,
    /// Bound names introduced by the import.
    pub bindings: Vec<String>,
    /// Full import statement for UI.
    pub display: String,
}

/// An import as plain texts.
pub ghost struct ImportView {
    pub raw: Seq<char>,
    pub line: nat,
    pub bindings: Seq<Seq<char>>,
    pub display: Seq<char>,
}

pub open spec fn import_view(s: ImportSpec) -> ImportView {
    ImportView { raw: s.raw@, line: s.line as nat, bindings: views(s.bindings@), display: s.display@ }
}

pub open spec fn import_views(s: Seq<ImportSpec>) -> Seq<ImportView> {
    s.map_values(|x: ImportSpec| import_view(x))
}

/// The imports of each line, in line order (`f` gets the line and its 0-based index).
pub open spec fn over_lines(
    lines: Seq<Seq<char>>,
    f: spec_fn(Seq<char>, nat) -> Seq<ImportView>,
) -> Seq<ImportView>
    decreases lines.len(),
{
    if lines.len() == 0 {
        Seq::empty()
    } else {
        over_lines(lines.drop_last(), f) + f(lines.last(), (lines.len() - 1) as nat)
    }
}

/// Append `more` to `out`.
pub fn append_specs(out: &mut Vec<ImportSpec>, more: Vec<ImportSpec>)
    ensures
        import_views(final(out)@) == import_views(old(out)@) + import_views(more@),
{
    let mut more = more;
    let ghost m = more@;
    out.append(&mut more);
    assert(import_views(out@) =~= import_views(old(out)@) + import_views(m));
}


/// Whether a line declares an import or module rather than using names.
pub open spec fn is_import_line_spec(line: Seq<char>) -> bool {
    let t = trim_start(line);
    let t2 = match strip_prefix(t, "pub "@) {
        Some(r) => r,
        None => t,
    };
    starts_with(t2, "use "@) || starts_with(t2, "mod "@) || starts_with(t2, "import "@)
        || starts_with(t2, "import\t"@) || starts_with(t2, "from "@)
}

/// The texts of character vectors.
pub open spec fn texts(v: Seq<Vec<char>>) -> Seq<Seq<char>> {
    v.map_values(|w: Vec<char>| w@)
}

pub open spec fn is_word_char(c: char) -> bool {
    ('a' <= c && c <= 'z') || ('A' <= c && c <= 'Z') || ('0' <= c && c <= '9') || c == '_'
}

pub open spec fn starts_ident(c: char) -> bool {
    ('a' <= c && c <= 'z') || ('A' <= c && c <= 'Z') || c == '_'
}

/// `out` with the run `cur` appended when it is an identifier.
pub open spec fn flush_run(out: Seq<Seq<char>>, cur: Seq<char>) -> Seq<Seq<char>> {
    if cur.len() > 0 && starts_ident(cur[0]) {
        out.push(cur)
    } else {
        out
    }
}

/// The identifiers closed so far and the open run of word characters, after
/// reading `s` from the left.
pub open spec fn ident_scan(s: Seq<char>) -> (Seq<Seq<char>>, Seq<char>)
    decreases s.len(),
{
    if s.len() == 0 {
        (Seq::empty(), Seq::empty())
    } else {
        let (o, c) = ident_scan(s.drop_last());
        if is_word_char(s.last()) {
            (o, c.push(s.last()))
        } else {
            (flush_run(o, c), Seq::empty())
        }
    }
}

/// The maximal runs of ASCII word characters in `s` that start with a letter
/// or `_`, left to right.
pub open spec fn identifiers_spec(s: Seq<char>) -> Seq<Seq<char>> {
    flush_run(ident_scan(s).0, ident_scan(s).1)
}

/// The names a line uses (none on import lines).
pub open spec fn line_words(line: Seq<char>) -> Seq<Seq<char>> {
    if is_import_line_spec(line) {
        Seq::empty()
    } else {
        identifiers_spec(line)
    }
}

/// The 1-based line of the first use of `name` outside import lines.
pub open spec fn first_use_at(lines: Seq<Seq<char>>, name: Seq<char>) -> Option<nat>
    decreases lines.len(),
{
    if lines.len() == 0 {
        None
    } else if line_words(lines[0]).contains(name) {
        Some(1)
    } else {
        match first_use_at(lines.drop_first(), name) {
            Some(k) => Some(k + 1),
            None => None,
        }
    }
}

pub open spec fn min_opt_spec(a: Option<nat>, b: Option<nat>) -> Option<nat> {
    match (a, b) {
        (Some(x), Some(y)) => Some(if x <= y { x } else { y }),
        (Some(x), None) => Some(x),
        (None, Some(y)) => Some(y),
        (None, None) => None,
    }
}

/// The earliest first use of any of `names`.
pub open spec fn min_use(lines: Seq<Seq<char>>, names: Seq<Seq<char>>) -> Option<nat>
    decreases names.len(),
{
    if names.len() == 0 {
        None
    } else {
        min_opt_spec(min_use(lines, names.drop_last()), first_use_at(lines, names.last()))
    }
}

pub open spec fn opt_nat(o: Option<usize>) -> Option<nat> {
    match o {
        Some(x) => Some(x as nat),
        None => None,
    }
}

/// The smaller of two optional line numbers.
pub fn min_opt(a: Option<usize>, b: Option<usize>) -> (r: Option<usize>)
    ensures
        opt_nat(r) == min_opt_spec(opt_nat(a), opt_nat(b)),
{
    match (a, b) {
        (Some(x), Some(y)) => Some(if x <= y { x } else { y }),
        (Some(x), None) => Some(x),
        (None, Some(y)) => Some(y),
        (None, None) => None,
    }
}

/// Whether a line declares an import or module.
pub fn is_import_line(line: &[char]) -> (b: bool)
    ensures
        b == is_import_line_spec(line@),
{
    let t = trim_start_chars(line);
    let t2 = match strip_prefix_chars(t.as_slice(), "pub ") {
        Some(r) => r,
        None => t,
    };
    let a = chars_of("use ");
    let b = chars_of("mod ");
    let c = chars_of("import ");
    let d = chars_of("import\t");
    let e = chars_of("from ");
    starts_with_chars(t2.as_slice(), a.as_slice()) || starts_with_chars(t2.as_slice(), b.as_slice())
        || starts_with_chars(t2.as_slice(), c.as_slice()) || starts_with_chars(
        t2.as_slice(),
        d.as_slice(),
    ) || starts_with_chars(t2.as_slice(), e.as_slice())
}

fn is_word(c: char) -> (b: bool)
    ensures
        b == is_word_char(c),
{
    ('a' <= c && c <= 'z') || ('A' <= c && c <= 'Z') || ('0' <= c && c <= '9') || c == '_'
}

/// The identifiers of a line, left to right.
pub fn identifiers(line: &[char]) -> (r: Vec<Vec<char>>)
    ensures
        r@.map_values(|w: Vec<char>| w@) == identifiers_spec(line@),
{
    let mut out: Vec<Vec<char>> = Vec::new();
    let mut cur: Vec<char> = Vec::new();
    let mut i: usize = 0;
    while i < line.len()
        invariant
            i <= line@.len(),
            (out@.map_values(|w: Vec<char>| w@), cur@) == ident_scan(line@.take(i as int)),
        decreases line.len() - i,
    {
        assert(line@.take(i + 1).drop_last() =~= line@.take(i as int));
        assert(line@.take(i + 1).last() == line@[i as int]);
        let ch = line[i];
        if is_word(ch) {
            cur.push(ch);
        } else {
            let ghost o = out@.map_values(|w: Vec<char>| w@);
            if cur.len() > 0 && (('a' <= cur[0] && cur[0] <= 'z') || ('A' <= cur[0] && cur[0] <= 'Z')
                || cur[0] == '_') {
                let ghost cv = cur@;
                out.push(cur);
                assert(out@.map_values(|w: Vec<char>| w@) =~= o.push(cv));
            }
            cur = Vec::new();
        }
        i += 1;
    }
    assert(line@.take(line@.len() as int) =~= line@);
    if cur.len() > 0 && (('a' <= cur[0] && cur[0] <= 'z') || ('A' <= cur[0] && cur[0] <= 'Z')
        || cur[0] == '_') {
        let ghost o = out@.map_values(|w: Vec<char>| w@);
        let ghost cv = cur@;
        out.push(cur);
        assert(out@.map_values(|w: Vec<char>| w@) =~= o.push(cv));
    }
    out
}

fn words_of(line: &[char]) -> (r: Vec<Vec<char>>)
    ensures
        r@.map_values(|w: Vec<char>| w@) == line_words(line@),
{
    if is_import_line(line) {
        let r: Vec<Vec<char>> = Vec::new();
        assert(r@.map_values(|w: Vec<char>| w@) =~= Seq::<Seq<char>>::empty());
        r
    } else {
        identifiers(line)
    }
}

fn has_word(words: &Vec<Vec<char>>, name: &[char]) -> (b: bool)
    ensures
        b == texts(words@).contains(name@),
{
    let ghost wv = texts(words@);
    let mut i: usize = 0;
    while i < words.len()
        invariant
            i <= words@.len(),
            wv == texts(words@),
            forall|q: int| 0 <= q < i ==> wv[q] != name@,
        decreases words.len() - i,
    {
        if eq_chars(words[i].as_slice(), name) {
            assert(wv[i as int] == name@);
            return true;
        }
        i += 1;
    }
    false
}

/// The 1-based line of the first use of `name`, given the words of each line.
fn first_use_exec(words: &Vec<Vec<Vec<char>>>, name: &[char], lines: Ghost<Seq<Seq<char>>>) -> (r: Option<usize>)
    requires
        words@.len() == lines@.len(),
        forall|q: int| 0 <= q < words@.len() ==> #[trigger] texts(words@[q]@)
            == line_words(lines@[q]),
    ensures
        opt_nat(r) == first_use_at(lines@, name@),
        r matches Some(k) ==> k <= words@.len(),
{
    let ghost ls = lines@;
    let mut i: usize = 0;
    assert(ls.skip(0) =~= ls);
    while i < words.len()
        invariant
            i <= words@.len() == ls.len(),
            ls == lines@,
            forall|q: int| 0 <= q < words@.len() ==> #[trigger] texts(words@[q]@)
                == line_words(ls[q]),
            first_use_at(ls, name@) == match first_use_at(ls.skip(i as int), name@) {
                Some(k) => Some(k + i as nat),
                None => None::<nat>,
            },
        decreases words.len() - i,
    {
        assert(ls.skip(i as int)[0] == ls[i as int]);
        assert(texts(words@[i as int]@) == line_words(ls[i as int]));
        if has_word(&words[i], name) {
            assert(first_use_at(ls.skip(i as int), name@) == Some(1nat));
            return Some(i + 1);
        }
        assert(ls.skip(i as int).drop_first() =~= ls.skip(i + 1));
        i += 1;
    }
    assert(ls.skip(i as int) =~= Seq::<Seq<char>>::empty());
    None
}

/// The earliest first use of any of `names`.
fn min_use_exec(words: &Vec<Vec<Vec<char>>>, names: &Vec<String>, lines: Ghost<Seq<Seq<char>>>) -> (r: Option<usize>)
    requires
        words@.len() == lines@.len(),
        forall|q: int| 0 <= q < words@.len() ==> #[trigger] texts(words@[q]@)
            == line_words(lines@[q]),
    ensures
        opt_nat(r) == min_use(lines@, views(names@)),
{
    let ghost nv = views(names@);
    let mut best: Option<usize> = None;
    let mut i: usize = 0;
    while i < names.len()
        invariant
            i <= names@.len(),
            nv == views(names@),
            words@.len() == lines@.len(),
            forall|q: int| 0 <= q < words@.len() ==> #[trigger] texts(words@[q]@)
                == line_words(lines@[q]),
            opt_nat(best) == min_use(lines@, nv.take(i as int)),
            best matches Some(k) ==> k <= words@.len(),
        decreases names.len() - i,
    {
        assert(nv.take(i + 1).drop_last() =~= nv.take(i as int));
        assert(nv.take(i + 1).last() == names@[i as int]@);
        let n = chars_of(names[i].as_str());
        let u = first_use_exec(words, n.as_slice(), lines);
        best = min_opt(best, u);
        i += 1;
    }
    assert(nv.take(nv.len() as int) =~= nv);
    best
}


/// The imports of a source in the given language.
pub open spec fn lang_imports(lang: SourceLanguage, source: Seq<char>) -> Seq<ImportView> {
    match lang {
        SourceLanguage::Rust => rust::rust_imports(source),
        SourceLanguage::TypeScript | SourceLanguage::Tsx | SourceLanguage::JavaScript
        | SourceLanguage::Jsx => js_ts::js_imports(source),
        SourceLanguage::Python => python::py_imports(source),
        SourceLanguage::Go | SourceLanguage::Unknown => Seq::empty(),
    }
}

/// The normalized candidate files for an import, in preference order.
pub open spec fn lang_candidates(lang: SourceLanguage, importer: Seq<char>, raw: Seq<char>) -> Seq<
    Seq<char>,
> {
    match lang {
        SourceLanguage::Rust => rust::rust_candidates(importer, raw),
        SourceLanguage::TypeScript | SourceLanguage::Tsx | SourceLanguage::JavaScript
        | SourceLanguage::Jsx => js_ts::js_candidates(importer, raw),
        SourceLanguage::Python => python::py_candidates(importer, raw),
        SourceLanguage::Go | SourceLanguage::Unknown => Seq::empty(),
    }
}

/// The first of `cands` that is among `typeable`.
pub open spec fn first_typeable(cands: Seq<Seq<char>>, typeable: Seq<Seq<char>>) -> Option<Seq<char>>
    decreases cands.len(),
{
    if cands.len() == 0 {
        None
    } else if typeable.contains(cands[0]) {
        Some(cands[0])
    } else {
        first_typeable(cands.drop_first(), typeable)
    }
}

/// The typeable file an import resolves to, if any.
pub open spec fn resolve_spec(
    importer: Seq<char>,
    lang: SourceLanguage,
    raw: Seq<char>,
    typeable: Seq<Seq<char>>,
) -> Option<Seq<char>> {
    first_typeable(lang_candidates(lang, importer, raw), typeable)
}

/// The imports of `source`, read as the given language.
pub fn imports(lang: SourceLanguage, source: &str) -> (r: Vec<ImportSpec>)
    ensures
        import_views(r@) == lang_imports(lang, source@),
{
    match lang {
        SourceLanguage::Rust => rust::imports(source),
        SourceLanguage::TypeScript | SourceLanguage::Tsx | SourceLanguage::JavaScript
        | SourceLanguage::Jsx => js_ts::imports(source),
        SourceLanguage::Python => python::imports(source),
        SourceLanguage::Go | SourceLanguage::Unknown => {
            let r: Vec<ImportSpec> = Vec::new();
            assert(import_views(r@) =~= Seq::<ImportView>::empty());
            r
        },
    }
}

fn contains_text(v: &Vec<String>, s: &str) -> (b: bool)
    ensures
        b == views(v@).contains(s@),
{
    let mut i: usize = 0;
    while i < v.len()
        invariant
            i <= v@.len(),
            forall|q: int| 0 <= q < i ==> views(v@)[q] != s@,
        decreases v.len() - i,
    {
        if crate::text::str_eq(v[i].as_str(), s) {
            assert(views(v@)[i as int] == s@);
            return true;
        }
        i += 1;
    }
    false
}

/// The typeable file that the import `raw` of `importer` resolves to: the
/// first candidate that is among `typeable`.
pub fn resolve_import(importer: &str, lang: SourceLanguage, raw: &str, typeable: &Vec<String>) -> (r:
    Option<String>)
    ensures
        match resolve_spec(importer@, lang, raw@, views(typeable@)) {
            Some(t) => r is Some && r.unwrap()@ == t,
            None => r is None,
        },
{
    let cands: Vec<String> = match lang {
        SourceLanguage::Rust => rust::candidates(importer, raw),
        SourceLanguage::TypeScript | SourceLanguage::Tsx | SourceLanguage::JavaScript
        | SourceLanguage::Jsx => js_ts::candidates(importer, raw),
        SourceLanguage::Python => python::candidates(importer, raw),
        SourceLanguage::Go | SourceLanguage::Unknown => Vec::new(),
    };
    let ghost cv = views(cands@);
    assert(cv =~= lang_candidates(lang, importer@, raw@));
    let ghost tv = views(typeable@);
    let ghost target = first_typeable(cv, tv);
    let mut found: Option<String> = None;
    let mut i: usize = 0;
    assert(cv.skip(0) =~= cv);
    while i < cands.len() && found.is_none()
        invariant
            i <= cands@.len(),
            cv == views(cands@),
            tv == views(typeable@),
            found is None ==> target == first_typeable(cv.skip(i as int), tv),
            found matches Some(f) ==> target == Some(f@),
        decreases cands.len() - i + if found is None { 1int } else { 0int },
    {
        assert(cv.skip(i as int)[0] == cv[i as int]);
        if contains_text(typeable, cands[i].as_str()) {
            found = Some(crate::text::copy_string(&cands[i]));
        } else {
            assert(cv.skip(i as int).drop_first() =~= cv.skip(i + 1));
            i += 1;
        }
    }
    if found.is_none() {
        assert(cv.skip(i as int) =~= Seq::<Seq<char>>::empty());
    }
    found
}

/// An import edge as plain values.
pub ghost struct EdgeView {
    pub importer: Seq<char>,
    pub imported: Seq<char>,
    pub decl_line: nat,
    pub first_use_line: Option<nat>,
    pub raw: Seq<char>,
}

pub open spec fn edge_view(e: ImportEdge) -> EdgeView {
    EdgeView {
        importer: e.importer@,
        imported: e.imported@,
        decl_line: e.decl_line as nat,
        first_use_line: opt_nat(e.first_use_line),
        raw: e.raw@,
    }
}

pub open spec fn edge_views(s: Seq<ImportEdge>) -> Seq<EdgeView> {
    s.map_values(|e: ImportEdge| edge_view(e))
}

/// Index of the first edge from `importer` to `imported`.
pub open spec fn key_index(edges: Seq<EdgeView>, importer: Seq<char>, imported: Seq<char>) -> Option<int>
    decreases edges.len(),
{
    if edges.len() == 0 {
        None
    } else if edges[0].importer == importer && edges[0].imported == imported {
        Some(0)
    } else {
        match key_index(edges.drop_first(), importer, imported) {
            Some(k) => Some(k + 1),
            None => None,
        }
    }
}

/// Fold a newly found import into the edges: an edge already present between
/// the same two files keeps its place, takes the earliest declaration line
/// (and that declaration's text) and the earliest first use.
pub open spec fn merge_edge(edges: Seq<EdgeView>, e: EdgeView) -> Seq<EdgeView> {
    match key_index(edges, e.importer, e.imported) {
        Some(k) => {
            let old = edges[k];
            edges.update(
                k,
                EdgeView {
                    importer: old.importer,
                    imported: old.imported,
                    decl_line: if e.decl_line < old.decl_line {
                        e.decl_line
                    } else {
                        old.decl_line
                    },
                    first_use_line: min_opt_spec(old.first_use_line, e.first_use_line),
                    raw: if e.decl_line < old.decl_line {
                        e.raw
                    } else {
                        old.raw
                    },
                },
            )
        },
        None => edges.push(e),
    }
}

pub open spec fn merge_all(edges: Seq<EdgeView>, found: Seq<EdgeView>) -> Seq<EdgeView>
    decreases found.len(),
{
    if found.len() == 0 {
        edges
    } else {
        merge_edge(merge_all(edges, found.drop_last()), found.last())
    }
}

/// The edges one file's imports give, in source order: each import that
/// resolves to a typeable file, with the first use of its bindings.
pub open spec fn file_edges(
    path: Seq<char>,
    source: Seq<char>,
    specs: Seq<ImportView>,
    typeable: Seq<Seq<char>>,
) -> Seq<EdgeView>
    decreases specs.len(),
{
    if specs.len() == 0 {
        Seq::empty()
    } else {
        let prev = file_edges(path, source, specs.drop_last(), typeable);
        let spec = specs.last();
        match resolve_spec(path, language_of_path(path), spec.raw, typeable) {
            Some(target) => prev.push(
                EdgeView {
                    importer: path,
                    imported: target,
                    decl_line: spec.line,
                    first_use_line: min_use(text_lines(source), spec.bindings),
                    raw: spec.display,
                },
            ),
            None => prev,
        }
    }
}

/// Whether a scanned file takes part in typing: not skipped, with a body.
pub open spec fn is_typeable(f: ScannedFile) -> bool {
    f.status != FileStatus::Skipped && f.chunks@.len() > 0
}

/// The paths of the typeable files, in order.
pub open spec fn typeable_paths_of(files: Seq<ScannedFile>) -> Seq<Seq<char>>
    decreases files.len(),
{
    if files.len() == 0 {
        Seq::empty()
    } else {
        let prev = typeable_paths_of(files.drop_last());
        if is_typeable(files.last()) {
            prev.push(files.last().relative_path@)
        } else {
            prev
        }
    }
}

pub open spec fn opt_text(o: Option<String>) -> Option<Seq<char>> {
    match o {
        Some(s) => Some(s@),
        None => None,
    }
}

/// The repository-local edges of the first `files.len()` files, given the
/// text of each file that could be read.
pub open spec fn edges_of(
    files: Seq<ScannedFile>,
    sources: Seq<Option<Seq<char>>>,
    typeable: Seq<Seq<char>>,
) -> Seq<EdgeView>
    decreases files.len(),
{
    if files.len() == 0 || sources.len() < files.len() {
        Seq::empty()
    } else {
        let n = files.len() - 1;
        let prev = edges_of(files.drop_last(), sources, typeable);
        let f = files[n];
        if typeable.contains(f.relative_path@) {
            match sources[n] {
                Some(src) => merge_all(
                    prev,
                    file_edges(
                        f.relative_path@,
                        src,
                        lang_imports(language_of_path(f.relative_path@), src),
                        typeable,
                    ),
                ),
                None => prev,
            }
        } else {
            prev
        }
    }
}

/// The paths of the typeable files (not skipped, with a body), in order.
pub fn typeable_paths(files: &[ScannedFile]) -> (r: Vec<String>)
    ensures
        views(r@) == typeable_paths_of(files@),
{
    let mut r: Vec<String> = Vec::new();
    let mut i: usize = 0;
    while i < files.len()
        invariant
            i <= files@.len(),
            views(r@) == typeable_paths_of(files@.take(i as int)),
        decreases files.len() - i,
    {
        assert(files@.take(i + 1).drop_last() =~= files@.take(i as int));
        let f = &files[i];
        if f.status != FileStatus::Skipped && f.chunks.len() > 0 {
            let ghost before = views(r@);
            r.push(crate::text::copy_string(&f.relative_path));
            assert(views(r@) =~= before.push(f.relative_path@));
        }
        i += 1;
    }
    assert(files@.take(files@.len() as int) =~= files@);
    r
}

fn copy_edge(e: &ImportEdge) -> (r: ImportEdge)
    ensures
        edge_view(r) == edge_view(*e),
{
    ImportEdge {
        importer: crate::text::copy_string(&e.importer),
        imported: crate::text::copy_string(&e.imported),
        decl_line: e.decl_line,
        first_use_line: e.first_use_line,
        raw: crate::text::copy_string(&e.raw),
    }
}

/// Fold one found edge into `edges`.
fn merge_into(edges: &mut Vec<ImportEdge>, e: ImportEdge)
    ensures
        edge_views(final(edges)@) == merge_edge(edge_views(old(edges)@), edge_view(e)),
{
    let ghost ev = edge_views(edges@);
    let mut i: usize = 0;
    assert(ev.skip(0) =~= ev);
    while i < edges.len()
        invariant
            i <= edges@.len(),
            ev == edge_views(edges@),
            edges@ == old(edges)@,
            key_index(ev, e.importer@, e.imported@) == match key_index(
                ev.skip(i as int),
                e.importer@,
                e.imported@,
            ) {
                Some(k) => Some(k + i),
                None => None::<int>,
            },
        decreases edges.len() - i,
    {
        assert(ev.skip(i as int)[0] == ev[i as int]);
        if crate::text::str_eq(edges[i].importer.as_str(), e.importer.as_str())
            && crate::text::str_eq(edges[i].imported.as_str(), e.imported.as_str()) {
            let old = copy_edge(&edges[i]);
            let later = e.decl_line < old.decl_line;
            let merged = ImportEdge {
                importer: old.importer,
                imported: old.imported,
                decl_line: if later {
                    e.decl_line
                } else {
                    old.decl_line
                },
                first_use_line: min_opt(old.first_use_line, e.first_use_line),
                raw: if later {
                    e.raw
                } else {
                    old.raw
                },
            };
            edges.set(i, merged);
            assert(edge_views(edges@) =~= merge_edge(ev, edge_view(e)));
            return;
        }
        assert(ev.skip(i as int).drop_first() =~= ev.skip(i + 1));
        i += 1;
    }
    assert(ev.skip(i as int) =~= Seq::<EdgeView>::empty());
    edges.push(e);
    assert(edge_views(edges@) =~= ev.push(edge_view(e)));
}


/// Fold the edges of one file into `out`.
fn push_file_edges(out: &mut Vec<ImportEdge>, path: &str, src: &str, typeable: &Vec<String>)
    ensures
        edge_views(final(out)@) == merge_all(
            edge_views(old(out)@),
            file_edges(path@, src@, lang_imports(language_of_path(path@), src@), views(typeable@)),
        ),
{
    let lang = SourceLanguage::from_path(path);
    let specs = imports(lang, src);
    let ghost sv = import_views(specs@);
    let ghost tv = views(typeable@);
    let lines = lines_of(src);
    let ghost tl = text_lines(src@);
    let mut words: Vec<Vec<Vec<char>>> = Vec::new();
    let mut k: usize = 0;
    while k < lines.len()
        invariant
            k <= lines@.len() == tl.len(),
            forall|q: int| 0 <= q < lines@.len() ==> #[trigger] lines@[q]@ == tl[q],
            words@.len() == k,
            forall|q: int| 0 <= q < k ==> #[trigger] texts(words@[q]@) == line_words(tl[q]),
        decreases lines.len() - k,
    {
        words.push(words_of(lines[k].as_slice()));
        k += 1;
    }
    let ghost start = edge_views(out@);
    let mut j: usize = 0;
    while j < specs.len()
        invariant
            j <= specs@.len(),
            sv == import_views(specs@),
            sv == lang_imports(language_of_path(path@), src@),
            tv == views(typeable@),
            lang == language_of_path(path@),
            words@.len() == tl.len(),
            tl == text_lines(src@),
            forall|q: int| 0 <= q < words@.len() ==> #[trigger] texts(words@[q]@) == line_words(tl[q]),
            edge_views(out@) == merge_all(start, file_edges(path@, src@, sv.take(j as int), tv)),
        decreases specs.len() - j,
    {
        assert(sv.take(j + 1).drop_last() =~= sv.take(j as int));
        assert(sv.take(j + 1).last() == import_view(specs@[j as int]));
        let spec = &specs[j];
        match resolve_import(path, lang, spec.raw.as_str(), typeable) {
            Some(target) => {
                let u = min_use_exec(&words, &spec.bindings, Ghost(tl));
                let e = ImportEdge {
                    importer: string_of(chars_of(path).as_slice()),
                    imported: target,
                    decl_line: spec.line,
                    first_use_line: u,
                    raw: crate::text::copy_string(&spec.display),
                };
                let ghost fe = file_edges(path@, src@, sv.take(j as int), tv);
                assert(file_edges(path@, src@, sv.take(j + 1), tv) == fe.push(edge_view(e)));
                assert(fe.push(edge_view(e)).drop_last() =~= fe);
                merge_into(out, e);
            },
            None => {},
        }
        j += 1;
    }
    assert(sv.take(sv.len() as int) =~= sv);
}

/// The repository-local import edges of `files`, in the order they are first
/// found, given the text of each file (`None` where it could not be read).
/// Only typeable files are read, and only imports that resolve to a typeable
/// file count; repeated imports between the same two files fold into one edge.
pub fn edges_from_sources(files: &[ScannedFile], sources: &[Option<String>]) -> (r: Vec<ImportEdge>)
    requires
        sources@.len() == files@.len(),
    ensures
        edge_views(r@) == edges_of(
            files@,
            sources@.map_values(|o: Option<String>| opt_text(o)),
            typeable_paths_of(files@),
        ),
{
    let typeable = typeable_paths(files);
    let ghost sv = sources@.map_values(|o: Option<String>| opt_text(o));
    let ghost tp = typeable_paths_of(files@);
    let mut out: Vec<ImportEdge> = Vec::new();
    assert(edge_views(out@) =~= Seq::<EdgeView>::empty());
    let mut i: usize = 0;
    while i < files.len()
        invariant
            i <= files@.len() == sources@.len(),
            sv == sources@.map_values(|o: Option<String>| opt_text(o)),
            tp == views(typeable@),
            edge_views(out@) == edges_of(files@.take(i as int), sv, tp),
        decreases files.len() - i,
    {
        assert(files@.take(i + 1).drop_last() =~= files@.take(i as int));
        assert(files@.take(i + 1)[i as int] == files@[i as int]);
        let f = &files[i];
        if contains_text(&typeable, f.relative_path.as_str()) {
            match &sources[i] {
                Some(src) => {
                    push_file_edges(&mut out, f.relative_path.as_str(), src.as_str(), &typeable);
                },
                None => {},
            }
        }
        i += 1;
    }
    assert(files@.take(files@.len() as int) =~= files@);
    out
}


proof fn lemma_first_typeable(cands: Seq<Seq<char>>, typeable: Seq<Seq<char>>)
    ensures
        first_typeable(cands, typeable) matches Some(x) ==> typeable.contains(x),
    decreases cands.len(),
{
    if cands.len() > 0 && !typeable.contains(cands[0]) {
        lemma_first_typeable(cands.drop_first(), typeable);
    }
}

proof fn lemma_key_index(edges: Seq<EdgeView>, importer: Seq<char>, imported: Seq<char>)
    ensures
        match key_index(edges, importer, imported) {
            Some(k) => 0 <= k < edges.len() && edges[k].importer == importer && edges[k].imported
                == imported,
            None => forall|q: int|
                0 <= q < edges.len() ==> !(edges[q].importer == importer && edges[q].imported
                    == imported),
        },
    decreases edges.len(),
{
    if edges.len() > 0 && !(edges[0].importer == importer && edges[0].imported == imported) {
        lemma_key_index(edges.drop_first(), importer, imported);
        assert forall|q: int| 1 <= q < edges.len() implies edges[q] == edges.drop_first()[q - 1] by {}
    }
}

/// Both ends of every edge are among `typeable`.
pub open spec fn edges_local(edges: Seq<EdgeView>, typeable: Seq<Seq<char>>) -> bool {
    forall|q: int|
        0 <= q < edges.len() ==> typeable.contains(#[trigger] edges[q].importer) && typeable.contains(
            edges[q].imported,
        )
}

/// No two edges join the same two files.
pub open spec fn edges_unique(edges: Seq<EdgeView>) -> bool {
    forall|p: int, q: int|
        0 <= p < q < edges.len() ==> !(#[trigger] edges[p].importer == #[trigger] edges[q].importer
            && edges[p].imported == edges[q].imported)
}

proof fn lemma_file_edges_local(
    path: Seq<char>,
    source: Seq<char>,
    specs: Seq<ImportView>,
    typeable: Seq<Seq<char>>,
)
    requires
        typeable.contains(path),
    ensures
        edges_local(file_edges(path, source, specs, typeable), typeable),
    decreases specs.len(),
{
    if specs.len() > 0 {
        lemma_file_edges_local(path, source, specs.drop_last(), typeable);
        lemma_first_typeable(
            lang_candidates(language_of_path(path), path, specs.last().raw),
            typeable,
        );
    }
}

proof fn lemma_merge_edge(edges: Seq<EdgeView>, e: EdgeView, typeable: Seq<Seq<char>>)
    ensures
        edges_local(edges, typeable) && typeable.contains(e.importer) && typeable.contains(
            e.imported,
        ) ==> edges_local(merge_edge(edges, e), typeable),
        edges_unique(edges) ==> edges_unique(merge_edge(edges, e)),
{
    lemma_key_index(edges, e.importer, e.imported);
    let m = merge_edge(edges, e);
    match key_index(edges, e.importer, e.imported) {
        Some(k) => {
            assert forall|q: int| 0 <= q < m.len() implies m[q].importer == edges[q].importer
                && m[q].imported == edges[q].imported by {}
        },
        None => {
            assert forall|q: int| 0 <= q < edges.len() implies m[q] == edges[q] by {}
        },
    }
}

proof fn lemma_merge_all(edges: Seq<EdgeView>, found: Seq<EdgeView>, typeable: Seq<Seq<char>>)
    ensures
        edges_local(edges, typeable) && edges_local(found, typeable) ==> edges_local(
            merge_all(edges, found),
            typeable,
        ),
        edges_unique(edges) ==> edges_unique(merge_all(edges, found)),
    decreases found.len(),
{
    if found.len() > 0 {
        lemma_merge_all(edges, found.drop_last(), typeable);
        if edges_local(found, typeable) {
            assert(edges_local(found.drop_last(), typeable)) by {
                assert forall|q: int| 0 <= q < found.drop_last().len() implies found.drop_last()[q]
                    == found[q] by {}
            }
            assert(typeable.contains(found[found.len() - 1].importer));
        }
        lemma_merge_edge(merge_all(edges, found.drop_last()), found.last(), typeable);
    }
}

/// Every import edge joins two typeable files of the repository, and no two
/// edges join the same pair of files.
pub proof fn law_edges_local_and_unique(
    files: Seq<ScannedFile>,
    sources: Seq<Option<Seq<char>>>,
)
    ensures
        edges_local(edges_of(files, sources, typeable_paths_of(files)), typeable_paths_of(files)),
        edges_unique(edges_of(files, sources, typeable_paths_of(files))),
{
    lemma_edges_of(files, sources, typeable_paths_of(files));
}

proof fn lemma_edges_of(
    files: Seq<ScannedFile>,
    sources: Seq<Option<Seq<char>>>,
    typeable: Seq<Seq<char>>,
)
    ensures
        edges_local(edges_of(files, sources, typeable), typeable),
        edges_unique(edges_of(files, sources, typeable)),
    decreases files.len(),
{
    if files.len() > 0 && sources.len() >= files.len() {
        let n = files.len() - 1;
        lemma_edges_of(files.drop_last(), sources, typeable);
        let prev = edges_of(files.drop_last(), sources, typeable);
        let f = files[n];
        if typeable.contains(f.relative_path@) {
            match sources[n] {
                Some(src) => {
                    let found = file_edges(
                        f.relative_path@,
                        src,
                        lang_imports(language_of_path(f.relative_path@), src),
                        typeable,
                    );
                    lemma_file_edges_local(
                        f.relative_path@,
                        src,
                        lang_imports(language_of_path(f.relative_path@), src),
                        typeable,
                    );
                    lemma_merge_all(prev, found, typeable);
                },
                None => {},
            }
        }
    }
}

} // verus!
