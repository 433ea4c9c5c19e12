//! Lightweight Rust module/import resolver.

use vstd::prelude::*;

use crate::domain::dependency::views;
use crate::scan::deps::paths::{
    candidates_at, components, join, normalized, parent, path_candidates, RelPath,
};
use crate::scan::deps::{import_view, import_views, over_lines, ImportSpec, ImportView};
use crate::text::{
    chars_of, ends_with, ends_with_chars, find, find_chars, first_piece, first_piece_chars,
    first_word, first_word_chars, last_piece, last_piece_chars, lemma_find_facts,
    lemma_split_char_nonempty, lines_of, rsplit_once, rsplit_once_chars, split_char, split_on,
    starts_with, starts_with_chars, string_of, strip_prefix, strip_prefix_chars, subrange,
    text_lines, trim, trim_chars, trim_end_matches, trim_end_matches_chars,
};

verus! {

/// The path and brace group of a `use` statement.
pub open spec fn split_use_path(stmt: Seq<char>) -> (Seq<char>, Option<Seq<char>>) {
    match find(stmt, "{"@) {
        Some(idx) => (
            trim_end_matches(trim(stmt.take(idx)), "::"@),
            Some(first_piece(stmt.skip(idx + 1), '}')),
        ),
        None => (stmt, None),
    }
}

/// A path and its `as` alias.
pub open spec fn split_as(s: Seq<char>) -> (Seq<char>, Option<Seq<char>>) {
    match rsplit_once(s, " as "@) {
        Some((l, r)) => (trim(l), Some(trim(r))),
        None => (trim(s), None),
    }
}

/// The name one item of a brace group binds.
pub open spec fn use_item_name(item: Seq<char>) -> Option<Seq<char>> {
    let it = trim(item);
    if it.len() == 0 || it == "*"@ {
        None
    } else {
        let name = match rsplit_once(it, " as "@) {
            Some((_, alias)) => trim(alias),
            None => trim(last_piece(it, "::"@)),
        };
        if name.len() == 0 {
            None
        } else {
            Some(name)
        }
    }
}

pub open spec fn use_bindings_of(items: Seq<Seq<char>>) -> Seq<Seq<char>>
    decreases items.len(),
{
    if items.len() == 0 {
        Seq::empty()
    } else {
        let prev = use_bindings_of(items.drop_last());
        match use_item_name(items.last()) {
            Some(n) => prev.push(n),
            None => prev,
        }
    }
}

/// Names bound by a brace group.
pub open spec fn use_bindings(inside: Seq<char>) -> Seq<Seq<char>> {
    use_bindings_of(split_char(inside, ','))
}

/// The import a line of Rust declares, if any.
pub open spec fn rust_line(line: Seq<char>, index: nat) -> Seq<ImportView> {
    let display = trim(line);
    let body = match strip_prefix(display, "pub "@) {
        Some(b) => b,
        None => display,
    };
    match strip_prefix(body, "use "@) {
        Some(rest) => {
            let stmt = trim(first_piece(rest, ';'));
            let (path_part, brace) = split_use_path(stmt);
            let (path, alias) = split_as(path_part);
            let bindings = match brace {
                Some(inside) => use_bindings(inside),
                None => if ends_with(path, "*"@) {
                    Seq::empty()
                } else {
                    match alias {
                        Some(a) => seq![a],
                        None => {
                            let name = last_piece(path, "::"@);
                            if name.len() > 0 && name != "*"@ {
                                seq![name]
                            } else {
                                Seq::empty()
                            }
                        },
                    }
                },
            };
            let raw = trim(trim_end_matches(trim_end_matches(path, "::*"@), "::"@));
            if raw.len() > 0 {
                seq![ImportView { raw, line: index + 1, bindings, display }]
            } else {
                Seq::empty()
            }
        },
        None => match strip_prefix(body, "mod "@) {
            Some(rest) => {
                let name = match first_word(first_piece(rest, ';')) {
                    Some(w) => w,
                    None => Seq::empty(),
                };
                if name.len() > 0 {
                    seq![
                        ImportView {
                            raw: "self::"@ + name,
                            line: index + 1,
                            bindings: seq![name],
                            display,
                        },
                    ]
                } else {
                    Seq::empty()
                }
            },
            None => Seq::empty(),
        },
    }
}

/// The imports of a Rust source, in source order.
pub open spec fn rust_imports(source: Seq<char>) -> Seq<ImportView> {
    over_lines(text_lines(source), |l: Seq<char>, i: nat| rust_line(l, i))
}

fn lit_eq(s: &[char], l: &str) -> (b: bool)
    ensures
        b == (s@ == l@),
{
    let c = chars_of(l);
    crate::text::eq_chars(s, c.as_slice())
}

fn split_use_path_exec(stmt: &[char]) -> (r: (Vec<char>, Option<Vec<char>>))
    ensures
        r.0@ == split_use_path(stmt@).0,
        match split_use_path(stmt@).1 {
            Some(i) => r.1 is Some && r.1.unwrap()@ == i,
            None => r.1 is None,
        },
{
    let brace = chars_of("{");
    proof {
        lemma_find_facts(stmt@, "{"@);
        reveal_strlit("{");
    }
    match find_chars(stmt, brace.as_slice()) {
        Some(idx) => {
            let n = stmt.len();
            assert(idx < n);
            let head = subrange(stmt, 0, idx);
            assert(head@ =~= stmt@.take(idx as int));
            let t = trim_chars(head.as_slice());
            let path = trim_end_matches_chars(t.as_slice(), "::");
            let tail = subrange(stmt, idx + 1, n);
            assert(tail@ =~= stmt@.skip(idx + 1));
            let inside = first_piece_chars(tail.as_slice(), '}');
            (path, Some(inside))
        },
        None => (subrange(stmt, 0, stmt.len()), None),
    }
}

fn split_as_exec(s: &[char]) -> (r: (Vec<char>, Option<Vec<char>>))
    ensures
        r.0@ == split_as(s@).0,
        match split_as(s@).1 {
            Some(a) => r.1 is Some && r.1.unwrap()@ == a,
            None => r.1 is None,
        },
{
    match rsplit_once_chars(s, " as ") {
        Some((l, r)) => (trim_chars(l.as_slice()), Some(trim_chars(r.as_slice()))),
        None => (trim_chars(s), None),
    }
}

fn use_item(item: &[char]) -> (r: Option<Vec<char>>)
    ensures
        match use_item_name(item@) {
            Some(n) => r is Some && r.unwrap()@ == n,
            None => r is None,
        },
{
    let it = trim_chars(item);
    if it.len() == 0 || lit_eq(it.as_slice(), "*") {
        return None;
    }
    let name = match rsplit_once_chars(it.as_slice(), " as ") {
        Some((_, alias)) => trim_chars(alias.as_slice()),
        None => {
            let last = last_piece_chars(it.as_slice(), "::");
            trim_chars(last.as_slice())
        },
    };
    if name.len() == 0 {
        None
    } else {
        Some(name)
    }
}

fn parse_use_bindings(inside: &[char]) -> (r: Vec<String>)
    ensures
        views(r@) == use_bindings(inside@),
{
    let items = split_on(inside, ',');
    let ghost sp = split_char(inside@, ',');
    let mut r: Vec<String> = Vec::new();
    let mut i: usize = 0;
    while i < items.len()
        invariant
            i <= items@.len(),
            items@.len() == sp.len(),
            forall|q: int| 0 <= q < items@.len() ==> #[trigger] items@[q]@ == sp[q],
            views(r@) == use_bindings_of(sp.take(i as int)),
        decreases items.len() - i,
    {
        assert(sp.take(i + 1).drop_last() =~= sp.take(i as int));
        match use_item(items[i].as_slice()) {
            Some(n) => {
                let ghost before = views(r@);
                r.push(string_of(n.as_slice()));
                assert(views(r@) =~= before.push(n@));
            },
            None => {},
        }
        i += 1;
    }
    assert(sp.take(sp.len() as int) =~= sp);
    r
}

fn one_binding(name: Vec<char>) -> (r: Vec<String>)
    ensures
        views(r@) == seq![name@],
{
    let mut r: Vec<String> = Vec::new();
    r.push(string_of(name.as_slice()));
    assert(views(r@) =~= seq![name@]);
    r
}

fn no_bindings() -> (r: Vec<String>)
    ensures
        views(r@) == Seq::<Seq<char>>::empty(),
{
    let r: Vec<String> = Vec::new();
    assert(views(r@) =~= Seq::<Seq<char>>::empty());
    r
}

fn line_imports(line: &[char], index: usize) -> (r: Vec<ImportSpec>)
    requires
        index < usize::MAX,
    ensures
        import_views(r@) == rust_line(line@, index as nat),
{
    let display = trim_chars(line);
    let body = match strip_prefix_chars(display.as_slice(), "pub ") {
        Some(b) => b,
        None => subrange(display.as_slice(), 0, display.len()),
    };
    assert(body@ == match strip_prefix(display@, "pub "@) {
        Some(b) => b,
        None => display@,
    });
    let mut out: Vec<ImportSpec> = Vec::new();
    match strip_prefix_chars(body.as_slice(), "use ") {
        Some(rest) => {
            let piece = first_piece_chars(rest.as_slice(), ';');
            let stmt = trim_chars(piece.as_slice());
            let (path_part, brace) = split_use_path_exec(stmt.as_slice());
            let (path, alias) = split_as_exec(path_part.as_slice());
            let star = chars_of("*");
            let bindings = match brace {
                Some(inside) => parse_use_bindings(inside.as_slice()),
                None => if ends_with_chars(path.as_slice(), star.as_slice()) {
                    no_bindings()
                } else {
                    match alias {
                        Some(a) => one_binding(a),
                        None => {
                            let name = last_piece_chars(path.as_slice(), "::");
                            if name.len() > 0 && !lit_eq(name.as_slice(), "*") {
                                one_binding(name)
                            } else {
                                no_bindings()
                            }
                        },
                    }
                },
            };
            let t1 = trim_end_matches_chars(path.as_slice(), "::*");
            let t2 = trim_end_matches_chars(t1.as_slice(), "::");
            let raw = trim_chars(t2.as_slice());
            if raw.len() > 0 {
                out.push(
                    ImportSpec {
                        raw: string_of(raw.as_slice()),
                        line: index + 1,
                        bindings,
                        display: string_of(display.as_slice()),
                    },
                );
            }
            assert(import_views(out@) =~= rust_line(line@, index as nat));
        },
        None => {
            match strip_prefix_chars(body.as_slice(), "mod ") {
                Some(rest) => {
                    let piece = first_piece_chars(rest.as_slice(), ';');
                    let name = match first_word_chars(piece.as_slice()) {
                        Some(w) => w,
                        None => Vec::new(),
                    };
                    if name.len() > 0 {
                        let mut raw = chars_of("self::");
                        let mut k: usize = 0;
                        let ghost base = raw@;
                        while k < name.len()
                            invariant
                                k <= name@.len(),
                                raw@ == base + name@.take(k as int),
                            decreases name.len() - k,
                        {
                            raw.push(name[k]);
                            assert(name@.take(k + 1) =~= name@.take(k as int).push(name@[k as int]));
                            k += 1;
                        }
                        assert(name@.take(name@.len() as int) =~= name@);
                        let nm = string_of(name.as_slice());
                        let bindings = one_binding(name);
                        out.push(
                            ImportSpec {
                                raw: string_of(raw.as_slice()),
                                line: index + 1,
                                bindings,
                                display: string_of(display.as_slice()),
                            },
                        );
                    }
                    assert(import_views(out@) =~= rust_line(line@, index as nat));
                },
                None => {
                    assert(import_views(out@) =~= rust_line(line@, index as nat));
                },
            }
        },
    }
    out
}

/// The module imports and declarations of a Rust source, in source order.
pub fn imports(source: &str) -> (r: Vec<ImportSpec>)
    ensures
        import_views(r@) == rust_imports(source@),
{
    let lines = lines_of(source);
    let ghost tl = text_lines(source@);
    let mut out: Vec<ImportSpec> = Vec::new();
    let mut i: usize = 0;
    while i < lines.len()
        invariant
            i <= lines@.len(),
            lines@.len() == tl.len(),
            forall|q: int| 0 <= q < lines@.len() ==> #[trigger] lines@[q]@ == tl[q],
            import_views(out@) == over_lines(tl.take(i as int), |l: Seq<char>, j: nat| rust_line(l, j)),
        decreases lines.len() - i,
    {
        assert(tl.take(i + 1).drop_last() =~= tl.take(i as int));
        let more = line_imports(lines[i].as_slice(), i);
        append_specs_local(&mut out, more);
        i += 1;
    }
    assert(tl.take(tl.len() as int) =~= tl);
    out
}

fn append_specs_local(out: &mut Vec<ImportSpec>, more: Vec<ImportSpec>)
    ensures
        import_views(final(out)@) == import_views(old(out)@) + import_views(more@),
{
    crate::scan::deps::append_specs(out, more);
}

/// The text of `s` after a run of leading `super::`, and how many there were.
pub open spec fn strip_supers(s: Seq<char>) -> (Seq<char>, nat)
    decreases s.len(),
{
    match strip_prefix(s, "super::"@) {
        Some(rest) => {
            proof {
                reveal_strlit("super::");
            }
            let (r, n) = strip_supers(rest);
            (r, n + 1)
        },
        None => (s, 0),
    }
}

/// The directory `n` levels above `p`.
pub open spec fn ancestor(p: Seq<Seq<char>>, n: nat) -> Seq<Seq<char>>
    decreases n,
{
    if n == 0 {
        p
    } else {
        ancestor(parent(p), (n - 1) as nat)
    }
}

/// Pieces of `s` between `::`, without empty ones.
pub open spec fn segments(s: Seq<char>) -> Seq<Seq<char>>
    decreases s.len(),
{
    match find(s, "::"@) {
        Some(i) => {
            proof {
                reveal_strlit("::");
                lemma_find_facts(s, "::"@);
            }
            let head = s.take(i);
            let rest = segments(s.skip(i + 2));
            if head.len() == 0 {
                rest
            } else {
                seq![head] + rest
            }
        },
        None => if s.len() == 0 {
            Seq::empty()
        } else {
            seq![s]
        },
    }
}

/// Candidate files for the module path `path` under `base`: the longest
/// module prefix first.
pub open spec fn module_candidates(base: Seq<Seq<char>>, path: Seq<char>) -> Seq<Seq<Seq<char>>>
    decreases segments(path).len(),
{
    module_candidates_upto(base, segments(path), segments(path).len())
}

pub open spec fn module_candidates_upto(
    base: Seq<Seq<char>>,
    segs: Seq<Seq<char>>,
    len: nat,
) -> Seq<Seq<Seq<char>>>
    decreases len,
{
    if len == 0 || len > segs.len() {
        Seq::empty()
    } else {
        path_candidates(
            join(base, crate::scan::deps::paths::join_slash(segs.take(len as int))),
            seq!["rs"@],
        ) + module_candidates_upto(base, segs, (len - 1) as nat)
    }
}

/// Candidate files, normalized, for a Rust module path imported by `importer`.
pub open spec fn rust_candidates(importer: Seq<char>, raw: Seq<char>) -> Seq<Seq<char>> {
    let current = parent(components(importer));
    let path = trim_end_matches(trim(raw), ";"@);
    let found = match strip_prefix(path, "crate::"@) {
        Some(rest) => module_candidates(
            if starts_with(importer, "src/"@) {
                seq!["src"@]
            } else {
                Seq::empty()
            },
            rest,
        ),
        None => match strip_prefix(path, "self::"@) {
            Some(rest) => module_candidates(current, rest),
            None => {
                let (remaining, ups) = strip_supers(path);
                if ups > 0 {
                    module_candidates(ancestor(current, ups), remaining)
                } else {
                    module_candidates(current, path) + module_candidates(Seq::empty(), path)
                }
            },
        },
    };
    found.map_values(|p: Seq<Seq<char>>| normalized(p))
}


pub proof fn lemma_ancestor_step(p: Seq<Seq<char>>, k: nat)
    ensures
        ancestor(p, k + 1) == parent(ancestor(p, k)),
    decreases k,
{
    if k > 0 {
        lemma_ancestor_step(parent(p), (k - 1) as nat);
        assert(ancestor(p, k) == ancestor(parent(p), (k - 1) as nat));
        assert(ancestor(p, k + 1) == ancestor(parent(p), k));
    } else {
        assert(ancestor(p, 0) == p);
        assert(ancestor(p, 1) == ancestor(parent(p), 0));
    }
}

fn segments_exec(s: &[char]) -> (r: Vec<Vec<char>>)
    ensures
        r@.map_values(|c: Vec<char>| c@) == segments(s@),
    decreases s.len(),
{
    proof {
        reveal_strlit("::");
        lemma_find_facts(s@, "::"@);
    }
    let sep = chars_of("::");
    match find_chars(s, sep.as_slice()) {
        Some(i) => {
            let n = s.len();
            let head = subrange(s, 0, i);
            assert(head@ =~= s@.take(i as int));
            let tail = subrange(s, i + 2, n);
            assert(tail@ =~= s@.skip(i + 2));
            let mut rest = segments_exec(tail.as_slice());
            if head.len() == 0 {
                rest
            } else {
                let ghost before = rest@.map_values(|c: Vec<char>| c@);
                rest.insert(0, head);
                assert(rest@.map_values(|c: Vec<char>| c@) =~= seq![s@.take(i as int)] + before);
                rest
            }
        },
        None => {
            let mut r: Vec<Vec<char>> = Vec::new();
            if s.len() > 0 {
                let whole = subrange(s, 0, s.len());
                assert(whole@ =~= s@);
                r.push(whole);
                assert(r@.map_values(|c: Vec<char>| c@)[0] == s@);
                assert(r@.map_values(|c: Vec<char>| c@) =~= seq![s@]);
            } else {
                assert(r@.map_values(|c: Vec<char>| c@) =~= Seq::<Seq<char>>::empty());
            }
            r
        },
    }
}

/// The first `len` segments joined with `/`.
fn join_first(segs: &Vec<Vec<char>>, len: usize) -> (r: Vec<char>)
    requires
        len <= segs@.len(),
    ensures
        r@ == crate::scan::deps::paths::join_slash(
            segs@.map_values(|c: Vec<char>| c@).take(len as int),
        ),
{
    let ghost sv = segs@.map_values(|c: Vec<char>| c@);
    let mut r: Vec<char> = Vec::new();
    let mut k: usize = 0;
    while k < len
        invariant
            k <= len <= segs@.len(),
            sv == segs@.map_values(|c: Vec<char>| c@),
            r@ == crate::scan::deps::paths::join_slash(sv.take(k as int)),
        decreases len - k,
    {
        let ghost prev = r@;
        if k > 0 {
            r.push('/');
        }
        let seg = &segs[k];
        let mut j: usize = 0;
        let ghost mid = r@;
        while j < seg.len()
            invariant
                j <= seg@.len(),
                r@ == mid + seg@.take(j as int),
            decreases seg.len() - j,
        {
            r.push(seg[j]);
            assert(seg@.take(j + 1) =~= seg@.take(j as int).push(seg@[j as int]));
            j += 1;
        }
        assert(seg@.take(seg@.len() as int) =~= seg@);
        assert(sv[k as int] == seg@);
        assert(sv.take(k + 1).drop_last() =~= sv.take(k as int));
        if k == 0 {
            assert(r@ =~= sv.take(1)[0]);
        } else {
            assert(r@ =~= prev + seq!['/'] + sv[k as int]);
        }
        k += 1;
    }
    r
}

pub proof fn lemma_map_concat(a: Seq<Seq<Seq<char>>>, b: Seq<Seq<Seq<char>>>)
    ensures
        (a + b).map_values(|p: Seq<Seq<char>>| normalized(p)) == a.map_values(
            |p: Seq<Seq<char>>| normalized(p),
        ) + b.map_values(|p: Seq<Seq<char>>| normalized(p)),
{
    assert((a + b).map_values(|p: Seq<Seq<char>>| normalized(p)) =~= a.map_values(
        |p: Seq<Seq<char>>| normalized(p),
    ) + b.map_values(|p: Seq<Seq<char>>| normalized(p)));
}

/// Append the normalized candidates for the module path `path` under `base`.
fn push_module_candidates(base: &RelPath, path: &[char], out: &mut Vec<String>)
    ensures
        views(final(out)@) == views(old(out)@) + module_candidates(base@, path@).map_values(
            |p: Seq<Seq<char>>| normalized(p),
        ),
{
    let segs = segments_exec(path);
    let ghost sv = segs@.map_values(|c: Vec<char>| c@);
    let n = segs.len();
    let ghost start = views(old(out)@);
    let ghost total = module_candidates_upto(base@, sv, n as nat);
    let ghost mut acc: Seq<Seq<Seq<char>>> = Seq::empty();
    let exts: [&str; 1] = ["rs"];
    assert(exts@.map_values(|e: &str| e@) =~= seq!["rs"@]);
    let mut k: usize = n;
    while k > 0
        invariant
            k <= n == segs@.len(),
            sv == segs@.map_values(|c: Vec<char>| c@),
            exts@.map_values(|e: &str| e@) == seq!["rs"@],
            total == module_candidates_upto(base@, sv, n as nat),
            acc + module_candidates_upto(base@, sv, k as nat) == total,
            views(out@) == start + acc.map_values(|p: Seq<Seq<char>>| normalized(p)),
        decreases k,
    {
        let joined = join_first(&segs, k);
        let dir = base.join(joined.as_slice());
        let ghost pc = path_candidates(dir@, seq!["rs"@]);
        let ghost prev = views(out@);
        candidates_at(&dir, exts.as_slice(), out);
        proof {
            assert(views(out@) == prev + pc.map_values(|p: Seq<Seq<char>>| normalized(p)));
            lemma_map_concat(acc, pc);
            assert(module_candidates_upto(base@, sv, k as nat) == pc + module_candidates_upto(
                base@,
                sv,
                (k - 1) as nat,
            ));
            assert(acc + pc + module_candidates_upto(base@, sv, (k - 1) as nat) =~= total);
            acc = acc + pc;
        }
        k -= 1;
    }
    assert(acc =~= total);
}

/// Candidate files, normalized, for the Rust module path `raw` imported by
/// the file `importer`.
pub fn candidates(importer: &str, raw: &str) -> (r: Vec<String>)
    ensures
        views(r@) == rust_candidates(importer@, raw@),
{
    let imp = chars_of(importer);
    let current = RelPath::empty().join(imp.as_slice()).parent();
    assert(components(importer@) =~= Seq::<Seq<char>>::empty() + components(importer@));
    let rc = chars_of(raw);
    let t = trim_chars(rc.as_slice());
    let path = trim_end_matches_chars(t.as_slice(), ";");
    let mut out: Vec<String> = Vec::new();
    assert(views(out@) =~= Seq::<Seq<char>>::empty());
    match strip_prefix_chars(path.as_slice(), "crate::") {
        Some(rest) => {
            let src = chars_of("src/");
            let root = if starts_with_chars(imp.as_slice(), src.as_slice()) {
                let mut comps: Vec<Vec<char>> = Vec::new();
                comps.push(chars_of("src"));
                let p = RelPath { comps };
                assert(p@ =~= seq!["src"@]);
                p
            } else {
                RelPath::empty()
            };
            push_module_candidates(&root, rest.as_slice(), &mut out);
        },
        None => match strip_prefix_chars(path.as_slice(), "self::") {
            Some(rest) => {
                push_module_candidates(&current, rest.as_slice(), &mut out);
            },
            None => {
                let mut remaining = subrange(path.as_slice(), 0, path.len());
                let mut base = current.copy();
                let mut ups: usize = 0;
                let mut searching = true;
                assert(remaining@ =~= path@);
                while searching
                    invariant
                        ups <= path@.len(),
                        strip_supers(path@).0 == strip_supers(remaining@).0,
                        strip_supers(path@).1 == ups + strip_supers(remaining@).1,
                        base@ == ancestor(current@, ups as nat),
                        remaining@.len() + 7 * ups == path@.len(),
                        !searching ==> strip_prefix(remaining@, "super::"@) is None,
                    decreases remaining@.len() + if searching { 1int } else { 0int },
                {
                    match strip_prefix_chars(remaining.as_slice(), "super::") {
                        Some(rest) => {
                            proof {
                                reveal_strlit("super::");
                                lemma_ancestor_step(current@, ups as nat);
                                assert(strip_supers(remaining@) == (
                                    strip_supers(rest@).0,
                                    strip_supers(rest@).1 + 1,
                                ));
                                assert(rest@.len() + 7 == remaining@.len());
                            }
                            assert(ups < path.len());
                            remaining = rest;
                            base = base.parent();
                            ups += 1;
                        },
                        None => {
                            searching = false;
                        },
                    }
                }
                if ups > 0 {
                    push_module_candidates(&base, remaining.as_slice(), &mut out);
                } else {
                    assert(remaining@ == path@);
                    push_module_candidates(&current, path.as_slice(), &mut out);
                    let empty = RelPath::empty();
                    push_module_candidates(&empty, path.as_slice(), &mut out);
                    proof {
                        lemma_map_concat(
                            module_candidates(current@, path@),
                            module_candidates(Seq::empty(), path@),
                        );
                    }
                }
            },
        },
    }
    out
}

} // verus!
