//! Lightweight Python import resolver.

use vstd::prelude::*;

use crate::domain::dependency::views;
use crate::scan::deps::paths::{candidates_at, components, join, normalized, parent, path_candidates, RelPath};
use crate::scan::deps::rust::{ancestor, lemma_ancestor_step, lemma_map_concat};
use crate::scan::deps::{append_specs, import_views, over_lines, ImportSpec, ImportView};
use crate::text::{
    chars_of, first_word, first_word_chars, last_piece, last_piece_chars, lines_of, split_char,
    split_once, split_once_chars, split_on, string_of, strip_prefix, strip_prefix_chars, subrange,
    text_lines, trim, trim_chars,
};

verus! {

/// The name one item after `from .. import` binds.
pub open spec fn from_item(item: Seq<char>) -> Option<Seq<char>> {
    let it = trim(item);
    if it.len() == 0 || it == "*"@ {
        None
    } else {
        let name = match split_once(it, " as "@) {
            Some((_, a)) => trim(a),
            None => match first_word(it) {
                Some(w) => w,
                None => Seq::empty(),
            },
        };
        if name.len() == 0 {
            None
        } else {
            Some(name)
        }
    }
}

pub open spec fn from_names(items: Seq<Seq<char>>) -> Seq<Seq<char>>
    decreases items.len(),
{
    if items.len() == 0 {
        Seq::empty()
    } else {
        let prev = from_names(items.drop_last());
        match from_item(items.last()) {
            Some(n) => prev.push(n),
            None => prev,
        }
    }
}

/// Names bound by `from <module> import ..` (`rest` is the text after `from `).
pub open spec fn from_import_bindings(rest: Seq<char>) -> Seq<Seq<char>> {
    match split_once(rest, " import "@) {
        Some((_, imported)) => from_names(split_char(imported, ',')),
        None => Seq::empty(),
    }
}

/// The name one item of `import a, b.c as d` binds.
pub open spec fn import_binding(item: Seq<char>) -> Option<Seq<char>> {
    let it = trim(item);
    match split_once(it, " as "@) {
        Some((_, a)) => {
            let alias = trim(a);
            if alias.len() == 0 {
                None
            } else {
                Some(alias)
            }
        },
        None => match first_word(it) {
            Some(m) => {
                let name = last_piece(m, "."@);
                if name.len() == 0 {
                    None
                } else {
                    Some(name)
                }
            },
            None => None,
        },
    }
}

pub open spec fn opt_names(o: Option<Seq<char>>) -> Seq<Seq<char>> {
    match o {
        Some(n) => seq![n],
        None => Seq::empty(),
    }
}

/// The imports of the items of an `import` line.
pub open spec fn import_items(items: Seq<Seq<char>>, index: nat, display: Seq<char>) -> Seq<ImportView>
    decreases items.len(),
{
    if items.len() == 0 {
        Seq::empty()
    } else {
        let prev = import_items(items.drop_last(), index, display);
        match first_word(items.last()) {
            Some(m) => prev.push(
                ImportView {
                    raw: m,
                    line: index + 1,
                    bindings: opt_names(import_binding(items.last())),
                    display,
                },
            ),
            None => prev,
        }
    }
}

/// The imports on one line of Python.
pub open spec fn py_line(line: Seq<char>, index: nat) -> Seq<ImportView> {
    let t = trim(line);
    match strip_prefix(t, "from "@) {
        Some(rest) => match first_word(rest) {
            Some(module) => seq![
                ImportView {
                    raw: module,
                    line: index + 1,
                    bindings: from_import_bindings(rest),
                    display: t,
                },
            ],
            None => Seq::empty(),
        },
        None => match strip_prefix(t, "import "@) {
            Some(rest) => import_items(split_char(rest, ','), index, t),
            None => Seq::empty(),
        },
    }
}

/// The imports of a Python source, in source order.
pub open spec fn py_imports(source: Seq<char>) -> Seq<ImportView> {
    over_lines(text_lines(source), |l: Seq<char>, i: nat| py_line(l, i))
}

/// The number of leading `.` of a module path.
pub open spec fn leading_dots(s: Seq<char>) -> nat
    decreases s.len(),
{
    if s.len() > 0 && s[0] == '.' {
        1 + leading_dots(s.drop_first())
    } else {
        0
    }
}

/// A dotted module path with `.` turned into `/`.
pub open spec fn slashed(s: Seq<char>) -> Seq<char> {
    s.map_values(|c: char| if c == '.' { '/' } else { c })
}

/// Candidate files, normalized, for a Python module imported by `importer`:
/// relative modules climb one directory per extra leading dot.
pub open spec fn py_candidates(importer: Seq<char>, raw: Seq<char>) -> Seq<Seq<char>> {
    let current = parent(components(importer));
    let dots = leading_dots(raw);
    let mod_path = slashed(raw.skip(dots as int));
    let exts = seq!["py"@, "pyi"@];
    let found = if dots > 0 {
        path_candidates(join(ancestor(current, (dots - 1) as nat), mod_path), exts)
    } else {
        path_candidates(join(current, mod_path), exts) + path_candidates(
            join(Seq::empty(), mod_path),
            exts,
        )
    };
    found.map_values(|p: Seq<Seq<char>>| normalized(p))
}

/// An absolute (dot-less) module is looked up from the repository root,
/// whichever file imports it: every candidate for an importer at the root is
/// also a candidate for any importer.
pub proof fn law_absolute_imports_try_the_root(importer: Seq<char>, raw: Seq<char>)
    requires
        leading_dots(raw) == 0,
    ensures
        forall|c: Seq<char>|
            py_candidates(Seq::empty(), raw).contains(c) ==> py_candidates(importer, raw).contains(c),
{
    let mod_path = slashed(raw.skip(0));
    let exts = seq!["py"@, "pyi"@];
    assert(split_char(Seq::<char>::empty(), '/') == seq![Seq::<char>::empty()]);
    let pieces = seq![Seq::<char>::empty()];
    assert(pieces.drop_last() =~= Seq::<Seq<char>>::empty());
    assert(pieces.last().len() == 0);
    assert(crate::scan::deps::paths::comps_of(pieces.drop_last()) =~= Seq::<Seq<char>>::empty());
    assert(crate::scan::deps::paths::comps_of(pieces) =~= Seq::<Seq<char>>::empty());
    assert(components(Seq::<char>::empty()) =~= Seq::<Seq<char>>::empty());
    assert(parent(components(Seq::<char>::empty())) =~= Seq::<Seq<char>>::empty());
    let top = path_candidates(join(Seq::empty(), mod_path), exts);
    let local = path_candidates(join(parent(components(importer)), mod_path), exts);
    let root_all = top + top;
    let all = local + top;
    assert(py_candidates(Seq::empty(), raw) == root_all.map_values(|p: Seq<Seq<char>>| normalized(p)));
    assert(py_candidates(importer, raw) == all.map_values(|p: Seq<Seq<char>>| normalized(p)));
    assert forall|c: Seq<char>| py_candidates(Seq::empty(), raw).contains(c) implies py_candidates(
        importer,
        raw,
    ).contains(c) by {
        let rv = root_all.map_values(|p: Seq<Seq<char>>| normalized(p));
        let k = choose|k: int| 0 <= k < rv.len() && rv[k] == c;
        let x = root_all[k];
        let j: int = if k < top.len() { k } else { k - top.len() };
        assert(x == top[j]);
        let av = all.map_values(|p: Seq<Seq<char>>| normalized(p));
        assert(all[local.len() + j] == top[j]);
        assert(av[local.len() + j] == c);
    }
}

fn from_item_exec(item: &[char]) -> (r: Option<Vec<char>>)
    ensures
        match from_item(item@) {
            Some(n) => r is Some && r.unwrap()@ == n,
            None => r is None,
        },
{
    let it = trim_chars(item);
    if it.len() == 0 || (it.len() == 1 && it[0] == '*') {
        proof {
            reveal_strlit("*");
            if it@.len() == 1 {
                assert(it@ =~= "*"@);
            }
        }
        return None;
    }
    proof {
        reveal_strlit("*");
        assert(it@ != "*"@);
    }
    let name = match split_once_chars(it.as_slice(), " as ") {
        Some((_, a)) => trim_chars(a.as_slice()),
        None => match first_word_chars(it.as_slice()) {
            Some(w) => w,
            None => Vec::new(),
        },
    };
    if name.len() == 0 {
        None
    } else {
        Some(name)
    }
}

fn from_import_bindings_exec(rest: &[char]) -> (r: Vec<String>)
    ensures
        views(r@) == from_import_bindings(rest@),
{
    let mut r: Vec<String> = Vec::new();
    match split_once_chars(rest, " import ") {
        Some((_, imported)) => {
            let items = split_on(imported.as_slice(), ',');
            let ghost sp = split_char(imported@, ',');
            let mut i: usize = 0;
            while i < items.len()
                invariant
                    i <= items@.len(),
                    items@.len() == sp.len(),
                    forall|q: int| 0 <= q < items@.len() ==> #[trigger] items@[q]@ == sp[q],
                    views(r@) == from_names(sp.take(i as int)),
                decreases items.len() - i,
            {
                assert(sp.take(i + 1).drop_last() =~= sp.take(i as int));
                match from_item_exec(items[i].as_slice()) {
                    Some(n) => {
                        let ghost before = views(r@);
                        r.push(string_of(n.as_slice()));
                        assert(views(r@) =~= before.push(n@));
                    },
                    None => {},
                }
                i += 1;
            }
            assert(sp.take(sp.len() as int) =~= sp);
        },
        None => {
            assert(views(r@) =~= Seq::<Seq<char>>::empty());
        },
    }
    r
}

fn import_binding_exec(item: &[char]) -> (r: Vec<String>)
    ensures
        views(r@) == opt_names(import_binding(item@)),
{
    let it = trim_chars(item);
    let mut r: Vec<String> = Vec::new();
    match split_once_chars(it.as_slice(), " as ") {
        Some((_, a)) => {
            let alias = trim_chars(a.as_slice());
            if alias.len() > 0 {
                r.push(string_of(alias.as_slice()));
            }
        },
        None => match first_word_chars(it.as_slice()) {
            Some(m) => {
                let name = last_piece_chars(m.as_slice(), ".");
                if name.len() > 0 {
                    r.push(string_of(name.as_slice()));
                }
            },
            None => {},
        },
    }
    assert(views(r@) =~= opt_names(import_binding(item@)));
    r
}

fn py_line_exec(line: &[char], index: usize) -> (r: Vec<ImportSpec>)
    requires
        index < usize::MAX,
    ensures
        import_views(r@) == py_line(line@, index as nat),
{
    let t = trim_chars(line);
    let mut out: Vec<ImportSpec> = Vec::new();
    match strip_prefix_chars(t.as_slice(), "from ") {
        Some(rest) => {
            match first_word_chars(rest.as_slice()) {
                Some(module) => {
                    out.push(
                        ImportSpec {
                            raw: string_of(module.as_slice()),
                            line: index + 1,
                            bindings: from_import_bindings_exec(rest.as_slice()),
                            display: string_of(t.as_slice()),
                        },
                    );
                },
                None => {},
            }
            assert(import_views(out@) =~= py_line(line@, index as nat));
        },
        None => {
            match strip_prefix_chars(t.as_slice(), "import ") {
                Some(rest) => {
                    let items = split_on(rest.as_slice(), ',');
                    let ghost sp = split_char(rest@, ',');
                    let mut i: usize = 0;
                    while i < items.len()
                        invariant
                            i <= items@.len(),
                            items@.len() == sp.len(),
                            forall|q: int| 0 <= q < items@.len() ==> #[trigger] items@[q]@ == sp[q],
                            index < usize::MAX,
                            import_views(out@) == import_items(sp.take(i as int), index as nat, t@),
                        decreases items.len() - i,
                    {
                        assert(sp.take(i + 1).drop_last() =~= sp.take(i as int));
                        assert(sp.take(i + 1).last() == sp[i as int]);
                        match first_word_chars(items[i].as_slice()) {
                            Some(m) => {
                                let ghost before = import_views(out@);
                                out.push(
                                    ImportSpec {
                                        raw: string_of(m.as_slice()),
                                        line: index + 1,
                                        bindings: import_binding_exec(items[i].as_slice()),
                                        display: string_of(t.as_slice()),
                                    },
                                );
                                assert(import_views(out@) =~= before.push(
                                    ImportView {
                                        raw: m@,
                                        line: index as nat + 1,
                                        bindings: opt_names(import_binding(sp[i as int])),
                                        display: t@,
                                    },
                                ));
                            },
                            None => {},
                        }
                        i += 1;
                    }
                    assert(sp.take(sp.len() as int) =~= sp);
                },
                None => {
                    assert(import_views(out@) =~= Seq::<ImportView>::empty());
                },
            }
        },
    }
    out
}

/// The imports of a Python source, in source order.
pub fn imports(source: &str) -> (r: Vec<ImportSpec>)
    ensures
        import_views(r@) == py_imports(source@),
{
    let lines = lines_of(source);
    let ghost tl = text_lines(source@);
    let mut out: Vec<ImportSpec> = Vec::new();
    let mut i: usize = 0;
    while i < lines.len()
        invariant
            i <= lines@.len(),
            lines@.len() == tl.len(),
            forall|q: int| 0 <= q < lines@.len() ==> #[trigger] lines@[q]@ == tl[q],
            import_views(out@) == over_lines(tl.take(i as int), |l: Seq<char>, j: nat| py_line(l, j)),
        decreases lines.len() - i,
    {
        assert(tl.take(i + 1).drop_last() =~= tl.take(i as int));
        let more = py_line_exec(lines[i].as_slice(), i);
        append_specs(&mut out, more);
        i += 1;
    }
    assert(tl.take(tl.len() as int) =~= tl);
    out
}

/// Candidate files, normalized, for the Python module `raw` imported by the
/// file `importer`.
pub fn candidates(importer: &str, raw: &str) -> (r: Vec<String>)
    ensures
        views(r@) == py_candidates(importer@, raw@),
{
    let rc = chars_of(raw);
    let n = rc.len();
    let mut dots: usize = 0;
    assert(rc@.skip(0) =~= rc@);
    while dots < n && rc[dots] == '.'
        invariant
            dots <= n == rc@.len(),
            leading_dots(rc@) == dots + leading_dots(rc@.skip(dots as int)),
        decreases n - dots,
    {
        assert(rc@.skip(dots as int).drop_first() =~= rc@.skip(dots + 1));
        dots += 1;
    }
    assert(leading_dots(rc@.skip(dots as int)) == 0);
    let mut mod_path: Vec<char> = Vec::new();
    let mut k: usize = dots;
    while k < n
        invariant
            dots <= k <= n == rc@.len(),
            mod_path@ == slashed(rc@.skip(dots as int)).take(k - dots),
        decreases n - k,
    {
        let c = if rc[k] == '.' {
            '/'
        } else {
            rc[k]
        };
        mod_path.push(c);
        assert(mod_path@ =~= slashed(rc@.skip(dots as int)).take(k + 1 - dots));
        k += 1;
    }
    assert(slashed(rc@.skip(dots as int)).take(n - dots) =~= slashed(rc@.skip(dots as int)));
    let imp = chars_of(importer);
    let current = RelPath::empty().join(imp.as_slice()).parent();
    assert(Seq::<Seq<char>>::empty() + components(importer@) =~= components(importer@));
    assert(current@ == parent(components(importer@)));
    let exts: [&str; 2] = ["py", "pyi"];
    assert(exts@.map_values(|e: &str| e@) =~= seq!["py"@, "pyi"@]);
    let mut out: Vec<String> = Vec::new();
    assert(views(out@) =~= Seq::<Seq<char>>::empty());
    if dots > 0 {
        let mut base = current.copy();
        let mut u: usize = 1;
        while u < dots
            invariant
                1 <= u <= dots,
                base@ == ancestor(current@, (u - 1) as nat),
            decreases dots - u,
        {
            proof {
                lemma_ancestor_step(current@, (u - 1) as nat);
            }
            base = base.parent();
            u += 1;
        }
        let dir = base.join(mod_path.as_slice());
        candidates_at(&dir, exts.as_slice(), &mut out);
        assert(views(out@) =~= path_candidates(dir@, seq!["py"@, "pyi"@]).map_values(
            |p: Seq<Seq<char>>| normalized(p),
        ));
    } else {
        let local = current.join(mod_path.as_slice());
        candidates_at(&local, exts.as_slice(), &mut out);
        let top = RelPath::empty().join(mod_path.as_slice());
        candidates_at(&top, exts.as_slice(), &mut out);
        proof {
            lemma_map_concat(
                path_candidates(local@, seq!["py"@, "pyi"@]),
                path_candidates(top@, seq!["py"@, "pyi"@]),
            );
        }
        assert(views(out@) =~= (path_candidates(local@, seq!["py"@, "pyi"@]) + path_candidates(
            top@,
            seq!["py"@, "pyi"@],
        )).map_values(|p: Seq<Seq<char>>| normalized(p)));
    }
    out
}

} // verus!
