//! Import extraction and relative-module resolution for JavaScript/TypeScript.

use vstd::prelude::*;

use crate::domain::dependency::views;
use crate::scan::deps::paths::{candidates_at, components, join, normalized, parent, path_candidates, RelPath};
use crate::scan::deps::{append_specs, import_views, over_lines, ImportSpec, ImportView};
use crate::text::{
    chars_of, copy_string, find, find_chars, is_whitespace, is_ws, lemma_find_facts,
    lemma_rfind_facts, lines_of, rsplit_once, rsplit_once_chars, split_char, split_on,
    starts_with, starts_with_chars, string_of, strip_prefix, strip_prefix_chars, subrange,
    text_lines, trim, trim_chars, trim_end_matches, trim_end_matches_chars,
};

verus! {

pub open spec fn is_quote(c: char) -> bool {
    c == '\'' || c == '"'
}

/// Index of the first quote character.
pub open spec fn quote_pos(s: Seq<char>) -> Option<int>
    decreases s.len(),
{
    if s.len() == 0 {
        None
    } else if is_quote(s[0]) {
        Some(0)
    } else {
        match quote_pos(s.drop_first()) {
            Some(i) => Some(i + 1),
            None => None,
        }
    }
}

/// The leading run of characters that are neither `,` nor whitespace.
pub open spec fn ident_prefix(s: Seq<char>) -> Seq<char>
    decreases s.len(),
{
    if s.len() == 0 || s[0] == ',' || is_ws(s[0]) {
        Seq::empty()
    } else {
        seq![s[0]] + ident_prefix(s.drop_first())
    }
}

/// The leading run of characters before a `?` or `#`.
pub open spec fn before_query(s: Seq<char>) -> Seq<char>
    decreases s.len(),
{
    if s.len() == 0 || s[0] == '?' || s[0] == '#' {
        Seq::empty()
    } else {
        seq![s[0]] + before_query(s.drop_first())
    }
}

/// The trailing run of characters after the last space or tab.
pub open spec fn after_last_blank(s: Seq<char>) -> Seq<char>
    decreases s.len(),
{
    if s.len() == 0 || s.last() == ' ' || s.last() == '\t' {
        Seq::empty()
    } else {
        after_last_blank(s.drop_last()).push(s.last())
    }
}

/// The text in the first quotes after the first `kw` of `line`.
pub open spec fn quoted_after(line: Seq<char>, kw: Seq<char>) -> Option<Seq<char>> {
    match find(line, kw) {
        Some(i) => {
            let tail = line.skip(i + kw.len());
            match quote_pos(tail) {
                Some(q) => {
                    let value = tail.skip(q + 1);
                    match find(value, seq![tail[q]]) {
                        Some(e) => Some(value.take(e)),
                        None => None,
                    }
                },
                None => None,
            }
        },
        None => None,
    }
}

/// The text before the first `p` (all of `s` when there is none).
pub open spec fn head_before(s: Seq<char>, p: Seq<char>) -> Seq<char> {
    match find(s, p) {
        Some(i) => s.take(i),
        None => s,
    }
}

/// The name bound by `name = require(..)`.
pub open spec fn assignment_name(prefix: Seq<char>) -> Seq<Seq<char>> {
    let left = trim(trim_end_matches(trim(prefix), "="@));
    let name = trim_end_matches(after_last_blank(left), ";"@);
    if name.len() == 0 || name == "const"@ || name == "let"@ || name == "var"@ {
        Seq::empty()
    } else {
        seq![name]
    }
}

/// The alias of a namespace import `* as name`.
pub open spec fn namespace_alias(clause: Seq<char>) -> Option<Seq<char>> {
    let rest = trim(clause);
    if rest.len() > 0 && rest[0] == '*' {
        match strip_prefix(trim(rest.skip(1)), "as "@) {
            Some(a) => {
                let alias = trim(ident_prefix(trim(a)));
                if alias.len() == 0 {
                    None
                } else {
                    Some(alias)
                }
            },
            None => None,
        }
    } else {
        None
    }
}

/// The name one item of a `{ .. }` list binds.
pub open spec fn named_item(item: Seq<char>) -> Option<Seq<char>> {
    let it = trim(item);
    if it.len() == 0 {
        None
    } else {
        let it2 = trim(
            match strip_prefix(it, "type "@) {
                Some(r) => r,
                None => it,
            },
        );
        let name = match rsplit_once(it2, " as "@) {
            Some((_, a)) => trim(a),
            None => trim(it2),
        };
        if name.len() == 0 {
            None
        } else {
            Some(name)
        }
    }
}

pub open spec fn named_of(items: Seq<Seq<char>>) -> Seq<Seq<char>>
    decreases items.len(),
{
    if items.len() == 0 {
        Seq::empty()
    } else {
        let prev = named_of(items.drop_last());
        match named_item(items.last()) {
            Some(n) => prev.push(n),
            None => prev,
        }
    }
}

/// Names bound by the inside of `{ .. }`.
pub open spec fn parse_named(inside: Seq<char>) -> Seq<Seq<char>> {
    named_of(split_char(inside, ','))
}

/// Names bound by an import clause (the part before ` from `).
pub open spec fn import_clause_bindings(clause: Seq<char>) -> Seq<Seq<char>> {
    match find(clause, "{"@) {
        Some(start) => {
            let named = match find(clause.skip(start), "}"@) {
                Some(end) => parse_named(clause.subrange(start + 1, start + end)),
                None => Seq::empty(),
            };
            let before = trim(trim_end_matches(trim(clause.take(start)), ","@));
            if before.len() > 0 && before[0] != '*' {
                seq![before] + named
            } else {
                match namespace_alias(before) {
                    Some(ns) => seq![ns] + named,
                    None => named,
                }
            }
        },
        None => match namespace_alias(clause) {
            Some(ns) => seq![ns],
            None => {
                let ident = ident_prefix(clause);
                if ident.len() > 0 && ident != "*"@ {
                    seq![ident]
                } else {
                    Seq::empty()
                }
            },
        },
    }
}

/// Names a trimmed line of JavaScript or TypeScript binds by importing.
pub open spec fn js_bindings(t: Seq<char>) -> Seq<Seq<char>> {
    if starts_with(t, "import("@) {
        Seq::empty()
    } else {
        match find(t, "require("@) {
            Some(idx) => assignment_name(t.take(idx)),
            None => {
                let clause = match strip_prefix(t, "import "@) {
                    Some(rest) => Some(trim(head_before(rest, " from "@))),
                    None => if starts_with(t, "export "@) && find(t, " from "@) is Some {
                        Some(trim(head_before(t.skip(7), " from "@)))
                    } else {
                        None
                    },
                };
                match clause {
                    Some(c) => if c.len() == 0 || is_quote(c[0]) {
                        Seq::empty()
                    } else {
                        import_clause_bindings(c)
                    },
                    None => Seq::empty(),
                }
            },
        }
    }
}

pub open spec fn opt_seq(o: Option<Seq<char>>) -> Seq<Seq<char>> {
    match o {
        Some(r) => seq![r],
        None => Seq::empty(),
    }
}

/// The module specifiers a trimmed line imports, in the order they are read.
pub open spec fn js_raws(t: Seq<char>) -> Seq<Seq<char>> {
    let r1 = if starts_with(t, "import "@) || starts_with(t, "import\t"@) || starts_with(
        t,
        "export "@,
    ) {
        match quoted_after(t, "from"@) {
            Some(r) => seq![r],
            None => if starts_with(t, "import"@) {
                opt_seq(quoted_after(t, "import"@))
            } else {
                Seq::empty()
            },
        }
    } else {
        Seq::empty()
    };
    let r2 = opt_seq(quoted_after(t, "require("@));
    let r3 = if starts_with(t, "import("@) {
        opt_seq(quoted_after(t, "import("@))
    } else {
        Seq::empty()
    };
    r1 + r2 + r3
}

/// The imports on one line.
#[verifier::opaque]
pub open spec fn js_line(line: Seq<char>, index: nat) -> Seq<ImportView> {
    let t = trim(line);
    js_raws(t).map_values(
        |r: Seq<char>| ImportView { raw: r, line: index + 1, bindings: js_bindings(t), display: t },
    )
}

/// The imports of a JavaScript or TypeScript source, in source order.
pub open spec fn js_imports(source: Seq<char>) -> Seq<ImportView> {
    over_lines(text_lines(source), |l: Seq<char>, i: nat| js_line(l, i))
}

/// Candidate files, normalized, for the specifier `raw` imported by
/// `importer`: only relative specifiers resolve.
pub open spec fn js_candidates(importer: Seq<char>, raw: Seq<char>) -> Seq<Seq<char>> {
    let r = trim(before_query(raw));
    if !starts_with(r, "."@) {
        Seq::empty()
    } else {
        path_candidates(
            join(parent(components(importer)), r),
            seq!["ts"@, "tsx"@, "js"@, "jsx"@],
        ).map_values(|p: Seq<Seq<char>>| normalized(p))
    }
}

fn quote_pos_exec(s: &[char]) -> (r: Option<usize>)
    ensures
        r matches Some(k) ==> quote_pos(s@) == Some(k as int) && k < s@.len(),
        r is None ==> quote_pos(s@) is None,
{
    let n = s.len();
    let mut i: usize = 0;
    assert(s@.skip(0) =~= s@);
    while i < n
        invariant
            n == s@.len(),
            i <= n,
            quote_pos(s@) == match quote_pos(s@.skip(i as int)) {
                Some(k) => Some(k + i),
                None => None::<int>,
            },
            forall|j: int| 0 <= j < i ==> !is_quote(#[trigger] s@[j]),
        decreases n - i,
    {
        assert(s@.skip(i as int)[0] == s@[i as int]);
        if s[i] == '\'' || s[i] == '"' {
            return Some(i);
        }
        assert(s@.skip(i as int).drop_first() =~= s@.skip(i + 1));
        i += 1;
    }
    assert(s@.skip(n as int) =~= Seq::<char>::empty());
    None
}

fn ident_prefix_exec(s: &[char]) -> (r: Vec<char>)
    ensures
        r@ == ident_prefix(s@),
{
    let mut out: Vec<char> = Vec::new();
    let mut i: usize = 0;
    assert(s@.skip(0) =~= s@);
    assert(out@ + ident_prefix(s@) =~= ident_prefix(s@));
    while i < s.len() && s[i] != ',' && !is_whitespace(s[i])
        invariant
            i <= s@.len(),
            out@ + ident_prefix(s@.skip(i as int)) == ident_prefix(s@),
        decreases s.len() - i,
    {
        assert(s@.skip(i as int).drop_first() =~= s@.skip(i + 1));
        let ghost before = out@;
        out.push(s[i]);
        assert(before.push(s@[i as int]) + ident_prefix(s@.skip(i + 1)) =~= before + (seq![
            s@[i as int],
        ] + ident_prefix(s@.skip(i + 1))));
        i += 1;
    }
    assert(ident_prefix(s@.skip(i as int)) =~= Seq::<char>::empty());
    assert(out@ + Seq::<char>::empty() =~= out@);
    out
}

fn before_query_exec(s: &[char]) -> (r: Vec<char>)
    ensures
        r@ == before_query(s@),
{
    let mut out: Vec<char> = Vec::new();
    let mut i: usize = 0;
    assert(s@.skip(0) =~= s@);
    assert(out@ + before_query(s@) =~= before_query(s@));
    while i < s.len() && s[i] != '?' && s[i] != '#'
        invariant
            i <= s@.len(),
            out@ + before_query(s@.skip(i as int)) == before_query(s@),
        decreases s.len() - i,
    {
        assert(s@.skip(i as int).drop_first() =~= s@.skip(i + 1));
        let ghost before = out@;
        out.push(s[i]);
        assert(before.push(s@[i as int]) + before_query(s@.skip(i + 1)) =~= before + (seq![
            s@[i as int],
        ] + before_query(s@.skip(i + 1))));
        i += 1;
    }
    assert(before_query(s@.skip(i as int)) =~= Seq::<char>::empty());
    assert(out@ + Seq::<char>::empty() =~= out@);
    out
}

fn after_last_blank_exec(s: &[char]) -> (r: Vec<char>)
    ensures
        r@ == after_last_blank(s@),
{
    let n = s.len();
    let mut j: usize = n;
    assert(s@.take(n as int) =~= s@);
    assert(s@.skip(n as int) =~= Seq::<char>::empty());
    while j > 0 && s[j - 1] != ' ' && s[j - 1] != '\t'
        invariant
            j <= n == s@.len(),
            after_last_blank(s@) == after_last_blank(s@.take(j as int)) + s@.skip(j as int),
        decreases j,
    {
        assert(s@.take(j as int).drop_last() =~= s@.take(j - 1));
        assert(s@.take(j as int).last() == s@[j - 1]);
        assert(after_last_blank(s@.take(j as int)) == after_last_blank(s@.take(j - 1)).push(
            s@[j - 1],
        ));
        assert(after_last_blank(s@.take(j - 1)).push(s@[j - 1]) + s@.skip(j as int)
            =~= after_last_blank(s@.take(j - 1)) + s@.skip(j - 1));
        j -= 1;
    }
    if j > 0 {
        assert(s@.take(j as int).last() == s@[j - 1]);
    }
    assert(after_last_blank(s@.take(j as int)) =~= Seq::<char>::empty());
    let r = subrange(s, j, n);
    assert(r@ =~= s@.skip(j as int));
    r
}

fn quoted_after_exec(line: &[char], kw: &str) -> (r: Option<Vec<char>>)
    ensures
        match quoted_after(line@, kw@) {
            Some(v) => r is Some && r.unwrap()@ == v,
            None => r is None,
        },
{
    let k = chars_of(kw);
    proof {
        lemma_find_facts(line@, kw@);
    }
    match find_chars(line, k.as_slice()) {
        Some(i) => {
            let n = line.len();
            let tail = subrange(line, i + k.len(), n);
            assert(tail@ =~= line@.skip(i + kw@.len()));
            match quote_pos_exec(tail.as_slice()) {
                Some(q) => {
                    let value = subrange(tail.as_slice(), q + 1, tail.len());
                    assert(value@ =~= tail@.skip(q + 1));
                    let mut quote: Vec<char> = Vec::new();
                    quote.push(tail[q]);
                    assert(quote@ =~= seq![tail@[q as int]]);
                    proof {
                        lemma_find_facts(value@, quote@);
                    }
                    match find_chars(value.as_slice(), quote.as_slice()) {
                        Some(e) => {
                            let v = subrange(value.as_slice(), 0, e);
                            assert(v@ =~= value@.take(e as int));
                            Some(v)
                        },
                        None => None,
                    }
                },
                None => None,
            }
        },
        None => None,
    }
}

fn head_before_exec(s: &[char], p: &str) -> (r: Vec<char>)
    ensures
        r@ == head_before(s@, p@),
{
    let pc = chars_of(p);
    proof {
        lemma_find_facts(s@, p@);
    }
    match find_chars(s, pc.as_slice()) {
        Some(i) => {
            let r = subrange(s, 0, i);
            assert(r@ =~= s@.take(i as int));
            r
        },
        None => subrange(s, 0, s.len()),
    }
}

fn lit_eq(s: &[char], l: &str) -> (b: bool)
    ensures
        b == (s@ == l@),
{
    let c = chars_of(l);
    crate::text::eq_chars(s, c.as_slice())
}

fn single(name: &[char]) -> (r: Vec<String>)
    ensures
        views(r@) == seq![name@],
{
    let mut r: Vec<String> = Vec::new();
    r.push(string_of(name));
    assert(views(r@) =~= seq![name@]);
    r
}

fn assignment_name_exec(prefix: &[char]) -> (r: Vec<String>)
    ensures
        views(r@) == assignment_name(prefix@),
{
    let a = trim_chars(prefix);
    let b = trim_end_matches_chars(a.as_slice(), "=");
    let left = trim_chars(b.as_slice());
    let last = after_last_blank_exec(left.as_slice());
    let name = trim_end_matches_chars(last.as_slice(), ";");
    if name.len() == 0 || lit_eq(name.as_slice(), "const") || lit_eq(name.as_slice(), "let")
        || lit_eq(name.as_slice(), "var") {
        let r: Vec<String> = Vec::new();
        assert(views(r@) =~= Seq::<Seq<char>>::empty());
        r
    } else {
        single(name.as_slice())
    }
}

fn namespace_alias_exec(clause: &[char]) -> (r: Option<Vec<char>>)
    ensures
        match namespace_alias(clause@) {
            Some(a) => r is Some && r.unwrap()@ == a,
            None => r is None,
        },
{
    let rest = trim_chars(clause);
    if rest.len() > 0 && rest[0] == '*' {
        let after = subrange(rest.as_slice(), 1, rest.len());
        assert(after@ =~= rest@.skip(1));
        let t = trim_chars(after.as_slice());
        match strip_prefix_chars(t.as_slice(), "as ") {
            Some(a) => {
                let a2 = trim_chars(a.as_slice());
                let piece = ident_prefix_exec(a2.as_slice());
                let alias = trim_chars(piece.as_slice());
                if alias.len() == 0 {
                    None
                } else {
                    Some(alias)
                }
            },
            None => None,
        }
    } else {
        None
    }
}

fn named_item_exec(item: &[char]) -> (r: Option<Vec<char>>)
    ensures
        match named_item(item@) {
            Some(n) => r is Some && r.unwrap()@ == n,
            None => r is None,
        },
{
    let it = trim_chars(item);
    if it.len() == 0 {
        return None;
    }
    let stripped = match strip_prefix_chars(it.as_slice(), "type ") {
        Some(r) => r,
        None => {
            let w = subrange(it.as_slice(), 0, it.len());
            assert(w@ =~= it@);
            w
        },
    };
    assert(stripped@ == match strip_prefix(it@, "type "@) {
        Some(r) => r,
        None => it@,
    });
    let it2 = trim_chars(stripped.as_slice());
    let name = match rsplit_once_chars(it2.as_slice(), " as ") {
        Some((_, a)) => trim_chars(a.as_slice()),
        None => trim_chars(it2.as_slice()),
    };
    if name.len() == 0 {
        None
    } else {
        Some(name)
    }
}

fn parse_named_exec(inside: &[char]) -> (r: Vec<String>)
    ensures
        views(r@) == parse_named(inside@),
{
    let items = split_on(inside, ',');
    let ghost sp = split_char(inside@, ',');
    let mut r: Vec<String> = Vec::new();
    let mut i: usize = 0;
    while i < items.len()
        invariant
            i <= items@.len(),
            items@.len() == sp.len(),
            forall|q: int| 0 <= q < items@.len() ==> #[trigger] items@[q]@ == sp[q],
            views(r@) == named_of(sp.take(i as int)),
        decreases items.len() - i,
    {
        assert(sp.take(i + 1).drop_last() =~= sp.take(i as int));
        match named_item_exec(items[i].as_slice()) {
            Some(n) => {
                let ghost before = views(r@);
                r.push(string_of(n.as_slice()));
                assert(views(r@) =~= before.push(n@));
            },
            None => {},
        }
        i += 1;
    }
    assert(sp.take(sp.len() as int) =~= sp);
    r
}

fn clause_bindings(clause: &[char]) -> (r: Vec<String>)
    ensures
        views(r@) == import_clause_bindings(clause@),
{
    let open = chars_of("{");
    proof {
        lemma_find_facts(clause@, "{"@);
        reveal_strlit("{");
        reveal_strlit("}");
    }
    match find_chars(clause, open.as_slice()) {
        Some(start) => {
            let n = clause.len();
            let from = subrange(clause, start, n);
            assert(from@ =~= clause@.skip(start as int));
            let close = chars_of("}");
            proof {
                lemma_find_facts(from@, "}"@);
            }
            let mut r = match find_chars(from.as_slice(), close.as_slice()) {
                Some(end) => {
                    assert(from@[0] == '{');
                    assert(end >= 1) by {
                        if end == 0 {
                            assert(from@.subrange(0, 1)[0] == '}');
                        }
                    }
                    let inside = subrange(clause, start + 1, start + end);
                    assert(inside@ =~= clause@.subrange(start + 1, start + end));
                    parse_named_exec(inside.as_slice())
                },
                None => {
                    let e: Vec<String> = Vec::new();
                    assert(views(e@) =~= Seq::<Seq<char>>::empty());
                    e
                },
            };
            let ghost named = views(r@);
            let head = subrange(clause, 0, start);
            assert(head@ =~= clause@.take(start as int));
            let h1 = trim_chars(head.as_slice());
            let h2 = trim_end_matches_chars(h1.as_slice(), ",");
            let before = trim_chars(h2.as_slice());
            if before.len() > 0 && before[0] != '*' {
                r.insert(0, string_of(before.as_slice()));
                assert(views(r@) =~= seq![before@] + named);
            } else {
                match namespace_alias_exec(before.as_slice()) {
                    Some(ns) => {
                        r.insert(0, string_of(ns.as_slice()));
                        assert(views(r@) =~= seq![ns@] + named);
                    },
                    None => {},
                }
            }
            r
        },
        None => match namespace_alias_exec(clause) {
            Some(ns) => single(ns.as_slice()),
            None => {
                let ident = ident_prefix_exec(clause);
                if ident.len() > 0 && !lit_eq(ident.as_slice(), "*") {
                    single(ident.as_slice())
                } else {
                    let e: Vec<String> = Vec::new();
                    assert(views(e@) =~= Seq::<Seq<char>>::empty());
                    e
                }
            },
        },
    }
}

fn no_names() -> (r: Vec<String>)
    ensures
        views(r@) == Seq::<Seq<char>>::empty(),
{
    let r: Vec<String> = Vec::new();
    assert(views(r@) =~= Seq::<Seq<char>>::empty());
    r
}

fn js_bindings_exec(t: &[char]) -> (r: Vec<String>)
    ensures
        views(r@) == js_bindings(t@),
{
    let ip = chars_of("import(");
    if starts_with_chars(t, ip.as_slice()) {
        return no_names();
    }
    let req = chars_of("require(");
    match find_chars(t, req.as_slice()) {
        Some(idx) => {
            proof {
                lemma_find_facts(t@, "require("@);
            }
            let pre = subrange(t, 0, idx);
            assert(pre@ =~= t@.take(idx as int));
            assignment_name_exec(pre.as_slice())
        },
        None => {
            let clause: Option<Vec<char>> = match strip_prefix_chars(t, "import ") {
                Some(rest) => {
                    let h = head_before_exec(rest.as_slice(), " from ");
                    Some(trim_chars(h.as_slice()))
                },
                None => {
                    let ex = chars_of("export ");
                    let fr = chars_of(" from ");
                    if starts_with_chars(t, ex.as_slice()) && find_chars(t, fr.as_slice()).is_some() {
                        proof {
                            reveal_strlit("export ");
                        }
                        let after = subrange(t, 7, t.len());
                        assert(after@ =~= t@.skip(7));
                        let h = head_before_exec(after.as_slice(), " from ");
                        Some(trim_chars(h.as_slice()))
                    } else {
                        None
                    }
                },
            };
            match clause {
                Some(c) => {
                    if c.len() == 0 || c[0] == '\'' || c[0] == '"' {
                        no_names()
                    } else {
                        clause_bindings(c.as_slice())
                    }
                },
                None => no_names(),
            }
        },
    }
}

fn push_opt(raws: &mut Vec<Vec<char>>, o: Option<Vec<char>>)
    ensures
        final(raws)@.map_values(|v: Vec<char>| v@) == old(raws)@.map_values(|v: Vec<char>| v@)
            + opt_seq(
            match o {
                Some(v) => Some(v@),
                None => None,
            },
        ),
{
    let ghost before = raws@.map_values(|v: Vec<char>| v@);
    match o {
        Some(v) => {
            let ghost vv = v@;
            raws.push(v);
            assert(raws@.map_values(|v: Vec<char>| v@) =~= before + seq![vv]);
        },
        None => {
            assert(raws@.map_values(|v: Vec<char>| v@) =~= before + Seq::<Seq<char>>::empty());
        },
    }
}

fn copy_strings(v: &Vec<String>) -> (r: Vec<String>)
    ensures
        views(r@) == views(v@),
{
    let mut r: Vec<String> = Vec::new();
    let mut i: usize = 0;
    while i < v.len()
        invariant
            i <= v@.len(),
            r@.len() == i,
            views(r@) == views(v@).take(i as int),
        decreases v.len() - i,
    {
        let c = copy_string(&v[i]);
        r.push(c);
        assert(r@[i as int]@ == v@[i as int]@);
        assert(views(r@) =~= views(v@).take(i + 1));
        i += 1;
    }
    assert(views(v@).take(v@.len() as int) =~= views(v@));
    r
}

fn js_raws_exec(t: &[char]) -> (raws: Vec<Vec<char>>)
    ensures
        raws@.map_values(|v: Vec<char>| v@) == js_raws(t@),
{
    let mut raws: Vec<Vec<char>> = Vec::new();
    assert(raws@.map_values(|v: Vec<char>| v@) =~= Seq::<Seq<char>>::empty());
    let a = chars_of("import ");
    let b = chars_of("import\t");
    let c = chars_of("export ");
    if starts_with_chars(t, a.as_slice()) || starts_with_chars(t, b.as_slice())
        || starts_with_chars(t, c.as_slice()) {
        match quoted_after_exec(t, "from") {
            Some(r) => {
                push_opt(&mut raws, Some(r));
            },
            None => {
                let im = chars_of("import");
                if starts_with_chars(t, im.as_slice()) {
                    let q = quoted_after_exec(t, "import");
                    push_opt(&mut raws, q);
                }
            },
        }
    }
    let q2 = quoted_after_exec(t, "require(");
    push_opt(&mut raws, q2);
    let ip = chars_of("import(");
    if starts_with_chars(t, ip.as_slice()) {
        let q3 = quoted_after_exec(t, "import(");
        push_opt(&mut raws, q3);
    }
    assert(raws@.map_values(|v: Vec<char>| v@) =~= js_raws(t@));
    raws
}

fn js_line_exec(line: &[char], index: usize) -> (r: Vec<ImportSpec>)
    requires
        index < usize::MAX,
    ensures
        import_views(r@) == js_line(line@, index as nat),
{
    let t = trim_chars(line);
    let ghost tv = t@;
    let raws = js_raws_exec(t.as_slice());
    let ghost rv = raws@.map_values(|v: Vec<char>| v@);
    let bindings = js_bindings_exec(t.as_slice());
    let ghost bv = js_bindings(tv);
    let mut out: Vec<ImportSpec> = Vec::new();
    let mut i: usize = 0;
    while i < raws.len()
        invariant
            i <= raws@.len(),
            rv == raws@.map_values(|v: Vec<char>| v@),
            tv == t@,
            views(bindings@) == bv,
            index < usize::MAX,
            out@.len() == i,
            forall|q: int|
                0 <= q < i ==> (#[trigger] out@[q]).raw@ == rv[q] && out@[q].line == index + 1
                    && views(out@[q].bindings@) == bv && out@[q].display@ == tv,
        decreases raws.len() - i,
    {
        let spec = ImportSpec {
            raw: string_of(raws[i].as_slice()),
            line: index + 1,
            bindings: copy_strings(&bindings),
            display: string_of(t.as_slice()),
        };
        out.push(spec);
        i += 1;
    }
    proof {
        reveal(js_line);
        assert(import_views(out@) =~= js_line(line@, index as nat));
    }
    out
}

/// The imports of a JavaScript or TypeScript source, in source order.
pub fn imports(source: &str) -> (r: Vec<ImportSpec>)
    ensures
        import_views(r@) == js_imports(source@),
{
    let lines = lines_of(source);
    let ghost tl = text_lines(source@);
    let mut out: Vec<ImportSpec> = Vec::new();
    let mut i: usize = 0;
    while i < lines.len()
        invariant
            i <= lines@.len(),
            lines@.len() == tl.len(),
            forall|q: int| 0 <= q < lines@.len() ==> #[trigger] lines@[q]@ == tl[q],
            import_views(out@) == over_lines(tl.take(i as int), |l: Seq<char>, j: nat| js_line(l, j)),
        decreases lines.len() - i,
    {
        assert(tl.take(i + 1).drop_last() =~= tl.take(i as int));
        let more = js_line_exec(lines[i].as_slice(), i);
        append_specs(&mut out, more);
        i += 1;
    }
    assert(tl.take(tl.len() as int) =~= tl);
    out
}

/// Candidate files, normalized, for the specifier `raw` imported by the file
/// `importer`; empty unless `raw` is relative.
pub fn candidates(importer: &str, raw: &str) -> (r: Vec<String>)
    ensures
        views(r@) == js_candidates(importer@, raw@),
{
    let rc = chars_of(raw);
    let head = before_query_exec(rc.as_slice());
    let r = trim_chars(head.as_slice());
    let mut out: Vec<String> = Vec::new();
    assert(views(out@) =~= Seq::<Seq<char>>::empty());
    let dot = chars_of(".");
    if !starts_with_chars(r.as_slice(), dot.as_slice()) {
        return out;
    }
    let imp = chars_of(importer);
    let current = RelPath::empty().join(imp.as_slice()).parent();
    assert(Seq::<Seq<char>>::empty() + components(importer@) =~= components(importer@));
    assert(current@ == parent(components(importer@)));
    let base = current.join(r.as_slice());
    let exts: [&str; 4] = ["ts", "tsx", "js", "jsx"];
    assert(exts@.map_values(|e: &str| e@) =~= seq!["ts"@, "tsx"@, "js"@, "jsx"@]);
    candidates_at(&base, exts.as_slice(), &mut out);
    assert(views(out@) =~= Seq::<Seq<char>>::empty() + path_candidates(
        base@,
        seq!["ts"@, "tsx"@, "js"@, "jsx"@],
    ).map_values(|p: Seq<Seq<char>>| normalized(p)));
    out
}

} // verus!
