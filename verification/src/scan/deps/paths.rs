//! Relative paths as component lists, the way `std::path` reads them, for
//! building and normalizing import candidates.

use vstd::prelude::*;

use crate::text::{
    chars_of, last_char_index, last_char_pos, lemma_last_char_index, lemma_split_char_nonempty,
    split_char, split_on, string_of, subrange,
};

verus! {

/// The components of a relative path: pieces between `/`, without empty
/// pieces and `.`.
pub open spec fn comps_of(pieces: Seq<Seq<char>>) -> Seq<Seq<char>>
    decreases pieces.len(),
{
    if pieces.len() == 0 {
        Seq::empty()
    } else {
        let prev = comps_of(pieces.drop_last());
        let p = pieces.last();
        if p.len() == 0 || p == seq!['.'] {
            prev
        } else {
            prev.push(p)
        }
    }
}

pub open spec fn components(s: Seq<char>) -> Seq<Seq<char>> {
    comps_of(split_char(s, '/'))
}

/// `base` joined with the relative path `s`.
pub open spec fn join(base: Seq<Seq<char>>, s: Seq<char>) -> Seq<Seq<char>> {
    base + components(s)
}

/// The parent directory (`""` for a path with one component or none).
pub open spec fn parent(p: Seq<Seq<char>>) -> Seq<Seq<char>> {
    if p.len() == 0 {
        p
    } else {
        p.drop_last()
    }
}

/// The stem of a file name, as `Path::file_stem`.
pub open spec fn stem(name: Seq<char>) -> Seq<char> {
    if name == ".."@ {
        name
    } else {
        match last_char_index(name, '.') {
            Some(i) => if i == 0 {
                name
            } else {
                name.take(i)
            },
            None => name,
        }
    }
}

/// The path with its extension set to `ext`, as `Path::with_extension`.
pub open spec fn with_ext(p: Seq<Seq<char>>, ext: Seq<char>) -> Seq<Seq<char>> {
    if p.len() == 0 || p.last() == ".."@ {
        p
    } else {
        p.drop_last().push(stem(p.last()) + seq!['.'] + ext)
    }
}

/// Resolve `..` against the components before it.
pub open spec fn resolved(p: Seq<Seq<char>>) -> Seq<Seq<char>>
    decreases p.len(),
{
    if p.len() == 0 {
        Seq::empty()
    } else {
        let prev = resolved(p.drop_last());
        if p.last() == ".."@ {
            if prev.len() == 0 {
                prev
            } else {
                prev.drop_last()
            }
        } else {
            prev.push(p.last())
        }
    }
}

/// Components joined with `/`.
pub open spec fn join_slash(p: Seq<Seq<char>>) -> Seq<char>
    decreases p.len(),
{
    if p.len() == 0 {
        Seq::empty()
    } else if p.len() == 1 {
        p[0]
    } else {
        join_slash(p.drop_last()) + seq!['/'] + p.last()
    }
}

/// The normalized text of a relative path.
pub open spec fn normalized(p: Seq<Seq<char>>) -> Seq<char> {
    join_slash(resolved(p))
}

/// A path as a list of component texts.
pub struct RelPath {
    pub comps: Vec<Vec<char>>,
}

impl View for RelPath {
    type V = Seq<Seq<char>>;

    open spec fn view(&self) -> Seq<Seq<char>> {
        self.comps@.map_values(|c: Vec<char>| c@)
    }
}

pub fn copy_chars(v: &Vec<char>) -> (r: Vec<char>)
    ensures
        r@ == v@,
{
    subrange(v.as_slice(), 0, v.len())
}

impl RelPath {
    pub fn empty() -> (p: RelPath)
        ensures
            p@ == Seq::<Seq<char>>::empty(),
    {
        let p = RelPath { comps: Vec::new() };
        assert(p@ =~= Seq::<Seq<char>>::empty());
        p
    }

    pub fn copy(&self) -> (p: RelPath)
        ensures
            p@ == self@,
    {
        let mut comps: Vec<Vec<char>> = Vec::new();
        let mut i: usize = 0;
        while i < self.comps.len()
            invariant
                i <= self.comps@.len(),
                comps@.len() == i,
                forall|q: int| 0 <= q < i ==> #[trigger] comps@[q]@ == self.comps@[q]@,
            decreases self.comps.len() - i,
        {
            comps.push(copy_chars(&self.comps[i]));
            i += 1;
        }
        let p = RelPath { comps };
        assert(p@ =~= self@);
        p
    }

    /// This path joined with the relative path `s`.
    pub fn join(&self, s: &[char]) -> (p: RelPath)
        ensures
            p@ == join(self@, s@),
    {
        let mut p = self.copy();
        let pieces = split_on(s, '/');
        let ghost sp = split_char(s@, '/');
        let ghost base = self@;
        let mut i: usize = 0;
        while i < pieces.len()
            invariant
                i <= pieces@.len(),
                pieces@.len() == sp.len(),
                forall|q: int| 0 <= q < pieces@.len() ==> #[trigger] pieces@[q]@ == sp[q],
                p@ == base + comps_of(sp.take(i as int)),
            decreases pieces.len() - i,
        {
            assert(sp.take(i + 1).drop_last() =~= sp.take(i as int));
            let piece = &pieces[i];
            let is_dot = piece.len() == 1 && piece[0] == '.';
            proof {
                if is_dot {
                    assert(piece@ =~= seq!['.']);
                }
                if piece@ == seq!['.'] {
                    assert(piece@.len() == 1 && piece@[0] == '.');
                }
            }
            if piece.len() > 0 && !is_dot {
                let ghost before = p@;
                p.comps.push(copy_chars(piece));
                assert(p@ =~= before.push(piece@));
            }
            i += 1;
        }
        assert(sp.take(sp.len() as int) =~= sp);
        p
    }

    pub fn parent(&self) -> (p: RelPath)
        ensures
            p@ == parent(self@),
    {
        let mut p = self.copy();
        if p.comps.len() > 0 {
            let ghost before = p@;
            p.comps.pop();
            assert(p@ =~= before.drop_last());
        }
        p
    }

    pub fn with_ext(&self, ext: &str) -> (p: RelPath)
        ensures
            p@ == with_ext(self@, ext@),
    {
        let mut p = self.copy();
        let n = p.comps.len();
        if n == 0 {
            return p;
        }
        let dots = chars_of("..");
        if crate::text::eq_chars(p.comps[n - 1].as_slice(), dots.as_slice()) {
            return p;
        }
        let last = copy_chars(&p.comps[n - 1]);
        let ghost before = p@;
        assert(last@ == before.last());
        let stem_chars = stem_of(&last);
        let mut name = stem_chars;
        name.push('.');
        assert(name@ =~= stem(before.last()) + seq!['.']);
        let e = chars_of(ext);
        let mut k: usize = 0;
        let ghost base = name@;
        while k < e.len()
            invariant
                k <= e@.len(),
                name@ == base + e@.take(k as int),
            decreases e.len() - k,
        {
            name.push(e[k]);
            assert(e@.take(k + 1) =~= e@.take(k as int).push(e@[k as int]));
            k += 1;
        }
        assert(e@.take(e@.len() as int) =~= e@);
        assert(name@ =~= stem(before.last()) + seq!['.'] + ext@);
        p.comps.pop();
        assert(p@ =~= before.drop_last());
        let ghost mid = p@;
        p.comps.push(name);
        assert(p@ =~= mid.push(stem(before.last()) + seq!['.'] + ext@));
        p
    }

    /// The normalized text of this path.
    pub fn normalized(&self) -> (s: String)
        ensures
            s@ == normalized(self@),
    {
        let mut out: Vec<Vec<char>> = Vec::new();
        let mut i: usize = 0;
        while i < self.comps.len()
            invariant
                i <= self.comps@.len(),
                out@.map_values(|c: Vec<char>| c@) == resolved(self@.take(i as int)),
            decreases self.comps.len() - i,
        {
            assert(self@.take(i + 1).drop_last() =~= self@.take(i as int));
            let c = &self.comps[i];
            let ghost before = out@.map_values(|c: Vec<char>| c@);
            let is_up = c.len() == 2 && c[0] == '.' && c[1] == '.';
            proof {
                reveal_strlit("..");
            }
            proof {
                if is_up {
                    assert(c@ =~= ".."@);
                }
                if c@ == ".."@ {
                    assert(c@.len() == 2 && c@[0] == '.' && c@[1] == '.');
                }
            }
            if is_up {
                if out.len() > 0 {
                    out.pop();
                    assert(out@.map_values(|c: Vec<char>| c@) =~= before.drop_last());
                }
            } else {
                out.push(copy_chars(c));
                assert(out@.map_values(|c: Vec<char>| c@) =~= before.push(c@));
            }
            i += 1;
        }
        assert(self@.take(self@.len() as int) =~= self@);
        let mut text: Vec<char> = Vec::new();
        let mut j: usize = 0;
        let ghost rs = out@.map_values(|c: Vec<char>| c@);
        while j < out.len()
            invariant
                j <= out@.len(),
                rs == out@.map_values(|c: Vec<char>| c@),
                text@ == join_slash(rs.take(j as int)),
            decreases out.len() - j,
        {
            assert(rs.take(j + 1).drop_last() =~= rs.take(j as int));
            if j > 0 {
                text.push('/');
            }
            let c = &out[j];
            let mut k: usize = 0;
            let ghost base = text@;
            while k < c.len()
                invariant
                    k <= c@.len(),
                    text@ == base + c@.take(k as int),
                decreases c.len() - k,
            {
                text.push(c[k]);
                assert(c@.take(k + 1) =~= c@.take(k as int).push(c@[k as int]));
                k += 1;
            }
            assert(c@.take(c@.len() as int) =~= c@);
            assert(rs.take(j + 1).last() == c@);
            j += 1;
        }
        assert(rs.take(rs.len() as int) =~= rs);
        string_of(text.as_slice())
    }
}

fn stem_of(name: &Vec<char>) -> (s: Vec<char>)
    ensures
        s@ == stem(name@),
{
    let dots = chars_of("..");
    if crate::text::eq_chars(name.as_slice(), dots.as_slice()) {
        return copy_chars(name);
    }
    proof {
        lemma_last_char_index(name@, '.');
    }
    match last_char_pos(name.as_slice(), '.') {
        Some(i) => if i == 0 {
            copy_chars(name)
        } else {
            subrange(name.as_slice(), 0, i)
        },
        None => copy_chars(name),
    }
}

/// Candidate files for a module at `base`: the path itself, with each
/// extension, and the `index` / `mod` / `__init__` file inside it.
pub open spec fn path_candidates(base: Seq<Seq<char>>, exts: Seq<Seq<char>>) -> Seq<Seq<Seq<char>>> {
    seq![base] + exts.map_values(|e: Seq<char>| with_ext(base, e)) + exts.map_values(
        |e: Seq<char>|
            seq![
                join(base, "index."@ + e),
                join(base, "mod."@ + e),
                join(base, "__init__."@ + e),
            ],
    ).flatten()
}

fn prefixed(prefix: &str, ext: &str) -> (r: Vec<char>)
    ensures
        r@ == prefix@ + ext@,
{
    let mut r = chars_of(prefix);
    let e = chars_of(ext);
    let mut k: usize = 0;
    let ghost base = r@;
    while k < e.len()
        invariant
            k <= e@.len(),
            r@ == base + e@.take(k as int),
        decreases e.len() - k,
    {
        r.push(e[k]);
        assert(e@.take(k + 1) =~= e@.take(k as int).push(e@[k as int]));
        k += 1;
    }
    assert(e@.take(e@.len() as int) =~= e@);
    r
}

/// The normalized texts of the candidate files for a module at `base`.
pub fn candidates_at(base: &RelPath, exts: &[&str], out: &mut Vec<String>)
    ensures
        final(out)@.map_values(|s: String| s@) == old(out)@.map_values(|s: String| s@) + path_candidates(
            base@,
            exts@.map_values(|e: &str| e@),
        ).map_values(|p: Seq<Seq<char>>| normalized(p)),
{
    let ghost ev = exts@.map_values(|e: &str| e@);
    let ghost start = old(out)@.map_values(|s: String| s@);
    let ghost all = path_candidates(base@, ev).map_values(|p: Seq<Seq<char>>| normalized(p));
    proof {
        lemma_candidates_len(base@, ev);
    }
    out.push(base.normalized());
    assert(out@.map_values(|s: String| s@) =~= start + all.take(1));
    let n = exts.len();
    let mut i: usize = 0;
    while i < n
        invariant
            n == exts@.len(),
            ev == exts@.map_values(|e: &str| e@),
            all == path_candidates(base@, ev).map_values(|p: Seq<Seq<char>>| normalized(p)),
            all.len() == 1 + 4 * n,
            i <= n,
            out@.map_values(|s: String| s@) == start + all.take(1 + i),
        decreases n - i,
    {
        let p = base.with_ext(exts[i]);
        let ghost prev = out@.map_values(|s: String| s@);
        out.push(p.normalized());
        proof {
            lemma_candidates_ext(base@, ev, i as int);
            assert(all[1 + i] == normalized(with_ext(base@, ev[i as int])));
            assert(all.take(1 + i + 1) =~= all.take(1 + i).push(all[1 + i]));
        }
        assert(out@.map_values(|s: String| s@) =~= prev.push(all[1 + i]));
        i += 1;
    }
    let mut j: usize = 0;
    while j < n
        invariant
            n == exts@.len(),
            ev == exts@.map_values(|e: &str| e@),
            all == path_candidates(base@, ev).map_values(|p: Seq<Seq<char>>| normalized(p)),
            all.len() == 1 + 4 * n,
            j <= n,
            out@.map_values(|s: String| s@) == start + all.take(1 + n + 3 * j),
        decreases n - j,
    {
        let a = prefixed("index.", exts[j]);
        let b = prefixed("mod.", exts[j]);
        let c = prefixed("__init__.", exts[j]);
        let ghost prev = out@.map_values(|s: String| s@);
        out.push(base.join(a.as_slice()).normalized());
        out.push(base.join(b.as_slice()).normalized());
        out.push(base.join(c.as_slice()).normalized());
        proof {
            lemma_candidates_tail(base@, ev, j as int);
            let k = 1 + n + 3 * j;
            assert(all[k] == normalized(join(base@, "index."@ + ev[j as int])));
            assert(all[k + 1] == normalized(join(base@, "mod."@ + ev[j as int])));
            assert(all[k + 2] == normalized(join(base@, "__init__."@ + ev[j as int])));
            assert(all.take(k + 3) =~= all.take(k).push(all[k]).push(all[k + 1]).push(all[k + 2]));
        }
        assert(out@.map_values(|s: String| s@) =~= prev.push(all[1 + n + 3 * j]).push(
            all[1 + n + 3 * j + 1],
        ).push(all[1 + n + 3 * j + 2]));
        j += 1;
    }
    assert(all.take(1 + 4 * n) =~= all);
}

proof fn lemma_candidates_len(base: Seq<Seq<char>>, exts: Seq<Seq<char>>)
    ensures
        path_candidates(base, exts).len() == 1 + 4 * exts.len(),
{
    let triples = exts.map_values(
        |e: Seq<char>|
            seq![
                join(base, "index."@ + e),
                join(base, "mod."@ + e),
                join(base, "__init__."@ + e),
            ],
    );
    lemma_flatten_triples(triples);
}

proof fn lemma_candidates_ext(base: Seq<Seq<char>>, exts: Seq<Seq<char>>, i: int)
    requires
        0 <= i < exts.len(),
    ensures
        path_candidates(base, exts)[1 + i] == with_ext(base, exts[i]),
{
}

proof fn lemma_candidates_tail(base: Seq<Seq<char>>, exts: Seq<Seq<char>>, j: int)
    requires
        0 <= j < exts.len(),
    ensures
        path_candidates(base, exts).len() == 1 + 4 * exts.len(),
        path_candidates(base, exts)[1 + exts.len() + 3 * j] == join(base, "index."@ + exts[j]),
        path_candidates(base, exts)[1 + exts.len() + 3 * j + 1] == join(base, "mod."@ + exts[j]),
        path_candidates(base, exts)[1 + exts.len() + 3 * j + 2] == join(base, "__init__."@ + exts[j]),
{
    let triples = exts.map_values(
        |e: Seq<char>|
            seq![
                join(base, "index."@ + e),
                join(base, "mod."@ + e),
                join(base, "__init__."@ + e),
            ],
    );
    lemma_flatten_triples(triples);
    lemma_flatten_at(triples, j);
}

proof fn lemma_flatten_triples(t: Seq<Seq<Seq<Seq<char>>>>)
    requires
        forall|i: int| 0 <= i < t.len() ==> #[trigger] t[i].len() == 3,
    ensures
        t.flatten().len() == 3 * t.len(),
    decreases t.len(),
{
    if t.len() > 0 {
        lemma_flatten_triples(t.drop_first());
    }
}

proof fn lemma_flatten_at(t: Seq<Seq<Seq<Seq<char>>>>, j: int)
    requires
        forall|i: int| 0 <= i < t.len() ==> #[trigger] t[i].len() == 3,
        0 <= j < t.len(),
    ensures
        t.flatten()[3 * j] == t[j][0],
        t.flatten()[3 * j + 1] == t[j][1],
        t.flatten()[3 * j + 2] == t[j][2],
    decreases t.len(),
{
    lemma_flatten_triples(t.drop_first());
    if j > 0 {
        lemma_flatten_at(t.drop_first(), j - 1);
    }
}

} // verus!
