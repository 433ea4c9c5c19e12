//! Search modal: GitHub references typed directly, or fuzzy matches among
//! recent and cached repositories. No network access.

use vstd::prelude::*;

use crate::source::git::{parse_github_input, parse_github_spec};
use crate::store::RecentRepo;
use crate::text::{
    chars_of, contains, copy_string, occurs_at, find, find_chars, lemma_find_facts, lex_less, lex_lt, push_str,
    str_eq, trim, trim_chars, split_once, split_once_chars,
};
use crate::ui::wrap_move;

verus! {

/// A selectable search hit.
#[derive(Debug, Clone, PartialEq, Eq)]
pub struct SearchHit {
    /// Text shown in the candidate list.
    pub label: String,
    /// Value opened when the hit is chosen.
    pub input: String,
    pub score: u32,
}

/// Modal editing state.
#[derive(Debug, Clone, Default)]
pub struct SearchState {
    pub query: String,
    pub hits: Vec<SearchHit>,
    pub selected: usize,
}

/// std's `char::to_lowercase`: the lowercase mapping of a character (one or
/// more characters).
pub uninterp spec fn char_lowercase(c: char) -> Seq<char>;

/// std's `char::to_lowercase`, collected; what it yields is named
/// `char_lowercase`.
#[verifier::external_body]
fn lower_char(c: char) -> (r: Vec<char>)
    ensures
        r@ == char_lowercase(c),
{
    c.to_lowercase().collect()
}

/// The characters of `s`, each replaced by its lowercase mapping.
pub open spec fn lowercase(s: Seq<char>) -> Seq<char>
    decreases s.len(),
{
    if s.len() == 0 {
        Seq::empty()
    } else {
        lowercase(s.drop_last()) + char_lowercase(s.last())
    }
}

fn lowercase_chars(s: &str) -> (r: Vec<char>)
    ensures
        r@ == lowercase(s@),
{
    let c = chars_of(s);
    let mut r: Vec<char> = Vec::new();
    let mut i: usize = 0;
    while i < c.len()
        invariant
            i <= c@.len(),
            c@ == s@,
            r@ == lowercase(c@.take(i as int)),
        decreases c.len() - i,
    {
        assert(c@.take(i + 1).drop_last() =~= c@.take(i as int));
        let l = lower_char(c[i]);
        let ghost before = r@;
        let mut k: usize = 0;
        while k < l.len()
            invariant
                k <= l@.len(),
                r@ == before + l@.take(k as int),
            decreases l.len() - k,
        {
            r.push(l[k]);
            assert(l@.take(k + 1) =~= l@.take(k as int).push(l@[k as int]));
            k += 1;
        }
        assert(l@.take(l@.len() as int) =~= l@);
        i += 1;
    }
    assert(c@.take(c@.len() as int) =~= c@);
    r
}

/// Walking `c` left to right: how much of `q` was matched in order, and how
/// many characters were passed over between the first match and the last.
pub open spec fn subsequence_scan(q: Seq<char>, c: Seq<char>) -> (nat, nat)
    decreases c.len(),
{
    if c.len() == 0 {
        (0, 0)
    } else {
        let (qi, gaps) = subsequence_scan(q, c.drop_last());
        if qi < q.len() && c.last() == q[qi as int] {
            ((qi + 1) as nat, gaps)
        } else if qi > 0 && qi < q.len() {
            (qi, gaps + 1)
        } else {
            (qi, gaps)
        }
    }
}

/// Case-insensitive fuzzy score of already lowercased texts: a substring
/// match scores 1000 at the start and 500 elsewhere, plus 10 per query
/// character; an in-order match scores 100 plus 10 per query character,
/// less one per skipped character (at most 99); no match scores nothing.
pub open spec fn fuzzy_spec(q: Seq<char>, c: Seq<char>) -> Option<nat> {
    if q.len() == 0 {
        Some(0)
    } else if contains(c, q) {
        Some(
            (if find(c, q) == Some(0int) {
                1000nat
            } else {
                500nat
            }) + q.len() * 10,
        )
    } else {
        let (qi, gaps) = subsequence_scan(q, c);
        if qi == q.len() {
            Some((100 + q.len() * 10 - if gaps < 99 { gaps } else { 99 }) as nat)
        } else {
            None
        }
    }
}

/// `f` picks, in increasing order, a position of `c` for each character of
/// `p` holding that character.
pub open spec fn embedding(f: Seq<int>, p: Seq<char>, c: Seq<char>) -> bool {
    &&& f.len() == p.len()
    &&& forall|i: int, j: int| 0 <= i < j < f.len() ==> f[i] < f[j]
    &&& forall|i: int| 0 <= i < f.len() ==> 0 <= #[trigger] f[i] < c.len() && c[f[i]] == p[i]
}

/// The characters of `p` occur in `c` in order, not necessarily together.
pub open spec fn is_subsequence(p: Seq<char>, c: Seq<char>) -> bool {
    exists|f: Seq<int>| #[trigger] embedding(f, p, c)
}

proof fn lemma_scan_bounded(q: Seq<char>, c: Seq<char>)
    ensures
        subsequence_scan(q, c).0 <= q.len(),
    decreases c.len(),
{
    if c.len() > 0 {
        lemma_scan_bounded(q, c.drop_last());
    }
}

/// The greedy scan matches a prefix of `q` that occurs in order in `c`.
proof fn lemma_scan_embeds(q: Seq<char>, c: Seq<char>)
    ensures
        is_subsequence(q.take(subsequence_scan(q, c).0 as int), c),
    decreases c.len(),
{
    lemma_scan_bounded(q, c);
    if c.len() == 0 {
        let f = Seq::<int>::empty();
        assert(embedding(f, q.take(0), c));
    } else {
        let c0 = c.drop_last();
        lemma_scan_embeds(q, c0);
        lemma_scan_bounded(q, c0);
        let m = subsequence_scan(q, c0).0;
        let f0 = choose|f: Seq<int>| #[trigger] embedding(f, q.take(m as int), c0);
        if m < q.len() && c.last() == q[m as int] {
            let f = f0.push(c0.len() as int);
            assert forall|i: int| 0 <= i < f.len() implies 0 <= #[trigger] f[i] < c.len() && c[f[i]]
                == q.take(m as int + 1)[i] by {
                if i < m {
                    assert(f[i] == f0[i]);
                    assert(c0[f0[i]] == q.take(m as int)[i]);
                }
            }
            assert forall|i: int, j: int| 0 <= i < j < f.len() implies f[i] < f[j] by {
                if j < m {
                    assert(f[i] == f0[i] && f[j] == f0[j]);
                } else {
                    assert(f[i] == f0[i]);
                    assert(0 <= f0[i] < c0.len());
                }
            }
            assert(embedding(f, q.take(m as int + 1), c));
        } else {
            assert forall|i: int| 0 <= i < f0.len() implies 0 <= #[trigger] f0[i] < c.len() && c[f0[i]]
                == q.take(m as int)[i] by {
                assert(c0[f0[i]] == q.take(m as int)[i]);
            }
            assert(embedding(f0, q.take(m as int), c));
        }
    }
}

/// Any prefix of `q` that occurs in order in `c` is matched by the greedy scan.
proof fn lemma_scan_finds(q: Seq<char>, c: Seq<char>, k: int)
    requires
        0 <= k <= q.len(),
        is_subsequence(q.take(k), c),
    ensures
        k <= subsequence_scan(q, c).0,
    decreases c.len(),
{
    if k > 0 {
        let f = choose|f: Seq<int>| #[trigger] embedding(f, q.take(k), c);
        assert(0 <= f[k - 1] < c.len());
        let c0 = c.drop_last();
        let m = subsequence_scan(q, c0).0;
        if f[k - 1] < c0.len() {
            assert forall|i: int| 0 <= i < f.len() implies 0 <= #[trigger] f[i] < c0.len() && c0[f[i]]
                == q.take(k)[i] by {
                if i < k - 1 {
                    assert(f[i] < f[k - 1]);
                }
            }
            assert(embedding(f, q.take(k), c0));
            lemma_scan_finds(q, c0, k);
        } else {
            let g = f.drop_last();
            assert forall|i: int| 0 <= i < g.len() implies 0 <= #[trigger] g[i] < c0.len() && c0[g[i]]
                == q.take(k - 1)[i] by {
                assert(g[i] == f[i]);
                assert(f[i] < f[k - 1]);
                assert(c[f[i]] == q.take(k)[i]);
            }
            assert(embedding(g, q.take(k - 1), c0));
            lemma_scan_finds(q, c0, k - 1);
            lemma_scan_bounded(q, c0);
            assert(c.last() == c[f[k - 1]]);
            assert(c[f[k - 1]] == q.take(k)[k - 1]);
        }
    }
}

/// A query that occurs as a whole in `c` also occurs there in order.
proof fn lemma_contains_subsequence(q: Seq<char>, c: Seq<char>)
    requires
        contains(c, q),
    ensures
        is_subsequence(q, c),
{
    let i = choose|i: int| occurs_at(c, q, i);
    let f = Seq::new(q.len(), |j: int| i + j);
    assert forall|j: int| 0 <= j < f.len() implies 0 <= #[trigger] f[j] < c.len() && c[f[j]] == q[j] by {
        assert(c.subrange(i, i + q.len())[j] == c[i + j]);
    }
    assert(embedding(f, q, c));
}

/// A query scores exactly when it is empty or its characters occur in order
/// in the candidate.
pub proof fn law_fuzzy_matches_subsequences(q: Seq<char>, c: Seq<char>)
    ensures
        fuzzy_spec(q, c) is Some <==> (q.len() == 0 || is_subsequence(q, c)),
{
    if q.len() > 0 {
        if contains(c, q) {
            lemma_contains_subsequence(q, c);
        } else {
            lemma_scan_bounded(q, c);
            lemma_scan_embeds(q, c);
            assert(q.take(q.len() as int) =~= q);
            if is_subsequence(q, c) {
                lemma_scan_finds(q, c, q.len() as int);
            }
        }
    }
}

/// The fuzzy score of `candidate` for `query`, ignoring case.
pub fn fuzzy_score(query: &str, candidate: &str) -> (r: Option<u32>)
    requires
        lowercase(query@).len() <= 429_496_629,
        lowercase(candidate@).len() <= u32::MAX,
    ensures
        match fuzzy_spec(lowercase(query@), lowercase(candidate@)) {
            Some(n) => r == Some(n as u32),
            None => r is None,
        },
        r is Some <==> (lowercase(query@).len() == 0 || is_subsequence(
            lowercase(query@),
            lowercase(candidate@),
        )),
{
    proof {
        law_fuzzy_matches_subsequences(lowercase(query@), lowercase(candidate@));
    }
    let q = lowercase_chars(query);
    let c = lowercase_chars(candidate);
    fuzzy_lowered(&q, &c)
}

fn fuzzy_lowered(q: &Vec<char>, c: &Vec<char>) -> (r: Option<u32>)
    requires
        q@.len() <= 429_496_629,
        c@.len() <= u32::MAX,
    ensures
        match fuzzy_spec(q@, c@) {
            Some(n) => r == Some(n as u32),
            None => r is None,
        },
{
    if q.len() == 0 {
        return Some(0);
    }
    let ql = q.len() as u32;
    proof {
        lemma_find_facts(c@, q@);
    }
    match find_chars(c.as_slice(), q.as_slice()) {
        Some(pos) => {
            let bonus: u32 = if pos == 0 {
                1000
            } else {
                500
            };
            return Some(bonus + ql * 10);
        },
        None => {},
    }
    let mut qi: usize = 0;
    let mut gaps: u32 = 0;
    let mut i: usize = 0;
    while i < c.len()
        invariant
            i <= c@.len() <= u32::MAX,
            (qi as nat, gaps as nat) == subsequence_scan(q@, c@.take(i as int)),
            qi <= q@.len(),
            gaps <= i,
        decreases c.len() - i,
    {
        assert(c@.take(i + 1).drop_last() =~= c@.take(i as int));
        assert(c@.take(i + 1).last() == c@[i as int]);
        if qi < q.len() && c[i] == q[qi] {
            qi += 1;
        } else if qi > 0 && qi < q.len() {
            gaps += 1;
        }
        i += 1;
    }
    assert(c@.take(c@.len() as int) =~= c@);
    if qi == q.len() {
        let g = if gaps < 99 {
            gaps
        } else {
            99
        };
        Some(100 + ql * 10 - g)
    } else {
        None
    }
}

/// A hit as plain values.
pub ghost struct HitView {
    pub label: Seq<char>,
    pub input: Seq<char>,
    pub score: nat,
}

pub open spec fn hit_view(h: SearchHit) -> HitView {
    HitView { label: h.label@, input: h.input@, score: h.score as nat }
}

pub open spec fn hit_views(s: Seq<SearchHit>) -> Seq<HitView> {
    s.map_values(|h: SearchHit| hit_view(h))
}

/// The candidates: every recent repository, then each cached one whose label
/// is not already listed.
pub open spec fn candidates_spec(recent: Seq<RecentRepo>, cached: Seq<(Seq<char>, Seq<char>)>) -> Seq<
    (Seq<char>, Seq<char>),
>
    decreases cached.len(),
{
    if cached.len() == 0 {
        recent.map_values(|r: RecentRepo| (r.display_name@, r.input@))
    } else {
        let prev = candidates_spec(recent, cached.drop_last());
        if exists|i: int| 0 <= i < prev.len() && (#[trigger] prev[i]).0 == cached.last().0 {
            prev
        } else {
            prev.push(cached.last())
        }
    }
}

/// Whether the lowered texts are within the lengths the score is computed for.
pub open spec fn scorable(q: Seq<char>, c: Seq<char>) -> bool {
    lowercase(q).len() <= 429_496_629 && lowercase(c).len() <= u32::MAX
}

/// The score of a candidate for the trimmed query: every candidate scores 1
/// for an empty query; otherwise its label's score, else its input's.
/// Texts too long to score do not match.
pub open spec fn candidate_score(q: Seq<char>, label: Seq<char>, input: Seq<char>) -> Option<nat> {
    if q.len() == 0 {
        Some(1)
    } else {
        let by_label = if scorable(q, label) {
            fuzzy_spec(lowercase(q), lowercase(label))
        } else {
            None
        };
        match by_label {
            Some(s) => Some(s),
            None => if scorable(q, input) {
                fuzzy_spec(lowercase(q), lowercase(input))
            } else {
                None
            },
        }
    }
}

/// The scored candidates, in candidate order.
pub open spec fn scored_spec(q: Seq<char>, cands: Seq<(Seq<char>, Seq<char>)>) -> Seq<HitView>
    decreases cands.len(),
{
    if cands.len() == 0 {
        Seq::empty()
    } else {
        let prev = scored_spec(q, cands.drop_last());
        match candidate_score(q, cands.last().0, cands.last().1) {
            Some(s) => prev.push(HitView { label: cands.last().0, input: cands.last().1, score: s }),
            None => prev,
        }
    }
}

/// Hit order: higher score first, then label.
pub open spec fn hit_before(a: HitView, b: HitView) -> bool {
    a.score > b.score || (a.score == b.score && lex_lt(a.label, b.label))
}

/// The first position of `s` whose hit `x` goes before.
pub open spec fn insert_pos(s: Seq<HitView>, x: HitView) -> nat
    decreases s.len(),
{
    if s.len() == 0 {
        0
    } else if hit_before(x, s[0]) {
        0
    } else {
        1 + insert_pos(s.drop_first(), x)
    }
}

/// The hits in stable sorted order (each placed after the ones it does not
/// go before).
pub open spec fn sorted_hits(s: Seq<HitView>) -> Seq<HitView>
    decreases s.len(),
{
    if s.len() == 0 {
        Seq::empty()
    } else {
        let prev = sorted_hits(s.drop_last());
        prev.insert(insert_pos(prev, s.last()) as int, s.last())
    }
}

/// `hits` followed by those of `more` whose input is not yet listed.
pub open spec fn append_new(hits: Seq<HitView>, more: Seq<HitView>) -> Seq<HitView>
    decreases more.len(),
{
    if more.len() == 0 {
        hits
    } else {
        let prev = append_new(hits, more.drop_last());
        if exists|i: int| 0 <= i < prev.len() && (#[trigger] prev[i]).input == more.last().input {
            prev
        } else {
            prev.push(more.last())
        }
    }
}

/// The hits for a query: a GitHub reference first, then the scored
/// candidates best first (one per input), at most 20.
pub open spec fn hits_spec(
    query: Seq<char>,
    recent: Seq<RecentRepo>,
    cached: Seq<(Seq<char>, Seq<char>)>,
) -> Seq<HitView> {
    let q = trim(query);
    let first = match parse_github_spec(q) {
        Some((o, r)) => seq![
            HitView { label: o + "/"@ + r + "  (open)"@, input: o + "/"@ + r, score: u32::MAX as nat },
        ],
        None => Seq::empty(),
    };
    let all = append_new(first, sorted_hits(scored_spec(q, candidates_spec(recent, cached))));
    if all.len() > 20 {
        all.take(20)
    } else {
        all
    }
}

proof fn lemma_insert_pos(s: Seq<HitView>, x: HitView, j: int)
    requires
        0 <= j <= s.len(),
        forall|k: int| 0 <= k < j ==> !hit_before(x, #[trigger] s[k]),
        j == s.len() || hit_before(x, s[j]),
    ensures
        insert_pos(s, x) == j,
    decreases s.len(),
{
    if s.len() > 0 && j > 0 {
        assert forall|k: int| 0 <= k < j - 1 implies !hit_before(x, #[trigger] s.drop_first()[k]) by {
            assert(s.drop_first()[k] == s[k + 1]);
        }
        if j < s.len() {
            assert(s.drop_first()[j - 1] == s[j]);
        }
        lemma_insert_pos(s.drop_first(), x, j - 1);
        assert(!hit_before(x, s[0]));
    }
}

fn hit_is_before(a: &SearchHit, b: &SearchHit) -> (r: bool)
    ensures
        r == hit_before(hit_view(*a), hit_view(*b)),
{
    a.score > b.score || (a.score == b.score && lex_less(
        chars_of(a.label.as_str()).as_slice(),
        chars_of(b.label.as_str()).as_slice(),
    ))
}

fn copy_hit(h: &SearchHit) -> (r: SearchHit)
    ensures
        hit_view(r) == hit_view(*h),
{
    SearchHit { label: copy_string(&h.label), input: copy_string(&h.input), score: h.score }
}

fn candidate_score_exec(q: &str, label: &str, input: &str) -> (r: Option<u32>)
    ensures
        match candidate_score(q@, label@, input@) {
            Some(n) => r == Some(n as u32),
            None => r is None,
        },
{
    let qc = chars_of(q);
    if qc.len() == 0 {
        return Some(1);
    }
    let ql = lowercase_chars(q);
    let by_label = if ql.len() <= 429_496_629 {
        let ll = lowercase_chars(label);
        if ll.len() <= 4294967295 {
            fuzzy_lowered(&ql, &ll)
        } else {
            None
        }
    } else {
        None
    };
    match by_label {
        Some(s) => Some(s),
        None => {
            if ql.len() <= 429_496_629 {
                let il = lowercase_chars(input);
                if il.len() <= 4294967295 {
                    fuzzy_lowered(&ql, &il)
                } else {
                    None
                }
            } else {
                None
            }
        },
    }
}

/// The candidate list: recent repositories, then cached ones with new labels.
fn candidates_exec(recent: &[RecentRepo], cached: &[(String, String)]) -> (r: Vec<(String, String)>)
    ensures
        r@.map_values(|p: (String, String)| (p.0@, p.1@)) == candidates_spec(
            recent@,
            cached@.map_values(|p: (String, String)| (p.0@, p.1@)),
        ),
{
    let ghost cv = cached@.map_values(|p: (String, String)| (p.0@, p.1@));
    let mut r: Vec<(String, String)> = Vec::new();
    let mut i: usize = 0;
    while i < recent.len()
        invariant
            i <= recent@.len(),
            r@.map_values(|p: (String, String)| (p.0@, p.1@)) == recent@.take(i as int).map_values(
                |x: RecentRepo| (x.display_name@, x.input@),
            ),
        decreases recent.len() - i,
    {
        let ghost before = r@.map_values(|p: (String, String)| (p.0@, p.1@));
        r.push((copy_string(&recent[i].display_name), copy_string(&recent[i].input)));
        assert(recent@.take(i + 1) =~= recent@.take(i as int).push(recent@[i as int]));
        assert(r@.map_values(|p: (String, String)| (p.0@, p.1@)) =~= before.push(
            (recent@[i as int].display_name@, recent@[i as int].input@),
        ));
        assert(r@.map_values(|p: (String, String)| (p.0@, p.1@)) =~= recent@.take(i + 1).map_values(
            |x: RecentRepo| (x.display_name@, x.input@),
        ));
        i += 1;
    }
    assert(recent@.take(recent@.len() as int) =~= recent@);
    assert(cv.take(0) =~= Seq::<(Seq<char>, Seq<char>)>::empty());
    let mut k: usize = 0;
    while k < cached.len()
        invariant
            k <= cached@.len(),
            cv == cached@.map_values(|p: (String, String)| (p.0@, p.1@)),
            r@.map_values(|p: (String, String)| (p.0@, p.1@)) == candidates_spec(recent@, cv.take(k as int)),
        decreases cached.len() - k,
    {
        assert(cv.take(k + 1).drop_last() =~= cv.take(k as int));
        assert(cv.take(k + 1).last() == (cached@[k as int].0@, cached@[k as int].1@));
        let ghost rv = r@.map_values(|p: (String, String)| (p.0@, p.1@));
        let mut seen = false;
        let mut j: usize = 0;
        while j < r.len()
            invariant
                j <= r@.len(),
                k < cached@.len(),
                rv == r@.map_values(|p: (String, String)| (p.0@, p.1@)),
                seen <==> exists|t: int| 0 <= t < j && (#[trigger] rv[t]).0 == cached@[k as int].0@,
            decreases r.len() - j,
        {
            let eq = str_eq(r[j].0.as_str(), cached[k].0.as_str());
            assert(rv[j as int].0 == r@[j as int].0@);
            if eq {
                seen = true;
            }
            j += 1;
        }
        if !seen {
            r.push((copy_string(&cached[k].0), copy_string(&cached[k].1)));
            assert(r@.map_values(|p: (String, String)| (p.0@, p.1@)) =~= rv.push(
                (cached@[k as int].0@, cached@[k as int].1@),
            ));
        }
        k += 1;
    }
    assert(cv.take(cv.len() as int) =~= cv);
    r
}

/// The hits for a query over the recent repositories and the cached ones
/// (label and input of each), best first, at most 20.
pub fn build_hits(query: &str, recent: &[RecentRepo], cached: &[(String, String)]) -> (r: Vec<
    SearchHit,
>)
    ensures
        hit_views(r@) == hits_spec(
            query@,
            recent@,
            cached@.map_values(|p: (String, String)| (p.0@, p.1@)),
        ),
{
    let qc = chars_of(query);
    let qt = trim_chars(qc.as_slice());
    let mut q = String::new();
    crate::text::push_chars(&mut q, qt.as_slice());
    assert(q@ =~= trim(query@));
    let mut hits: Vec<SearchHit> = Vec::new();
    match parse_github_input(q.as_str()) {
        Some(gh) => {
            let name = gh.display_name();
            let mut label = copy_string(&name);
            push_str(&mut label, "  (open)");
            hits.push(SearchHit { label, input: name, score: 4294967295 });
            assert(hit_views(hits@) =~= seq![
                HitView {
                    label: gh.owner@ + "/"@ + gh.repo@ + "  (open)"@,
                    input: gh.owner@ + "/"@ + gh.repo@,
                    score: u32::MAX as nat,
                },
            ]);
        },
        None => {
            assert(hit_views(hits@) =~= Seq::<HitView>::empty());
        },
    }
    let ghost first = hit_views(hits@);
    let cands = candidates_exec(recent, cached);
    let ghost cvs = cands@.map_values(|p: (String, String)| (p.0@, p.1@));
    let mut scored: Vec<SearchHit> = Vec::new();
    let mut i: usize = 0;
    while i < cands.len()
        invariant
            i <= cands@.len(),
            cvs == cands@.map_values(|p: (String, String)| (p.0@, p.1@)),
            hit_views(scored@) == scored_spec(q@, cvs.take(i as int)),
            hit_views(hits@) == first,
        decreases cands.len() - i,
    {
        assert(cvs.take(i + 1).drop_last() =~= cvs.take(i as int));
        assert(cvs.take(i + 1).last() == (cands@[i as int].0@, cands@[i as int].1@));
        match candidate_score_exec(q.as_str(), cands[i].0.as_str(), cands[i].1.as_str()) {
            Some(s) => {
                let ghost before = hit_views(scored@);
                scored.push(
                    SearchHit { label: copy_string(&cands[i].0), input: copy_string(&cands[i].1), score: s },
                );
                assert(hit_views(scored@) =~= before.push(hit_view(scored@[scored@.len() - 1])));
            },
            None => {},
        }
        i += 1;
    }
    assert(cvs.take(cvs.len() as int) =~= cvs);
    let ghost sv = hit_views(scored@);
    let mut sorted: Vec<SearchHit> = Vec::new();
    let mut k: usize = 0;
    while k < scored.len()
        invariant
            k <= scored@.len(),
            sv == hit_views(scored@),
            hit_views(sorted@) == sorted_hits(sv.take(k as int)),
            hit_views(hits@) == first,
        decreases scored.len() - k,
    {
        assert(sv.take(k + 1).drop_last() =~= sv.take(k as int));
        assert(sv.take(k + 1).last() == hit_view(scored@[k as int]));
        let ghost prev = hit_views(sorted@);
        let x = &scored[k];
        let mut j: usize = 0;
        while j < sorted.len() && !hit_is_before(x, &sorted[j])
            invariant
                j <= sorted@.len(),
                prev == hit_views(sorted@),
                forall|t: int| 0 <= t < j ==> !hit_before(hit_view(*x), #[trigger] prev[t]),
            decreases sorted.len() - j,
        {
            j += 1;
        }
        proof {
            lemma_insert_pos(prev, hit_view(*x), j as int);
        }
        sorted.insert(j, copy_hit(x));
        assert(hit_views(sorted@) =~= prev.insert(j as int, hit_view(*x)));
        k += 1;
    }
    assert(sv.take(sv.len() as int) =~= sv);
    let ghost srt = hit_views(sorted@);
    let mut m: usize = 0;
    while m < sorted.len()
        invariant
            m <= sorted@.len(),
            srt == hit_views(sorted@),
            hit_views(hits@) == append_new(first, srt.take(m as int)),
        decreases sorted.len() - m,
    {
        assert(srt.take(m + 1).drop_last() =~= srt.take(m as int));
        assert(srt.take(m + 1).last() == hit_view(sorted@[m as int]));
        let ghost hv = hit_views(hits@);
        let mut dup = false;
        let mut t: usize = 0;
        while t < hits.len()
            invariant
                t <= hits@.len(),
                m < sorted@.len(),
                hv == hit_views(hits@),
                dup <==> exists|u: int| 0 <= u < t && (#[trigger] hv[u]).input == sorted@[m as int].input@,
            decreases hits.len() - t,
        {
            let eq = str_eq(hits[t].input.as_str(), sorted[m].input.as_str());
            assert(hv[t as int].input == hits@[t as int].input@);
            if eq {
                dup = true;
            }
            t += 1;
        }
        if !dup {
            hits.push(copy_hit(&sorted[m]));
            assert(hit_views(hits@) =~= hv.push(hit_view(sorted@[m as int])));
        }
        m += 1;
    }
    assert(srt.take(srt.len() as int) =~= srt);
    proof {
        let qs = trim(query@);
        assert(q@ == qs);
        assert(cvs == candidates_spec(recent@, cached@.map_values(|p: (String, String)| (p.0@, p.1@))));
        assert(sv == scored_spec(qs, cvs));
        assert(srt == sorted_hits(sv));
        assert(first == match parse_github_spec(qs) {
            Some((o, r)) => seq![
                HitView { label: o + "/"@ + r + "  (open)"@, input: o + "/"@ + r, score: u32::MAX as nat },
            ],
            None => Seq::<HitView>::empty(),
        });
    }
    if hits.len() > 20 {
        hits.truncate(20);
        assert(hit_views(hits@) =~= append_new(first, srt).take(20));
    }
    hits
}

impl SearchState {
    /// Recompute the hits for the current query, keeping the selection in
    /// range.
    pub fn refresh(&mut self, recent: &[RecentRepo], cached: &[(String, String)])
        ensures
            hit_views(final(self).hits@) == hits_spec(
                old(self).query@,
                recent@,
                cached@.map_values(|p: (String, String)| (p.0@, p.1@)),
            ),
            final(self).query == old(self).query,
            final(self).selected == if final(self).hits@.len() == 0 {
                0
            } else if old(self).selected < final(self).hits@.len() - 1 {
                old(self).selected as int
            } else {
                final(self).hits@.len() - 1
            },
    {
        self.hits = build_hits(self.query.as_str(), recent, cached);
        if self.hits.len() == 0 {
            self.selected = 0;
        } else if self.selected > self.hits.len() - 1 {
            self.selected = self.hits.len() - 1;
        }
    }

    /// Move the selection by `delta`, wrapping; nothing happens without hits.
    pub fn move_by(&mut self, delta: isize)
        ensures
            final(self).hits == old(self).hits,
            final(self).query == old(self).query,
            final(self).selected == if old(self).hits@.len() == 0 {
                old(self).selected as int
            } else {
                (old(self).selected + delta) % (old(self).hits@.len() as int)
            },
    {
        if self.hits.len() == 0 {
            return;
        }
        self.selected = wrap_move(self.selected, delta, self.hits.len());
    }

    /// The input of the selected hit.
    pub fn selected_input(&self) -> (r: Option<&str>)
        ensures
            match r {
                Some(s) => self.selected < self.hits@.len() && s@ == self.hits@[self.selected as int].input@,
                None => self.selected >= self.hits@.len(),
            },
    {
        if self.selected < self.hits.len() {
            Some(self.hits[self.selected].input.as_str())
        } else {
            None
        }
    }

    /// Whether Enter may open something: a GitHub reference or a listed hit.
    pub fn can_confirm(&self) -> (b: bool)
        ensures
            b == (parse_github_spec(self.query@) is Some || self.selected < self.hits@.len()),
    {
        if parse_github_input(self.query.as_str()).is_some() {
            return true;
        }
        self.selected_input().is_some()
    }

    /// The input to open on Enter: the GitHub reference typed, else the
    /// selected hit's input.
    pub fn confirm_input(&self) -> (r: Option<String>)
        ensures
            match parse_github_spec(self.query@) {
                Some((o, p)) => r matches Some(s) && s@ == o + "/"@ + p,
                None => match r {
                    Some(s) => self.selected < self.hits@.len() && s@ == self.hits@[self.selected as int].input@,
                    None => self.selected >= self.hits@.len(),
                },
            },
    {
        match parse_github_input(self.query.as_str()) {
            Some(gh) => Some(gh.display_name()),
            None => match self.selected_input() {
                Some(s) => Some(s.to_owned()),
                None => None,
            },
        }
    }
}

/// The `owner/repo` label of a cache directory named `owner__repo`.
pub fn cached_repo_label(name: &str) -> (r: Option<String>)
    ensures
        match split_once(name@, "__"@) {
            Some((o, p)) => if o.len() > 0 && p.len() > 0 {
                r matches Some(s) && s@ == o + "/"@ + p
            } else {
                r is None
            },
            None => r is None,
        },
{
    let c = chars_of(name);
    match split_once_chars(c.as_slice(), "__") {
        Some((o, p)) => {
            if o.len() > 0 && p.len() > 0 {
                let mut s = String::new();
                crate::text::push_chars(&mut s, o.as_slice());
                push_str(&mut s, "/");
                crate::text::push_chars(&mut s, p.as_slice());
                Some(s)
            } else {
                None
            }
        },
        None => None,
    }
}

} // verus!
