//! Entry-point hints from well-known manifests (`Cargo.toml`,
//! `package.json`).

use vstd::prelude::*;

use crate::domain::entry::EntryCandidate;
use crate::text::{
    chars_of, find, find_chars, lemma_find_facts, lemma_trim_start_is_suffix, starts_with,
    starts_with_chars, subrange, trim, trim_chars, trim_start, trim_start_chars,
};

verus! {

/// Bytes in the UTF-8 encoding of `c`.
pub open spec fn utf8_len(c: char) -> nat {
    if (c as u32) < 0x80 {
        1
    } else if (c as u32) < 0x800 {
        2
    } else if (c as u32) < 0x10000 {
        3
    } else {
        4
    }
}

/// Bytes in the UTF-8 encoding of `s`.
pub open spec fn bytes_len(s: Seq<char>) -> nat
    decreases s.len(),
{
    if s.len() == 0 {
        0
    } else {
        utf8_len(s[0]) + bytes_len(s.drop_first())
    }
}

/// `str::get(at..)`: the text from byte `at` on, when `at` falls on a
/// character boundary within the text.
pub open spec fn str_get_from(s: Seq<char>, at: nat) -> Option<Seq<char>>
    decreases s.len(),
{
    if at == 0 {
        Some(s)
    } else if s.len() == 0 {
        None
    } else if at < utf8_len(s[0]) {
        None
    } else {
        str_get_from(s.drop_first(), (at - utf8_len(s[0])) as nat)
    }
}

/// The text from byte `at` on, or nothing when that is not a boundary.
pub open spec fn get_or_empty(s: Seq<char>, at: nat) -> Seq<char> {
    match str_get_from(s, at) {
        Some(t) => t,
        None => Seq::empty(),
    }
}

pub proof fn lemma_get_shorter(s: Seq<char>, at: nat)
    requires
        at > 0,
    ensures
        get_or_empty(s, at).len() < s.len() || (s.len() == 0 && get_or_empty(s, at).len() == 0),
    decreases s.len(),
{
    if s.len() > 0 && at >= utf8_len(s[0]) {
        let rest = (at - utf8_len(s[0])) as nat;
        assert(str_get_from(s, at) == str_get_from(s.drop_first(), rest));
        if rest > 0 {
            lemma_get_shorter(s.drop_first(), rest);
        } else {
            assert(str_get_from(s.drop_first(), 0) == Some(s.drop_first()));
        }
    }
}

/// The text of a JSON string body after its opening quote, up to the closing
/// quote: a backslash takes the next character as it is.
pub open spec fn json_str_body(cs: Seq<char>) -> Option<Seq<char>>
    decreases cs.len(),
{
    if cs.len() == 0 {
        None
    } else if cs[0] == '"' {
        Some(Seq::empty())
    } else if cs[0] == '\\' {
        if cs.len() >= 2 {
            match json_str_body(cs.skip(2)) {
                Some(r) => Some(seq![cs[1]] + r),
                None => None,
            }
        } else {
            None
        }
    } else {
        match json_str_body(cs.skip(1)) {
            Some(r) => Some(seq![cs[0]] + r),
            None => None,
        }
    }
}

/// The JSON string at the start of `s` (after whitespace).
pub open spec fn parse_json_string_spec(s: Seq<char>) -> Option<Seq<char>> {
    let t = trim_start(s);
    if t.len() > 0 && t[0] == '"' {
        json_str_body(t.skip(1))
    } else {
        None
    }
}

/// The string value of the first `"key": "..."` in `text`.
#[verifier::opaque]
pub open spec fn json_string_value_spec(text: Seq<char>, key: Seq<char>) -> Option<Seq<char>> {
    let pattern = seq!['"'] + key + seq!['"'];
    match find(text, pattern) {
        Some(start) => {
            let rest = trim_start(text.skip(start + pattern.len()));
            if rest.len() > 0 && rest[0] == ':' {
                parse_json_string_spec(rest.skip(1))
            } else {
                None
            }
        },
        None => None,
    }
}

/// The string values of an object body `name: value, ...`, read value after
/// value: after each `:`, a string value is taken and its length skipped;
/// otherwise one more character is skipped.
#[verifier::opaque]
pub open spec fn bin_object_values(remaining: Seq<char>) -> Seq<Seq<char>>
    decreases remaining.len(),
{
    match find(remaining, ":"@) {
        None => Seq::empty(),
        Some(colon) => {
            proof {
                reveal_strlit(":");
                lemma_find_facts(remaining, ":"@);
                lemma_trim_start_is_suffix(remaining.skip(colon + 1));
            }
            let r = trim_start(remaining.skip(colon + 1));
            match parse_json_string_spec(r) {
                Some(v) => {
                    proof {
                        lemma_get_shorter(r, bytes_len(v) + 2);
                    }
                    seq![v] + bin_object_values(get_or_empty(r, bytes_len(v) + 2))
                },
                None => if r.len() == 0 {
                    Seq::empty()
                } else {
                    proof {
                        lemma_get_shorter(r, 1);
                    }
                    bin_object_values(get_or_empty(r, 1))
                },
            }
        },
    }
}

/// The values of `"bin"`: one string, or the string values of an object.
#[verifier::opaque]
pub open spec fn json_bin_values_spec(text: Seq<char>) -> Seq<Seq<char>> {
    match find(text, "\"bin\""@) {
        None => Seq::empty(),
        Some(start) => {
            let rest = trim_start(text.skip(start + 5));
            if rest.len() > 0 && rest[0] == ':' {
                let r = trim_start(rest.skip(1));
                if r.len() > 0 && r[0] == '"' {
                    match parse_json_string_spec(r) {
                        Some(v) => seq![v],
                        None => Seq::empty(),
                    }
                } else if !(r.len() > 0 && r[0] == '{') {
                    Seq::empty()
                } else {
                    match find(r, "}"@) {
                        None => Seq::empty(),
                        Some(end) => bin_object_values(r.subrange(1, end)),
                    }
                }
            } else {
                Seq::empty()
            }
        },
    }
}

/// `s` with every leading copy of `p` removed.
pub open spec fn trim_start_all(s: Seq<char>, p: Seq<char>) -> Seq<char>
    decreases s.len(),
{
    if p.len() > 0 && starts_with(s, p) {
        trim_start_all(s.skip(p.len() as int), p)
    } else {
        s
    }
}

pub open spec fn forward_slashes(s: Seq<char>) -> Seq<char> {
    s.map_values(|c: char| if c == '\\' { '/' } else { c })
}

/// A manifest path as a repository path: trimmed, without leading `./`,
/// with `/` separators.
pub open spec fn strip_dot_slash_spec(path: Seq<char>) -> Seq<char> {
    forward_slashes(trim_start_all(trim(path), "./"@))
}

/// An entry hint as plain values.
pub open spec fn hint_view(c: EntryCandidate) -> (Seq<char>, Seq<char>) {
    (c.path@, c.reason@)
}

pub open spec fn hint_views(s: Seq<EntryCandidate>) -> Seq<(Seq<char>, Seq<char>)> {
    s.map_values(|c: EntryCandidate| hint_view(c))
}

/// The hints of `package.json`: its `main`, then each `bin`.
#[verifier::opaque]
pub open spec fn package_json_spec(text: Seq<char>) -> Seq<(Seq<char>, Seq<char>)> {
    let main = match json_string_value_spec(text, "main"@) {
        Some(m) => seq![(strip_dot_slash_spec(m), "main (package.json)"@)],
        None => Seq::empty(),
    };
    main + json_bin_values_spec(text).map_values(
        |b: Seq<char>| (strip_dot_slash_spec(b), "bin (package.json)"@),
    )
}

/// The hints of `Cargo.toml` given its `[[bin]]` paths: the default binary,
/// then each other declared binary path.
#[verifier::opaque]
pub open spec fn cargo_spec(bins: Seq<Option<Seq<char>>>) -> Seq<(Seq<char>, Seq<char>)>
    decreases bins.len(),
{
    if bins.len() == 0 {
        seq![("src/main.rs"@, "bin (Cargo.toml)"@)]
    } else {
        let prev = cargo_spec(bins.drop_last());
        match bins.last() {
            Some(p) => if forward_slashes(p) != "src/main.rs"@ {
                prev.push((forward_slashes(p), "bin (Cargo.toml)"@))
            } else {
                prev
            },
            None => prev,
        }
    }
}

fn utf8_len_exec(c: char) -> (n: usize)
    ensures
        n == utf8_len(c),
{
    let v = c as u32;
    if v < 0x80 {
        1
    } else if v < 0x800 {
        2
    } else if v < 0x10000 {
        3
    } else {
        4
    }
}

fn bytes_len_exec(s: &Vec<char>) -> (n: u128)
    ensures
        n == bytes_len(s@),
        n <= 4 * s@.len(),
{
    let mut n: u128 = 0;
    let mut i: usize = s.len();
    assert(s@.skip(s@.len() as int) =~= Seq::<char>::empty());
    while i > 0
        invariant
            i <= s@.len(),
            s@.len() <= usize::MAX,
            n == bytes_len(s@.skip(i as int)),
            n <= 4 * (s@.len() - i),
        decreases i,
    {
        assert(s@.skip(i - 1).drop_first() =~= s@.skip(i as int));
        assert(s@.skip(i - 1)[0] == s@[i - 1]);
        n = n + utf8_len_exec(s[i - 1]) as u128;
        i -= 1;
    }
    assert(s@.skip(0) =~= s@);
    n
}

fn get_or_empty_exec(s: &Vec<char>, at: u128) -> (r: Vec<char>)
    ensures
        r@ == get_or_empty(s@, at as nat),
{
    let mut i: usize = 0;
    let mut left: u128 = at;
    assert(s@.skip(0) =~= s@);
    while left > 0
        invariant
            i <= s@.len(),
            str_get_from(s@, at as nat) == str_get_from(s@.skip(i as int), left as nat),
        decreases s@.len() - i,
    {
        if i == s.len() {
            return Vec::new();
        }
        let w = utf8_len_exec(s[i]);
        assert(s@.skip(i as int)[0] == s@[i as int]);
        if left < w as u128 {
            return Vec::new();
        }
        assert(s@.skip(i as int).drop_first() =~= s@.skip(i + 1));
        left = left - w as u128;
        i += 1;
    }
    let r = subrange(s.as_slice(), i, s.len());
    assert(r@ =~= s@.skip(i as int));
    r
}

fn json_str_body_exec(cs: &Vec<char>, from: usize) -> (r: Option<Vec<char>>)
    requires
        from <= cs@.len(),
    ensures
        match json_str_body(cs@.skip(from as int)) {
            Some(v) => r is Some && r.unwrap()@ == v,
            None => r is None,
        },
{
    let mut out: Vec<char> = Vec::new();
    let mut i: usize = from;
    loop
        invariant
            from <= i <= cs@.len(),
            json_str_body(cs@.skip(from as int)) == match json_str_body(cs@.skip(i as int)) {
                Some(v) => Some(out@ + v),
                None => None::<Seq<char>>,
            },
        decreases cs@.len() - i,
    {
        if i == cs.len() {
            assert(cs@.skip(i as int).len() == 0);
            return None;
        }
        let c = cs[i];
        assert(cs@.skip(i as int)[0] == c);
        if c == '"' {
            assert(out@ + Seq::<char>::empty() =~= out@);
            return Some(out);
        } else if c == '\\' {
            if i + 1 < cs.len() {
                let e = cs[i + 1];
                assert(cs@.skip(i as int)[1] == e);
                assert(cs@.skip(i as int).skip(2) =~= cs@.skip(i + 2));
                let ghost before = out@;
                out.push(e);
                proof {
                    match json_str_body(cs@.skip(i + 2)) {
                        Some(v) => {
                            assert(before + (seq![e] + v) =~= out@ + v);
                        },
                        None => {},
                    }
                }
                i = i + 2;
            } else {
                return None;
            }
        } else {
            assert(cs@.skip(i as int).skip(1) =~= cs@.skip(i + 1));
            let ghost before = out@;
            out.push(c);
            proof {
                match json_str_body(cs@.skip(i + 1)) {
                    Some(v) => {
                        assert(before + (seq![c] + v) =~= out@ + v);
                    },
                    None => {},
                }
            }
            i = i + 1;
        }
    }
}

fn parse_json_string(s: &[char]) -> (r: Option<Vec<char>>)
    ensures
        match parse_json_string_spec(s@) {
            Some(v) => r is Some && r.unwrap()@ == v,
            None => r is None,
        },
{
    let t = trim_start_chars(s);
    if t.len() > 0 && t[0] == '"' {
        json_str_body_exec(&t, 1)
    } else {
        None
    }
}

fn json_string_value(text: &Vec<char>, key: &str) -> (r: Option<Vec<char>>)
    ensures
        match json_string_value_spec(text@, key@) {
            Some(v) => r is Some && r.unwrap()@ == v,
            None => r is None,
        },
{
    reveal(json_string_value_spec);
    let mut pattern: Vec<char> = Vec::new();
    pattern.push('"');
    let k = chars_of(key);
    let mut j: usize = 0;
    while j < k.len()
        invariant
            j <= k@.len(),
            pattern@ == seq!['"'] + k@.take(j as int),
        decreases k.len() - j,
    {
        pattern.push(k[j]);
        assert(k@.take(j + 1) =~= k@.take(j as int).push(k@[j as int]));
        j += 1;
    }
    pattern.push('"');
    assert(k@.take(k@.len() as int) =~= k@);
    assert(pattern@ =~= seq!['"'] + key@ + seq!['"']);
    proof {
        lemma_find_facts(text@, pattern@);
    }
    match find_chars(text.as_slice(), pattern.as_slice()) {
        Some(start) => {
            assert(start + pattern@.len() <= text@.len());
            assert(start + pattern.len() <= text.len());
            let after = subrange(text.as_slice(), start + pattern.len(), text.len());
            assert(after@ =~= text@.skip(start + pattern@.len()));
            let rest = trim_start_chars(after.as_slice());
            if rest.len() > 0 && rest[0] == ':' {
                let tail = subrange(rest.as_slice(), 1, rest.len());
                assert(tail@ =~= rest@.skip(1));
                parse_json_string(tail.as_slice())
            } else {
                None
            }
        },
        None => None,
    }
}

/// One step through an object body: nothing when no `:` is left (or only
/// whitespace follows it), else the value read (if any) and the rest.
fn object_step(remaining: &Vec<char>) -> (r: Option<(Option<Vec<char>>, Vec<char>)>)
    ensures
        match r {
            None => bin_object_values(remaining@) == Seq::<Seq<char>>::empty(),
            Some((v, next)) => {
                &&& next@.len() < remaining@.len()
                &&& bin_object_values(remaining@) == match v {
                    Some(x) => seq![x@] + bin_object_values(next@),
                    None => bin_object_values(next@),
                }
            },
        },
{
    let colon = chars_of(":");
    proof {
        reveal_strlit(":");
        lemma_find_facts(remaining@, ":"@);
        reveal(bin_object_values);
    }
    match find_chars(remaining.as_slice(), colon.as_slice()) {
        None => None,
        Some(c) => {
            assert(c + 1 <= remaining@.len());
            assert(c + 1 <= remaining.len());
            let after = subrange(remaining.as_slice(), c + 1, remaining.len());
            assert(after@ =~= remaining@.skip(c + 1));
            let r = trim_start_chars(after.as_slice());
            proof {
                lemma_trim_start_is_suffix(after@);
            }
            match parse_json_string(r.as_slice()) {
                Some(v) => {
                    assert(v@.len() == v.len());
                    let n = bytes_len_exec(&v);
                    let next = get_or_empty_exec(&r, n + 2);
                    proof {
                        lemma_get_shorter(r@, bytes_len(v@) + 2);
                    }
                    Some((Some(v), next))
                },
                None => {
                    if r.len() == 0 {
                        return None;
                    }
                    let next = get_or_empty_exec(&r, 1);
                    proof {
                        lemma_get_shorter(r@, 1);
                    }
                    Some((None, next))
                },
            }
        },
    }
}

fn bin_object_values_exec(object: &Vec<char>) -> (r: Vec<Vec<char>>)
    ensures
        r@.map_values(|v: Vec<char>| v@) == bin_object_values(object@),
{
    let mut out: Vec<Vec<char>> = Vec::new();
    let mut remaining = subrange(object.as_slice(), 0, object.len());
    assert(remaining@ =~= object@);
    assert(out@.map_values(|v: Vec<char>| v@) + bin_object_values(remaining@) =~= bin_object_values(
        object@,
    ));
    loop
        invariant
            out@.map_values(|v: Vec<char>| v@) + bin_object_values(remaining@) == bin_object_values(
                object@,
            ),
        decreases remaining@.len(),
    {
        match object_step(&remaining) {
            None => {
                assert(out@.map_values(|v: Vec<char>| v@) + Seq::<Seq<char>>::empty() =~= out@.map_values(
                    |v: Vec<char>| v@,
                ));
                return out;
            },
            Some((v, next)) => {
                let ghost before = out@.map_values(|x: Vec<char>| x@);
                match v {
                    Some(x) => {
                        let ghost xv = x@;
                        out.push(x);
                        assert(out@.map_values(|y: Vec<char>| y@) =~= before.push(xv));
                        assert(before.push(xv) + bin_object_values(next@) =~= before + (seq![xv]
                            + bin_object_values(next@)));
                    },
                    None => {},
                }
                remaining = next;
            },
        }
    }
}

fn json_bin_values(text: &Vec<char>) -> (r: Vec<Vec<char>>)
    ensures
        r@.map_values(|v: Vec<char>| v@) == json_bin_values_spec(text@),
{
    reveal(json_bin_values_spec);
    let pat = chars_of("\"bin\"");
    proof {
        reveal_strlit("\"bin\"");
        reveal_strlit("}");
        lemma_find_facts(text@, "\"bin\""@);
    }
    let empty: Vec<Vec<char>> = Vec::new();
    assert(empty@.map_values(|v: Vec<char>| v@) =~= Seq::<Seq<char>>::empty());
    match find_chars(text.as_slice(), pat.as_slice()) {
        None => empty,
        Some(start) => {
            assert(start + 5 <= text.len());
            let after = subrange(text.as_slice(), start + 5, text.len());
            assert(after@ =~= text@.skip(start + 5));
            let rest = trim_start_chars(after.as_slice());
            if !(rest.len() > 0 && rest[0] == ':') {
                return empty;
            }
            let tail = subrange(rest.as_slice(), 1, rest.len());
            assert(tail@ =~= rest@.skip(1));
            let r = trim_start_chars(tail.as_slice());
            if r.len() > 0 && r[0] == '"' {
                match parse_json_string(r.as_slice()) {
                    Some(v) => {
                        let mut out: Vec<Vec<char>> = Vec::new();
                        let ghost vv = v@;
                        out.push(v);
                        assert(out@.map_values(|x: Vec<char>| x@) =~= seq![vv]);
                        out
                    },
                    None => empty,
                }
            } else if !(r.len() > 0 && r[0] == '{') {
                empty
            } else {
                let close = chars_of("}");
                proof {
                    lemma_find_facts(r@, "}"@);
                }
                match find_chars(r.as_slice(), close.as_slice()) {
                    None => empty,
                    Some(end) => {
                        assert(end >= 1) by {
                            if end == 0 {
                                assert(r@.subrange(0, 1)[0] == '}');
                            }
                        }
                        let object = subrange(r.as_slice(), 1, end);
                        assert(object@ =~= r@.subrange(1, end as int));
                        bin_object_values_exec(&object)
                    },
                }
            }
        },
    }
}

fn strip_dot_slash(path: &[char]) -> (r: String)
    ensures
        r@ == strip_dot_slash_spec(path@),
{
    let t = trim_chars(path);
    let ds = chars_of("./");
    proof {
        reveal_strlit("./");
    }
    let mut cur = t;
    assert(ds@.len() == 2);
    while starts_with_chars(cur.as_slice(), ds.as_slice())
        invariant
            ds@ == "./"@,
            ds@.len() == 2,
            trim_start_all(cur@, "./"@) == trim_start_all(trim(path@), "./"@),
        decreases cur@.len(),
    {
        assert(cur@.len() >= 2);
        let next = subrange(cur.as_slice(), 2, cur.len());
        assert(next@ =~= cur@.skip(2));
        assert(trim_start_all(cur@, "./"@) == trim_start_all(cur@.skip(2), "./"@));
        cur = next;
    }
    assert(trim_start_all(cur@, "./"@) == cur@);
    let mut r = String::new();
    let mut i: usize = 0;
    while i < cur.len()
        invariant
            i <= cur@.len(),
            r@ == forward_slashes(cur@).take(i as int),
        decreases cur.len() - i,
    {
        let c = if cur[i] == '\\' {
            '/'
        } else {
            cur[i]
        };
        crate::text::push_char(&mut r, c);
        assert(r@ =~= forward_slashes(cur@).take(i + 1));
        i += 1;
    }
    assert(forward_slashes(cur@).take(cur@.len() as int) =~= forward_slashes(cur@));
    r
}

/// The hint named by the `main` field of a `package.json` text, if any.
fn main_hint(t: &Vec<char>) -> (r: Vec<EntryCandidate>)
    ensures
        hint_views(r@) == match json_string_value_spec(t@, "main"@) {
            Some(m) => seq![(strip_dot_slash_spec(m), "main (package.json)"@)],
            None => Seq::<(Seq<char>, Seq<char>)>::empty(),
        },
{
    let mut out: Vec<EntryCandidate> = Vec::new();
    match json_string_value(t, "main") {
        Some(m) => {
            let p = strip_dot_slash(m.as_slice());
            let item = EntryCandidate { path: p, reason: "main (package.json)" };
            out.push(item);
            assert(hint_views(out@) =~= seq![hint_view(item)]);
        },
        None => {
            assert(hint_views(out@) =~= Seq::<(Seq<char>, Seq<char>)>::empty());
        },
    }
    out
}

/// One `bin (package.json)` hint per declared binary path.
fn bin_hints(bins: &Vec<Vec<char>>) -> (r: Vec<EntryCandidate>)
    ensures
        hint_views(r@) == bins@.map_values(|v: Vec<char>| v@).map_values(
            |b: Seq<char>| (strip_dot_slash_spec(b), "bin (package.json)"@),
        ),
{
    let ghost bv = bins@.map_values(|v: Vec<char>| v@);
    let mut out: Vec<EntryCandidate> = Vec::new();
    let mut i: usize = 0;
    while i < bins.len()
        invariant
            i <= bins@.len(),
            bv == bins@.map_values(|v: Vec<char>| v@),
            hint_views(out@) == bv.take(i as int).map_values(
                |b: Seq<char>| (strip_dot_slash_spec(b), "bin (package.json)"@),
            ),
        decreases bins.len() - i,
    {
        let ghost before = hint_views(out@);
        let p = strip_dot_slash(bins[i].as_slice());
        let item = EntryCandidate { path: p, reason: "bin (package.json)" };
        assert(hint_view(item) == (strip_dot_slash_spec(bv[i as int]), "bin (package.json)"@));
        out.push(item);
        assert(hint_views(out@) =~= before.push(hint_view(item)));
        assert(bv.take(i + 1) =~= bv.take(i as int).push(bv[i as int]));
        assert(hint_views(out@) =~= bv.take(i + 1).map_values(
            |b: Seq<char>| (strip_dot_slash_spec(b), "bin (package.json)"@),
        ));
        i += 1;
    }
    assert(bv.take(bv.len() as int) =~= bv);
    out
}

/// The entry hints of a `package.json` text: its `main`, then each `bin`.
pub fn package_json_hints(text: &str) -> (r: Vec<EntryCandidate>)
    ensures
        hint_views(r@) == package_json_spec(text@),
{
    let t = chars_of(text);
    let mut out = main_hint(&t);
    let ghost first = hint_views(out@);
    let bins = json_bin_values(&t);
    let mut more = bin_hints(&bins);
    let ghost second = hint_views(more@);
    out.append(&mut more);
    assert(hint_views(out@) =~= first + second);
    proof {
        reveal(package_json_spec);
    }
    out
}

/// The entry hints of a `Cargo.toml` given the `path` of each `[[bin]]`: the
/// default binary, then each other declared binary.
pub fn cargo_hints(bins: &[Option<String>]) -> (r: Vec<EntryCandidate>)
    ensures
        hint_views(r@) == cargo_spec(bins@.map_values(|b: Option<String>| match b {
            Some(s) => Some(s@),
            None => None,
        })),
{
    let ghost bv = bins@.map_values(|b: Option<String>| match b {
        Some(s) => Some(s@),
        None => None,
    });
    let mut out: Vec<EntryCandidate> = Vec::new();
    out.push(EntryCandidate { path: "src/main.rs".to_owned(), reason: "bin (Cargo.toml)" });
    assert(hint_views(out@) =~= cargo_spec(bv.take(0))) by {
        reveal(cargo_spec);
    }
    let mut i: usize = 0;
    while i < bins.len()
        invariant
            i <= bins@.len(),
            bv == bins@.map_values(|b: Option<String>| match b {
                Some(s) => Some(s@),
                None => None,
            }),
            hint_views(out@) == cargo_spec(bv.take(i as int)),
        decreases bins.len() - i,
    {
        assert(bv.take(i + 1).drop_last() =~= bv.take(i as int));
        proof {
            reveal(cargo_spec);
        }
        match &bins[i] {
            Some(p) => {
                let pc = chars_of(p.as_str());
                let mut n = String::new();
                let mut k: usize = 0;
                while k < pc.len()
                    invariant
                        k <= pc@.len(),
                        n@ == forward_slashes(pc@).take(k as int),
                    decreases pc.len() - k,
                {
                    let c = if pc[k] == '\\' {
                        '/'
                    } else {
                        pc[k]
                    };
                    crate::text::push_char(&mut n, c);
                    assert(n@ =~= forward_slashes(pc@).take(k + 1));
                    k += 1;
                }
                assert(forward_slashes(pc@).take(pc@.len() as int) =~= forward_slashes(pc@));
                if !crate::text::str_eq(n.as_str(), "src/main.rs") {
                    let ghost before = hint_views(out@);
                    out.push(EntryCandidate { path: n, reason: "bin (Cargo.toml)" });
                    assert(hint_views(out@) =~= before.push((forward_slashes(p@), "bin (Cargo.toml)"@)));
                }
            },
            None => {},
        }
        i += 1;
    }
    assert(bv.take(bv.len() as int) =~= bv);
    out
}

/// Entry-point hints from the manifests of a repository: `cargo_bins` is
/// the list of `[[bin]]` paths of a readable, valid `Cargo.toml` (none
/// without one), `package_json` the text of `package.json` when readable.
pub fn read_entry_hints(cargo_bins: Option<Vec<Option<String>>>, package_json: Option<String>) -> (r:
    Vec<EntryCandidate>)
    ensures
        hint_views(r@) == (match cargo_bins {
            Some(b) => cargo_spec(b@.map_values(|x: Option<String>| match x {
                Some(s) => Some(s@),
                None => None,
            })),
            None => Seq::empty(),
        }) + (match package_json {
            Some(t) => package_json_spec(t@),
            None => Seq::empty(),
        }),
{
    let mut hints: Vec<EntryCandidate> = match &cargo_bins {
        Some(b) => cargo_hints(b.as_slice()),
        None => Vec::new(),
    };
    let ghost first = hint_views(hints@);
    let mut more: Vec<EntryCandidate> = match &package_json {
        Some(t) => package_json_hints(t.as_str()),
        None => Vec::new(),
    };
    let ghost second = hint_views(more@);
    hints.append(&mut more);
    assert(hint_views(hints@) =~= first + second);
    hints
}

} // verus!
