//! GitHub repository references: parsing user input and naming clones.

use vstd::prelude::*;

use std::path::PathBuf;

use crate::domain::content::{ResolvedRepository, SourceKind};
use crate::text::{
    chars_of, contains, ends_with, find_chars, push_chars, push_str, split_char, split_on, starts_with,
    starts_with_chars, strip_prefix, strip_prefix_chars, trim, trim_chars, trim_end_matches,
    trim_end_matches_chars,
};

verus! {

/// Parsed GitHub repository reference.
#[derive(Debug, Clone, PartialEq, Eq)]
pub struct GitHubRef {
    pub owner: String,
    pub repo: String,
}

/// Characters GitHub allows in an owner or repository name.
pub open spec fn name_char(c: char) -> bool {
    ('a' <= c && c <= 'z') || ('A' <= c && c <= 'Z') || ('0' <= c && c <= '9') || c == '-' || c
        == '_' || c == '.'
}

pub open spec fn valid_name(s: Seq<char>) -> bool {
    s.len() > 0 && forall|i: int| 0 <= i < s.len() ==> name_char(#[trigger] s[i])
}

/// `owner/repo` (an optional `.git` dropped), both valid names.
pub open spec fn split_owner_repo_spec(rest: Seq<char>) -> Option<(Seq<char>, Seq<char>)> {
    let parts = split_char(trim_end_matches(rest, ".git"@), '/');
    if parts.len() != 2 {
        None
    } else {
        let owner = trim(parts[0]);
        let repo = trim(parts[1]);
        if owner.len() == 0 || repo.len() == 0 || !valid_name(owner) || !valid_name(repo) {
            None
        } else {
            Some((owner, repo))
        }
    }
}

/// The repository an input names: a GitHub URL over https, http or ssh,
/// an scp-style `git@github.com:` address, or a bare `owner/repo`.
pub open spec fn parse_github_spec(input: Seq<char>) -> Option<(Seq<char>, Seq<char>)> {
    let t = trim_end_matches(trim(input), "/"@);
    match strip_prefix(t, "https://github.com/"@) {
        Some(rest) => split_owner_repo_spec(rest),
        None => match strip_prefix(t, "http://github.com/"@) {
            Some(rest) => split_owner_repo_spec(rest),
            None => match strip_prefix(t, "ssh://git@github.com/"@) {
                Some(rest) => split_owner_repo_spec(rest),
                None => match strip_prefix(t, "git@github.com:"@) {
                    Some(rest) => split_owner_repo_spec(rest),
                    None => if contains(t, "://"@) || starts_with(t, "git@"@) {
                        None
                    } else {
                        split_owner_repo_spec(t)
                    },
                },
            },
        },
    }
}

/// An ASCII letter, digit, `-`, `_` or `.`.
pub open spec fn plain_name_char(c: char) -> bool {
    ('a' <= c && c <= 'z') || ('A' <= c && c <= 'Z') || ('0' <= c && c <= '9') || c == '-' || c
        == '_' || c == '.'
}

proof fn lemma_trim_plain(s: Seq<char>)
    requires
        s.len() > 0,
        !crate::text::is_ws(s[0]),
        !crate::text::is_ws(s.last()),
    ensures
        trim(s) == s,
{
    assert(crate::text::trim_end(s) == s);
}

proof fn lemma_split_without_sep(s: Seq<char>, sep: char)
    requires
        forall|i: int| 0 <= i < s.len() ==> s[i] != sep,
    ensures
        split_char(s, sep) == seq![s],
    decreases s.len(),
{
    if s.len() > 0 {
        lemma_split_without_sep(s.drop_last(), sep);
        assert(s.last() == s[s.len() - 1]);
        assert(s.drop_last().push(s.last()) =~= s);
        let prev = seq![s.drop_last()];
        assert(prev.update(prev.len() - 1, prev.last().push(s.last())) =~= seq![s]);
    } else {
        assert(s =~= Seq::<char>::empty());
    }
}

proof fn lemma_split_after_sep(a: Seq<char>, b: Seq<char>, sep: char)
    requires
        forall|i: int| 0 <= i < b.len() ==> b[i] != sep,
    ensures
        split_char(a + seq![sep] + b, sep) == split_char(a, sep).push(b),
    decreases b.len(),
{
    let s = a + seq![sep] + b;
    if b.len() == 0 {
        assert(s.drop_last() =~= a);
        assert(b =~= Seq::<char>::empty());
    } else {
        lemma_split_after_sep(a, b.drop_last(), sep);
        assert(s.drop_last() =~= a + seq![sep] + b.drop_last());
        assert(s.last() == b.last());
        let prev = split_char(a, sep).push(b.drop_last());
        assert(s.last() != sep) by {
            assert(b.last() == b[b.len() - 1]);
        }
        assert(prev.last() == b.drop_last());
        assert(b.drop_last().push(b.last()) =~= b);
        assert(prev.update(prev.len() - 1, prev.last().push(b.last())) =~= split_char(a, sep).push(b));
    }
}

/// A plain `owner/repo` names that repository: an owner and a repository
/// name made of ASCII letters, digits, `-`, `_` and `.` (the name not ending
/// in `.git`, which is dropped as the clone suffix) parse to exactly those two
/// names.
pub proof fn law_plain_owner_repo_parses(owner: Seq<char>, repo: Seq<char>)
    requires
        owner.len() > 0,
        repo.len() > 0,
        forall|i: int| 0 <= i < owner.len() ==> plain_name_char(#[trigger] owner[i]),
        forall|i: int| 0 <= i < repo.len() ==> plain_name_char(#[trigger] repo[i]),
        !ends_with(repo, ".git"@),
    ensures
        parse_github_spec(owner + seq!['/'] + repo) == Some((owner, repo)),
{
    let t = owner + seq!['/'] + repo;
    assert forall|i: int| 0 <= i < t.len() implies t[i] != ':' && t[i] != '@' && (t[i] == '/' || plain_name_char(t[i])) by {
        if i < owner.len() {
            assert(t[i] == owner[i]);
        } else if i > owner.len() {
            assert(t[i] == repo[i - owner.len() - 1]);
        }
    }
    assert(t[0] == owner[0]);
    assert(t.last() == repo.last());
    assert(plain_name_char(owner[0]));
    assert(plain_name_char(repo.last()));
    lemma_trim_plain(t);
    reveal_strlit("/");
    assert(!ends_with(t, "/"@)) by {
        if ends_with(t, "/"@) {
            assert(t.subrange(t.len() - 1, t.len() as int)[0] == t.last());
        }
    }
    assert(trim_end_matches(trim(t), "/"@) == t);
    reveal_strlit("https://github.com/");
    reveal_strlit("http://github.com/");
    reveal_strlit("ssh://git@github.com/");
    reveal_strlit("git@github.com:");
    reveal_strlit("://");
    reveal_strlit("git@");
    reveal_strlit(".git");
    assert(strip_prefix(t, "https://github.com/"@) is None) by {
        if starts_with(t, "https://github.com/"@) {
            assert(t.subrange(0, 19)[5] == t[5]);
        }
    }
    assert(strip_prefix(t, "http://github.com/"@) is None) by {
        if starts_with(t, "http://github.com/"@) {
            assert(t.subrange(0, 18)[4] == t[4]);
        }
    }
    assert(strip_prefix(t, "ssh://git@github.com/"@) is None) by {
        if starts_with(t, "ssh://git@github.com/"@) {
            assert(t.subrange(0, 21)[3] == t[3]);
        }
    }
    assert(strip_prefix(t, "git@github.com:"@) is None) by {
        if starts_with(t, "git@github.com:"@) {
            assert(t.subrange(0, 15)[3] == t[3]);
        }
    }
    assert(!contains(t, "://"@)) by {
        if contains(t, "://"@) {
            let i = choose|i: int| crate::text::occurs_at(t, "://"@, i);
            assert(t.subrange(i, i + 3)[0] == t[i]);
        }
    }
    assert(!starts_with(t, "git@"@)) by {
        if starts_with(t, "git@"@) {
            assert(t.subrange(0, 4)[3] == t[3]);
        }
    }
    assert(!ends_with(t, ".git"@)) by {
        if ends_with(t, ".git"@) {
            if repo.len() >= 4 {
                assert(repo.subrange(repo.len() - 4, repo.len() as int) =~= t.subrange(
                    t.len() - 4,
                    t.len() as int,
                ));
            } else {
                let k = owner.len() - (t.len() - 4);
                assert(t.subrange(t.len() - 4, t.len() as int)[k] == t[owner.len() as int]);
                assert(t[owner.len() as int] == '/');
            }
        }
    }
    assert(trim_end_matches(t, ".git"@) == t);
    assert forall|i: int| 0 <= i < owner.len() implies owner[i] != '/' by {}
    assert forall|i: int| 0 <= i < repo.len() implies repo[i] != '/' by {}
    lemma_split_without_sep(owner, '/');
    lemma_split_after_sep(owner, repo, '/');
    assert(split_char(t, '/') =~= seq![owner, repo]);
    assert(owner[0] == owner[0] && owner.last() == owner[owner.len() - 1]);
    lemma_trim_plain(owner);
    lemma_trim_plain(repo);
    assert(valid_name(owner));
    assert(valid_name(repo));
}

/// `s`, or its first `max` characters followed by `…` when it is longer.
pub open spec fn truncate_spec(s: Seq<char>, max: nat) -> Seq<char> {
    if s.len() <= max {
        s
    } else {
        s.take(max as int).push('…')
    }
}

impl GitHubRef {
    pub open spec fn owner_repo(&self) -> (Seq<char>, Seq<char>) {
        (self.owner@, self.repo@)
    }

    /// The cache directory of the clone: `owner__repo`.
    pub fn cache_dir_name(&self) -> (s: String)
        ensures
            s@ == self.owner@ + "__"@ + self.repo@,
    {
        let mut s = String::new();
        push_str(&mut s, self.owner.as_str());
        push_str(&mut s, "__");
        push_str(&mut s, self.repo.as_str());
        s
    }

    /// The https URL to clone from.
    pub fn clone_url_https(&self) -> (s: String)
        ensures
            s@ == "https://github.com/"@ + self.owner@ + "/"@ + self.repo@ + ".git"@,
    {
        let mut s = String::new();
        push_str(&mut s, "https://github.com/");
        push_str(&mut s, self.owner.as_str());
        push_str(&mut s, "/");
        push_str(&mut s, self.repo.as_str());
        push_str(&mut s, ".git");
        s
    }

    /// `owner/repo`.
    pub fn display_name(&self) -> (s: String)
        ensures
            s@ == self.owner@ + "/"@ + self.repo@,
    {
        let mut s = String::new();
        push_str(&mut s, self.owner.as_str());
        push_str(&mut s, "/");
        push_str(&mut s, self.repo.as_str());
        s
    }

    /// The identity key of the repository: `github:owner/repo`.
    pub fn identity(&self) -> (s: String)
        ensures
            s@ == "github:"@ + self.owner@ + "/"@ + self.repo@,
    {
        let mut s = String::new();
        push_str(&mut s, "github:");
        push_str(&mut s, self.owner.as_str());
        push_str(&mut s, "/");
        push_str(&mut s, self.repo.as_str());
        s
    }
}

fn is_name_char(c: char) -> (b: bool)
    ensures
        b == name_char(c),
{
    ('a' <= c && c <= 'z') || ('A' <= c && c <= 'Z') || ('0' <= c && c <= '9') || c == '-' || c
        == '_' || c == '.'
}

/// Whether `s` is a valid owner or repository name.
pub fn is_valid_name(s: &[char]) -> (b: bool)
    ensures
        b == valid_name(s@),
{
    if s.len() == 0 {
        return false;
    }
    let mut i: usize = 0;
    while i < s.len()
        invariant
            i <= s@.len(),
            forall|j: int| 0 <= j < i ==> name_char(#[trigger] s@[j]),
        decreases s.len() - i,
    {
        if !is_name_char(s[i]) {
            return false;
        }
        i += 1;
    }
    true
}

fn string_from(v: &[char]) -> (s: String)
    ensures
        s@ == v@,
{
    let mut s = String::new();
    push_chars(&mut s, v);
    assert(s@ =~= v@);
    s
}

fn split_owner_repo(rest: &[char]) -> (r: Option<GitHubRef>)
    ensures
        match split_owner_repo_spec(rest@) {
            Some((o, p)) => r is Some && r.unwrap().owner@ == o && r.unwrap().repo@ == p,
            None => r is None,
        },
{
    let body = trim_end_matches_chars(rest, ".git");
    let parts = split_on(body.as_slice(), '/');
    if parts.len() != 2 {
        return None;
    }
    let owner = trim_chars(parts[0].as_slice());
    let repo = trim_chars(parts[1].as_slice());
    if owner.len() == 0 || repo.len() == 0 || !is_valid_name(owner.as_slice()) || !is_valid_name(
        repo.as_slice(),
    ) {
        return None;
    }
    Some(GitHubRef { owner: string_from(owner.as_slice()), repo: string_from(repo.as_slice()) })
}

/// Parse `https://github.com/owner/repo`, `git@github.com:owner/repo.git`, or
/// `owner/repo`.
pub fn parse_github_input(input: &str) -> (r: Option<GitHubRef>)
    ensures
        match parse_github_spec(input@) {
            Some((o, p)) => r is Some && r.unwrap().owner@ == o && r.unwrap().repo@ == p,
            None => r is None,
        },
{
    let ic = chars_of(input);
    let t0 = trim_chars(ic.as_slice());
    let t = trim_end_matches_chars(t0.as_slice(), "/");
    if let Some(rest) = strip_prefix_chars(t.as_slice(), "https://github.com/") {
        return split_owner_repo(rest.as_slice());
    }
    if let Some(rest) = strip_prefix_chars(t.as_slice(), "http://github.com/") {
        return split_owner_repo(rest.as_slice());
    }
    if let Some(rest) = strip_prefix_chars(t.as_slice(), "ssh://git@github.com/") {
        return split_owner_repo(rest.as_slice());
    }
    if let Some(rest) = strip_prefix_chars(t.as_slice(), "git@github.com:") {
        return split_owner_repo(rest.as_slice());
    }
    let scheme = chars_of("://");
    let at = chars_of("git@");
    proof {
        crate::text::lemma_find_facts(t@, "://"@);
    }
    if find_chars(t.as_slice(), scheme.as_slice()).is_some() || starts_with_chars(
        t.as_slice(),
        at.as_slice(),
    ) {
        return None;
    }
    split_owner_repo(t.as_slice())
}

/// `s`, cut to `max` characters with `…` appended when it is longer.
pub fn truncate(s: &str, max: usize) -> (r: String)
    ensures
        r@ == truncate_spec(s@, max as nat),
{
    let c = chars_of(s);
    if c.len() <= max {
        string_from(c.as_slice())
    } else {
        let mut r = String::new();
        let mut i: usize = 0;
        while i < max
            invariant
                i <= max < c@.len(),
                r@ == c@.take(i as int),
            decreases max - i,
        {
            crate::text::push_char(&mut r, c[i]);
            assert(c@.take(i + 1) =~= c@.take(i as int).push(c@[i as int]));
            i += 1;
        }
        crate::text::push_char(&mut r, '…');
        r
    }
}

/// The error text of a failed clone: git's trimmed error output, cut to 400
/// characters, or `exit <status>` when git printed nothing.
pub fn clone_failure_message(stderr: &str, status: &str) -> (r: String)
    ensures
        r@ == if trim(stderr@).len() == 0 {
            "exit "@ + status@
        } else {
            truncate_spec(trim(stderr@), 400)
        },
{
    let c = chars_of(stderr);
    let t = trim_chars(c.as_slice());
    if t.len() == 0 {
        let mut r = String::new();
        push_str(&mut r, "exit ");
        push_str(&mut r, status);
        r
    } else {
        let ts = string_from(t.as_slice());
        truncate(ts.as_str(), 400)
    }
}

/// The repository a clone of `gh` at `root` opens as.
pub fn resolved(gh: &GitHubRef, root: PathBuf) -> (r: ResolvedRepository)
    ensures
        r.identity@ == "github:"@ + gh.owner@ + "/"@ + gh.repo@,
        r.display_name@ == gh.owner@ + "/"@ + gh.repo@,
        r.input@ == gh.owner@ + "/"@ + gh.repo@,
        r.kind == SourceKind::GitHub,
        r.root == root,
{
    ResolvedRepository {
        identity: gh.identity(),
        display_name: gh.display_name(),
        kind: SourceKind::GitHub,
        root,
        input: gh.display_name(),
    }
}

} // verus!
