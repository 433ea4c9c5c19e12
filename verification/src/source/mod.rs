//! Deciding what a repository input refers to.

pub mod git;
pub mod local;

use vstd::prelude::*;

use crate::source::git::{parse_github_input, parse_github_spec, GitHubRef};
use crate::source::local::{looks_like_local_path, looks_local_spec};
use crate::text::{chars_of, push_chars, push_str, trim, trim_chars};

verus! {

/// Where an input leads.
#[derive(Debug)]
pub enum SourceTarget {
    /// A local path (the trimmed input).
    Local(String),
    /// A GitHub repository to clone or reuse from the cache.
    GitHub(GitHubRef),
}

/// Why an input names no repository.
#[derive(Debug, Clone, PartialEq, Eq)]
pub enum InputError {
    Empty,
    Unrecognized(String),
}

impl InputError {
    pub open spec fn text(&self) -> Seq<char> {
        match self {
            InputError::Empty => "empty repository input"@,
            InputError::Unrecognized(i) => "expected a GitHub URL, owner/repo, or local path; got `"@
                + i@ + "`"@,
        }
    }

    /// The message shown for the error.
    pub fn message(&self) -> (s: String)
        ensures
            s@ == self.text(),
    {
        let mut s = String::new();
        match self {
            InputError::Empty => push_str(&mut s, "empty repository input"),
            InputError::Unrecognized(i) => {
                push_str(&mut s, "expected a GitHub URL, owner/repo, or local path; got `");
                push_str(&mut s, i.as_str());
                push_str(&mut s, "`");
            },
        }
        s
    }
}

/// Decide what user input refers to. `on_disk` tells whether the trimmed input
/// names an existing path. A path-looking or existing input is local;
/// otherwise it must be a GitHub reference.
pub fn resolve_source(input: &str, on_disk: bool) -> (r: Result<SourceTarget, InputError>)
    ensures
        ({
            let t = trim(input@);
            if t.len() == 0 {
                r == Err::<SourceTarget, InputError>(InputError::Empty)
            } else if looks_local_spec(t, on_disk) {
                r matches Ok(SourceTarget::Local(p)) && p@ == t
            } else {
                match parse_github_spec(t) {
                    Some((o, p)) => r matches Ok(SourceTarget::GitHub(g)) && g.owner@ == o
                        && g.repo@ == p,
                    None => r matches Err(InputError::Unrecognized(i)) && i@ == t,
                }
            }
        }),
{
    let c = chars_of(input);
    let t = trim_chars(c.as_slice());
    let mut ts = String::new();
    push_chars(&mut ts, t.as_slice());
    if t.len() == 0 {
        return Err(InputError::Empty);
    }
    if looks_like_local_path(ts.as_str(), on_disk) {
        return Ok(SourceTarget::Local(ts));
    }
    match parse_github_input(ts.as_str()) {
        Some(g) => Ok(SourceTarget::GitHub(g)),
        None => Err(InputError::Unrecognized(ts)),
    }
}

} // verus!
