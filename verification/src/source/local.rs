//! Local paths as repository sources.

use vstd::prelude::*;

use std::path::PathBuf;

use crate::domain::content::{ResolvedRepository, SourceKind};
use crate::text::{chars_of, contains_char, push_str};

verus! {

/// Whether an input reads as a local path rather than a GitHub reference.
pub open spec fn looks_local_spec(input: Seq<char>, on_disk: bool) -> bool {
    (input.len() > 0 && (input[0] == '.' || input[0] == '/' || input[0] == '~')) || on_disk
        || input.contains('\\')
}

/// True when `input` looks like a local path rather than a GitHub ref;
/// `on_disk` tells whether the path exists.
pub fn looks_like_local_path(input: &str, on_disk: bool) -> (b: bool)
    ensures
        b == looks_local_spec(input@, on_disk),
{
    let c = chars_of(input);
    (c.len() > 0 && (c[0] == '.' || c[0] == '/' || c[0] == '~')) || on_disk || contains_char(
        c.as_slice(),
        '\\',
    )
}

/// The repository a local path opens as: `canonical` is the canonical path
/// of the input, `root` the directory to scan (the input itself, or the
/// directory of a file) and `name` the name shown.
pub fn local_resolved(input: &str, canonical: &str, name: String, root: PathBuf) -> (r:
    ResolvedRepository)
    ensures
        r.identity@ == "local:"@ + canonical@,
        r.display_name@ == name@,
        r.input@ == input@,
        r.kind == SourceKind::Local,
        r.root == root,
{
    let mut identity = String::new();
    push_str(&mut identity, "local:");
    push_str(&mut identity, canonical);
    let mut inp = String::new();
    push_str(&mut inp, input);
    ResolvedRepository { identity, display_name: name, kind: SourceKind::Local, root, input: inp }
}

} // verus!
