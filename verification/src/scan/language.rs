//! Source-language detection used by extraction and dependency scanning.

use vstd::prelude::*;

use crate::domain::file_type::base_name;
use crate::text::{ascii_lower, ascii_lower_chars, chars_of, last_char_index, last_char_pos, subrange};

verus! {

/// Languages with a dedicated parser or import resolver.
#[derive(Debug, Clone, Copy, PartialEq, Eq, Structural)]
pub enum SourceLanguage {
    Rust,
    TypeScript,
    Tsx,
    JavaScript,
    Jsx,
    Python,
    Go,
    Unknown,
}

/// The extension of a path as `Path::extension` sees it: the text after the
/// last `.` of the file name, unless that dot starts the name.
pub open spec fn path_extension(p: Seq<char>) -> Option<Seq<char>> {
    let name = base_name(p);
    match last_char_index(name, '.') {
        Some(i) => if i > 0 {
            Some(name.skip(i + 1))
        } else {
            None
        },
        None => None,
    }
}

pub open spec fn language_of_ext(ext: Seq<char>) -> SourceLanguage {
    if ext == "rs"@ {
        SourceLanguage::Rust
    } else if ext == "ts"@ {
        SourceLanguage::TypeScript
    } else if ext == "tsx"@ {
        SourceLanguage::Tsx
    } else if ext == "js"@ || ext == "mjs"@ || ext == "cjs"@ {
        SourceLanguage::JavaScript
    } else if ext == "jsx"@ {
        SourceLanguage::Jsx
    } else if ext == "py"@ || ext == "pyi"@ {
        SourceLanguage::Python
    } else if ext == "go"@ {
        SourceLanguage::Go
    } else {
        SourceLanguage::Unknown
    }
}

/// The language of a repository-relative path.
pub open spec fn language_of_path(p: Seq<char>) -> SourceLanguage {
    match path_extension(p) {
        Some(ext) => language_of_ext(ascii_lower(ext)),
        None => SourceLanguage::Unknown,
    }
}

pub open spec fn tree_sitter_supported(l: SourceLanguage) -> bool {
    l != SourceLanguage::Unknown
}

fn is_lit(s: &[char], lit: &str) -> (b: bool)
    ensures
        b == (s@ == lit@),
{
    let l = chars_of(lit);
    crate::text::eq_chars(s, l.as_slice())
}

impl SourceLanguage {
    /// Detect a language from a repository-relative path.
    pub fn from_path(path: &str) -> (l: Self)
        ensures
            l == language_of_path(path@),
    {
        let p = chars_of(path);
        proof {
            crate::text::lemma_last_char_index(p@, '/');
        }
        let name = match last_char_pos(p.as_slice(), '/') {
            Some(i) => {
                assert(i < p.len());
                subrange(p.as_slice(), i + 1, p.len())
            },
            None => p,
        };
        assert(name@ =~= base_name(path@));
        proof {
            crate::text::lemma_last_char_index(name@, '.');
        }
        let dot = match last_char_pos(name.as_slice(), '.') {
            Some(i) => i,
            None => return SourceLanguage::Unknown,
        };
        if dot == 0 {
            return SourceLanguage::Unknown;
        }
        let ext_raw = subrange(name.as_slice(), dot + 1, name.len());
        assert(ext_raw@ =~= name@.skip(dot + 1));
        let ext = ascii_lower_chars(ext_raw.as_slice());
        let e = ext.as_slice();
        if is_lit(e, "rs") {
            SourceLanguage::Rust
        } else if is_lit(e, "ts") {
            SourceLanguage::TypeScript
        } else if is_lit(e, "tsx") {
            SourceLanguage::Tsx
        } else if is_lit(e, "js") || is_lit(e, "mjs") || is_lit(e, "cjs") {
            SourceLanguage::JavaScript
        } else if is_lit(e, "jsx") {
            SourceLanguage::Jsx
        } else if is_lit(e, "py") || is_lit(e, "pyi") {
            SourceLanguage::Python
        } else if is_lit(e, "go") {
            SourceLanguage::Go
        } else {
            SourceLanguage::Unknown
        }
    }

    pub fn is_tree_sitter_supported(self) -> (b: bool)
        ensures
            b == tree_sitter_supported(self),
    {
        match self {
            SourceLanguage::Unknown => false,
            _ => true,
        }
    }
}

} // verus!
