//! Conservative line-oriented fallback for languages without a parser.

use vstd::prelude::*;

use crate::scan::label::LineLabel;
use crate::text::{
    chars_of, contains, find_chars, lemma_split_char_nonempty, split_char, split_on, starts_with,
    starts_with_chars, subrange, trim_start, trim_start_chars,
};

verus! {

pub open spec fn is_import_line(line: Seq<char>) -> bool {
    starts_with(line, "use "@) || starts_with(line, "use\t"@) || starts_with(line, "extern crate "@)
        || starts_with(line, "import "@) || starts_with(line, "import\t"@) || starts_with(
        line,
        "from "@,
    ) || starts_with(line, "require("@) || starts_with(line, "#include "@) || starts_with(
        line,
        "# include "@,
    ) || starts_with(line, "include "@) || starts_with(line, "source "@)
}

pub open spec fn is_line_comment(line: Seq<char>) -> bool {
    starts_with(line, "//"@) || (starts_with(line, "#"@) && !starts_with(line, "#!"@))
        || starts_with(line, "--"@)
}

pub open spec fn is_doc_comment(line: Seq<char>) -> bool {
    starts_with(line, "///"@) || starts_with(line, "//!"@) || starts_with(line, "/**"@)
        || starts_with(line, "##"@)
}

/// A block comment opening: `Some(true)` for a doc block.
pub open spec fn block_comment_start(line: Seq<char>) -> Option<bool> {
    if starts_with(line, "/**"@) {
        Some(true)
    } else if starts_with(line, "/*"@) {
        Some(false)
    } else {
        None
    }
}

/// The delimiter of a triple-quoted string that opens the line.
pub open spec fn triple_delimiter(line: Seq<char>) -> Option<Seq<char>> {
    if starts_with(line, "\"\"\""@) {
        Some("\"\"\""@)
    } else if starts_with(line, "'''"@) {
        Some("'''"@)
    } else {
        None
    }
}

/// One line of the scan: the label and the state after it.
pub open spec fn fallback_step(st: (Option<bool>, Option<Seq<char>>), line: Seq<char>) -> (
    (Option<bool>, Option<Seq<char>>),
    LineLabel,
) {
    let trimmed = trim_start(line);
    let (block, triple) = st;
    match triple {
        Some(d) => ((block, if contains(trimmed, d) {
            None
        } else {
            Some(d)
        }), LineLabel::Doc),
        None => match block {
            Some(is_doc) => ((if contains(trimmed, "*/"@) {
                None
            } else {
                Some(is_doc)
            }, None), if is_doc {
                LineLabel::Doc
            } else {
                LineLabel::Comment
            }),
            None => match triple_delimiter(trimmed) {
                Some(d) => ((None, if contains(trimmed.skip(3), d) {
                    None
                } else {
                    Some(d)
                }), LineLabel::Doc),
                None => match block_comment_start(trimmed) {
                    Some(is_doc) => ((if !contains(trimmed, "*/"@) {
                        Some(is_doc)
                    } else {
                        None
                    }, None), if is_doc {
                        LineLabel::Doc
                    } else {
                        LineLabel::Comment
                    }),
                    None => ((None, None), if is_import_line(trimmed) {
                        LineLabel::Import
                    } else if is_line_comment(trimmed) {
                        if is_doc_comment(trimmed) {
                            LineLabel::Doc
                        } else {
                            LineLabel::Comment
                        }
                    } else {
                        LineLabel::Code
                    }),
                },
            },
        },
    }
}

/// Labels of a sequence of lines and the state after them.
pub open spec fn fallback_scan(lines: Seq<Seq<char>>) -> ((Option<bool>, Option<Seq<char>>), Seq<LineLabel>)
    decreases lines.len(),
{
    if lines.len() == 0 {
        ((None, None), Seq::empty())
    } else {
        let (st, labels) = fallback_scan(lines.drop_last());
        let (next, label) = fallback_step(st, lines.last());
        (next, labels.push(label))
    }
}

/// The fallback label of every line of `source`.
pub open spec fn fallback_labels(source: Seq<char>) -> Seq<LineLabel> {
    fallback_scan(split_char(source, '\n')).1
}

fn begins(s: &[char], lit: &str) -> (b: bool)
    ensures
        b == starts_with(s@, lit@),
{
    let p = chars_of(lit);
    starts_with_chars(s, p.as_slice())
}

/// Whether `lit` occurs in `s`.
pub fn contains_lit(s: &[char], lit: &str) -> (b: bool)
    ensures
        b == contains(s@, lit@),
{
    let p = chars_of(lit);
    find_chars(s, p.as_slice()).is_some()
}

fn import_line(line: &[char]) -> (b: bool)
    ensures
        b == is_import_line(line@),
{
    begins(line, "use ") || begins(line, "use\t") || begins(line, "extern crate ") || begins(line, "import ")
        || begins(line, "import\t") || begins(line, "from ") || begins(line, "require(") || begins(
        line,
        "#include ",
    ) || begins(line, "# include ") || begins(line, "include ") || begins(line, "source ")
}

fn line_comment(line: &[char]) -> (b: bool)
    ensures
        b == is_line_comment(line@),
{
    begins(line, "//") || (begins(line, "#") && !begins(line, "#!")) || begins(line, "--")
}

fn doc_comment(line: &[char]) -> (b: bool)
    ensures
        b == is_doc_comment(line@),
{
    begins(line, "///") || begins(line, "//!") || begins(line, "/**") || begins(line, "##")
}

fn block_start(line: &[char]) -> (r: Option<bool>)
    ensures
        r == block_comment_start(line@),
{
    if begins(line, "/**") {
        Some(true)
    } else if begins(line, "/*") {
        Some(false)
    } else {
        None
    }
}

/// Triple-quote delimiters: `true` for `"""`, `false` for `'''`.
pub open spec fn delimiter_text(double: bool) -> Seq<char> {
    if double {
        "\"\"\""@
    } else {
        "'''"@
    }
}

fn triple(line: &[char]) -> (r: Option<bool>)
    ensures
        match r {
            Some(double) => triple_delimiter(line@) == Some(delimiter_text(double)),
            None => triple_delimiter(line@) is None,
        },
{
    if begins(line, "\"\"\"") {
        Some(true)
    } else if begins(line, "'''") {
        Some(false)
    } else {
        None
    }
}

fn contains_delimiter(s: &[char], double: bool) -> (b: bool)
    ensures
        b == contains(s@, delimiter_text(double)),
{
    if double {
        contains_lit(s, "\"\"\"")
    } else {
        contains_lit(s, "'''")
    }
}

/// Label every line of `source` with the line-oriented rules.
pub fn label_lines(_relative_path: &str, source: &str) -> (labels: Vec<LineLabel>)
    ensures
        labels@ == fallback_labels(source@),
{
    let text = chars_of(source);
    let lines = split_on(text.as_slice(), '\n');
    let ghost sp = split_char(source@, '\n');
    let mut labels: Vec<LineLabel> = Vec::new();
    let mut block: Option<bool> = None;
    let mut triple_open: Option<bool> = None;
    let mut i: usize = 0;
    while i < lines.len()
        invariant
            i <= lines@.len(),
            lines@.len() == sp.len(),
            forall|q: int| 0 <= q < lines@.len() ==> #[trigger] lines@[q]@ == sp[q],
            fallback_scan(sp.take(i as int)) == ((block, match triple_open {
                Some(d) => Some(delimiter_text(d)),
                None => None,
            }), labels@),
        decreases lines.len() - i,
    {
        let ghost prev = sp.take(i as int);
        assert(sp.take(i + 1).drop_last() =~= prev);
        assert(sp.take(i + 1).last() == lines@[i as int]@);
        let trimmed = trim_start_chars(lines[i].as_slice());
        let t = trimmed.as_slice();
        match triple_open {
            Some(d) => {
                labels.push(LineLabel::Doc);
                if contains_delimiter(t, d) {
                    triple_open = None;
                }
            },
            None => match block {
                Some(is_doc) => {
                    labels.push(
                        if is_doc {
                            LineLabel::Doc
                        } else {
                            LineLabel::Comment
                        },
                    );
                    if contains_lit(t, "*/") {
                        block = None;
                    }
                },
                None => match triple(t) {
                    Some(d) => {
                        labels.push(LineLabel::Doc);
                        let rest = if t.len() >= 3 {
                            subrange(t, 3, t.len())
                        } else {
                            Vec::new()
                        };
                        proof {
                            reveal_strlit("\"\"\"");
                            reveal_strlit("'''");
                        }
                        assert(rest@ =~= t@.skip(3));
                        if contains_delimiter(rest.as_slice(), d) {
                            triple_open = None;
                        } else {
                            triple_open = Some(d);
                        }
                    },
                    None => match block_start(t) {
                        Some(is_doc) => {
                            labels.push(
                                if is_doc {
                                    LineLabel::Doc
                                } else {
                                    LineLabel::Comment
                                },
                            );
                            if !contains_lit(t, "*/") {
                                block = Some(is_doc);
                            }
                        },
                        None => {
                            if import_line(t) {
                                labels.push(LineLabel::Import);
                            } else if line_comment(t) {
                                labels.push(
                                    if doc_comment(t) {
                                        LineLabel::Doc
                                    } else {
                                        LineLabel::Comment
                                    },
                                );
                            } else {
                                labels.push(LineLabel::Code);
                            }
                        },
                    },
                },
            },
        }
        i += 1;
    }
    assert(sp.take(sp.len() as int) =~= sp);
    labels
}

} // verus!
