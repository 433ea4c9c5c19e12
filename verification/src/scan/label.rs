//! Source line classification for configurable content filtering.

pub mod regex_fallback;
pub mod treesitter;

use vstd::prelude::*;

use crate::scan::label::regex_fallback::{contains_lit, delimiter_text, fallback_labels, triple_delimiter};
use crate::scan::label::treesitter::{
    classify, classify_lines, collect_marks, marks_of, nodes_view, syntax_for, syntax_of, NodeView, SyntaxNode,
};
use crate::scan::language::{language_of_path, SourceLanguage};
use crate::text::{
    chars_of, contains, lemma_split_char_nonempty, split_char, split_on, starts_with,
    starts_with_chars, subrange, trim, trim_chars,
};

verus! {

/// Classification used by the `include_*` content settings.
#[derive(Debug, Clone, Copy, PartialEq, Eq, Structural)]
pub enum LineLabel {
    Code,
    Import,
    Doc,
    Comment,
}

/// Lines inside triple-quoted strings (docstrings), and the open delimiter
/// after the lines.
pub open spec fn docstring_scan(lines: Seq<Seq<char>>) -> (Option<Seq<char>>, Seq<bool>)
    decreases lines.len(),
{
    if lines.len() == 0 {
        (None, Seq::empty())
    } else {
        let (open, flags) = docstring_scan(lines.drop_last());
        let t = trim(lines.last());
        match open {
            Some(d) => (if contains(t, d) {
                None
            } else {
                Some(d)
            }, flags.push(true)),
            None => match triple_delimiter(t) {
                Some(d) => (if contains(t.skip(3), d) {
                    None
                } else {
                    Some(d)
                }, flags.push(true)),
                None => (None, flags.push(false)),
            },
        }
    }
}

/// Labels with every docstring line marked as documentation.
pub open spec fn with_docstrings(source: Seq<char>, labels: Seq<LineLabel>) -> Seq<LineLabel> {
    let flags = docstring_scan(split_char(source, '\n')).1;
    Seq::new(
        labels.len(),
        |i: int|
            if i < flags.len() && flags[i] {
                LineLabel::Doc
            } else {
                labels[i]
            },
    )
}

/// Parser labels, with code lines the line rules see as documentation or
/// comments taking that label.
pub open spec fn merged(labels: Seq<LineLabel>, fallback: Seq<LineLabel>) -> Seq<LineLabel> {
    Seq::new(
        labels.len(),
        |i: int|
            if i < fallback.len() && labels[i] == LineLabel::Code && (fallback[i] == LineLabel::Doc
                || fallback[i] == LineLabel::Comment) {
                fallback[i]
            } else {
                labels[i]
            },
    )
}

/// The labels of `source` given what the parser made of it.
pub open spec fn labels_spec(source: Seq<char>, syntax: Option<Seq<NodeView>>) -> Seq<LineLabel> {
    match syntax {
        Some(nodes) => merged(
            with_docstrings(source, classify(vstd::utf8::encode_utf8(source), marks_of(nodes))),
            fallback_labels(source),
        ),
        None => fallback_labels(source),
    }
}

fn apply_docstring_labels(source: &str, labels: &mut Vec<LineLabel>)
    ensures
        final(labels)@ == with_docstrings(source@, old(labels)@),
{
    let text = chars_of(source);
    let lines = split_on(text.as_slice(), '\n');
    let ghost sp = split_char(source@, '\n');
    let ghost orig = labels@;
    let mut open: Option<bool> = None;
    let mut i: usize = 0;
    while i < lines.len()
        invariant
            i <= lines@.len(),
            lines@.len() == sp.len(),
            forall|q: int| 0 <= q < lines@.len() ==> #[trigger] lines@[q]@ == sp[q],
            labels@.len() == orig.len(),
            docstring_scan(sp.take(i as int)).0 == match open {
                Some(d) => Some(delimiter_text(d)),
                None => None,
            },
            docstring_scan(sp.take(i as int)).1.len() == i,
            forall|q: int|
                0 <= q < orig.len() ==> #[trigger] labels@[q] == if q < i && docstring_scan(
                    sp.take(i as int),
                ).1[q] {
                    LineLabel::Doc
                } else {
                    orig[q]
                },
        decreases lines.len() - i,
    {
        assert(sp.take(i + 1).drop_last() =~= sp.take(i as int));
        assert(sp.take(i + 1).last() == lines@[i as int]@);
        let t = trim_chars(lines[i].as_slice());
        let ts = t.as_slice();
        let mut doc = false;
        match open {
            Some(d) => {
                doc = true;
                let found = if d {
                    contains_lit(ts, "\"\"\"")
                } else {
                    contains_lit(ts, "'''")
                };
                if found {
                    open = None;
                }
            },
            None => {
                let p1 = chars_of("\"\"\"");
                let p2 = chars_of("'''");
                let which = if starts_with_chars(ts, p1.as_slice()) {
                    Some(true)
                } else if starts_with_chars(ts, p2.as_slice()) {
                    Some(false)
                } else {
                    None
                };
                match which {
                    Some(d) => {
                        doc = true;
                        proof {
                            reveal_strlit("\"\"\"");
                            reveal_strlit("'''");
                        }
                        let rest = subrange(ts, 3, ts.len());
                        assert(rest@ =~= t@.skip(3));
                        let found = if d {
                            contains_lit(rest.as_slice(), "\"\"\"")
                        } else {
                            contains_lit(rest.as_slice(), "'''")
                        };
                        if !found {
                            open = Some(d);
                        }
                    },
                    None => {},
                }
            },
        }
        if doc && i < labels.len() {
            labels.set(i, LineLabel::Doc);
        }
        i += 1;
    }
    assert(sp.take(sp.len() as int) =~= sp);
    assert(labels@ =~= with_docstrings(source@, orig));
}

fn merge_fallback(labels: &mut Vec<LineLabel>, fallback: &Vec<LineLabel>)
    ensures
        final(labels)@ == merged(old(labels)@, fallback@),
{
    let ghost orig = labels@;
    let mut i: usize = 0;
    while i < labels.len() && i < fallback.len()
        invariant
            i <= orig.len(),
            labels@.len() == orig.len(),
            forall|q: int|
                0 <= q < orig.len() ==> #[trigger] labels@[q] == if q < i {
                    merged(orig, fallback@)[q]
                } else {
                    orig[q]
                },
        decreases labels.len() - i,
    {
        let l = labels[i];
        let f = fallback[i];
        if l == LineLabel::Code && (f == LineLabel::Doc || f == LineLabel::Comment) {
            labels.set(i, f);
        }
        i += 1;
    }
    assert(labels@ =~= merged(orig, fallback@));
}

/// Label every line given the parser's nodes, or by the line rules alone
/// when there are none.
pub fn labels_with_syntax(
    relative_path: &str,
    source: &str,
    syntax: Option<&[SyntaxNode]>,
) -> (labels: Vec<LineLabel>)
    ensures
        labels@ == labels_spec(
            source@,
            match syntax {
                Some(n) => Some(nodes_view(n@)),
                None => None,
            },
        ),
{
    match syntax {
        Some(nodes) => {
            let marks = collect_marks(nodes);
            let mut labels = classify_lines(source, &marks);
            apply_docstring_labels(source, &mut labels);
            let fallback = regex_fallback::label_lines(relative_path, source);
            merge_fallback(&mut labels, &fallback);
            labels
        },
        None => regex_fallback::label_lines(relative_path, source),
    }
}

/// Label every source line, preserving the original line count and order.
pub fn label_lines(relative_path: &str, source: &str) -> (labels: Vec<LineLabel>)
    ensures
        labels@ == labels_spec(source@, syntax_for(language_of_path(relative_path@), source@)),
{
    let language = SourceLanguage::from_path(relative_path);
    if language.is_tree_sitter_supported() {
        match syntax_of(language, source) {
            Some(nodes) => {
                let r = labels_with_syntax(relative_path, source, Some(nodes.as_slice()));
                assert(labels_spec(source@, Some(nodes_view(nodes@))) == r@);
                return r;
            },
            None => {},
        }
    }
    let r = labels_with_syntax(relative_path, source, None);
    assert(labels_spec(source@, None) == r@);
    r
}

} // verus!
