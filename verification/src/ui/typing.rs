//! Layout of the typing screen body: the target split into lines of
//! indexed characters, and the line the cursor is on.

use vstd::prelude::*;

verus! {

/// The characters of `s` with their indices, split into lines; each line
/// keeps its closing `\n`, and the text after the last `\n` is the last line.
pub open spec fn indexed_lines(s: Seq<char>) -> Seq<Seq<(usize, char)>>
    decreases s.len(),
{
    if s.len() == 0 {
        seq![Seq::empty()]
    } else {
        let prev = indexed_lines(s.drop_last());
        let cur = prev.last().push(((s.len() - 1) as usize, s.last()));
        let updated = prev.update(prev.len() - 1, cur);
        if s.last() == '\n' {
            updated.push(Seq::empty())
        } else {
            updated
        }
    }
}

pub proof fn lemma_indexed_lines_nonempty(s: Seq<char>)
    ensures
        indexed_lines(s).len() >= 1,
    decreases s.len(),
{
    if s.len() > 0 {
        lemma_indexed_lines_nonempty(s.drop_last());
    }
}

/// The views of a list of lines.
pub open spec fn lines_view(v: Seq<Vec<(usize, char)>>) -> Seq<Seq<(usize, char)>> {
    v.map_values(|l: Vec<(usize, char)>| l@)
}

/// Split the target into lines of `(index, char)`.
pub fn split_lines(chars: &[char]) -> (lines: Vec<Vec<(usize, char)>>)
    ensures
        lines_view(lines@) == indexed_lines(chars@),
{
    let mut lines: Vec<Vec<(usize, char)>> = Vec::new();
    let mut cur: Vec<(usize, char)> = Vec::new();
    let mut i: usize = 0;
    while i < chars.len()
        invariant
            i <= chars@.len(),
            lines_view(lines@).push(cur@) == indexed_lines(chars@.take(i as int)),
        decreases chars.len() - i,
    {
        proof {
            lemma_indexed_lines_nonempty(chars@.take(i as int));
        }
        assert(chars@.take(i + 1).drop_last() =~= chars@.take(i as int));
        let ch = chars[i];
        let ghost before = lines_view(lines@);
        cur.push((i, ch));
        if ch == '\n' {
            lines.push(cur);
            cur = Vec::new();
            assert(lines_view(lines@) =~= before.push(indexed_lines(chars@.take(i as int)).last().push((i, ch))));
        }
        assert(lines_view(lines@).push(cur@) =~= indexed_lines(chars@.take(i + 1)));
        i += 1;
    }
    assert(chars@.take(chars@.len() as int) =~= chars@);
    let ghost before = lines_view(lines@);
    lines.push(cur);
    assert(lines_view(lines@) =~= before.push(cur@));
    lines
}

/// The cursor is on a line when the line is not empty and the cursor is
/// between its first index and one past its last.
pub open spec fn line_hit(line: Seq<(usize, char)>, cursor: nat) -> bool {
    line.len() > 0 && line[0].0 <= cursor && cursor <= line.last().0 + 1
}

/// The first line from `k` on that the cursor is on; the last line when none is.
pub open spec fn line_at_from(lines: Seq<Seq<(usize, char)>>, cursor: nat, k: int) -> nat
    decreases lines.len() - k,
{
    if k < 0 || k >= lines.len() {
        if lines.len() > 0 {
            (lines.len() - 1) as nat
        } else {
            0
        }
    } else if line_hit(lines[k], cursor) {
        k as nat
    } else {
        line_at_from(lines, cursor, k + 1)
    }
}

/// The line the cursor is on.
pub fn line_index_at(lines: &Vec<Vec<(usize, char)>>, cursor: usize) -> (li: usize)
    ensures
        li == line_at_from(lines_view(lines@), cursor as nat, 0),
{
    let ghost lv = lines_view(lines@);
    let mut k: usize = 0;
    while k < lines.len()
        invariant
            k <= lines@.len(),
            lv == lines_view(lines@),
            line_at_from(lv, cursor as nat, 0) == line_at_from(lv, cursor as nat, k as int),
        decreases lines.len() - k,
    {
        let line = &lines[k];
        assert(lv[k as int] == line@);
        if line.len() > 0 {
            let first = line[0].0;
            let last = line[line.len() - 1].0;
            if cursor >= first && (cursor == 0 || cursor - 1 <= last) {
                return k;
            }
        }
        k += 1;
    }
    lines.len().saturating_sub(1)
}

} // verus!
