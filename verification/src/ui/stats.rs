//! Stats overlay state: the summary and the repository list selection.

use vstd::prelude::*;

use crate::store::{GlobalSummary, RecentRepo};
use crate::text::{chars_of, string_of, subrange};
use crate::ui::wrap_move;

verus! {

#[derive(Debug, Clone)]
pub struct StatsView {
    pub summary: GlobalSummary,
    pub repos: Vec<RecentRepo>,
    pub selected: usize,
}

impl StatsView {
    pub fn new(summary: GlobalSummary, repos: Vec<RecentRepo>) -> (v: StatsView)
        ensures
            v.summary == summary,
            v.repos == repos,
            v.selected == 0,
    {
        StatsView { summary, repos, selected: 0 }
    }

    /// Move the selection by `delta`, wrapping; nothing happens without entries.
    pub fn move_by(&mut self, delta: isize)
        ensures
            final(self).repos == old(self).repos,
            final(self).summary == old(self).summary,
            final(self).selected == if old(self).repos@.len() == 0 {
                old(self).selected as int
            } else {
                (old(self).selected + delta) % (old(self).repos@.len() as int)
            },
    {
        if self.repos.len() == 0 {
            return;
        }
        self.selected = wrap_move(self.selected, delta, self.repos.len());
    }

    pub fn select_first(&mut self)
        ensures
            final(self).selected == 0,
            final(self).repos == old(self).repos,
            final(self).summary == old(self).summary,
    {
        self.selected = 0;
    }

    pub fn select_last(&mut self)
        ensures
            final(self).selected == if old(self).repos@.len() == 0 {
                0
            } else {
                old(self).repos@.len() - 1
            },
            final(self).repos == old(self).repos,
            final(self).summary == old(self).summary,
    {
        self.selected = if self.repos.len() == 0 {
            0
        } else {
            self.repos.len() - 1
        };
    }
}

/// A repository name as the stats list shows it: whole when it has at most
/// `max` characters, else its first `max - 1` characters and `…`.
pub open spec fn fitted_name(s: Seq<char>, max: nat) -> Seq<char> {
    if s.len() <= max {
        s
    } else {
        s.take(if max >= 1 { max - 1 } else { 0 }).push('…')
    }
}

/// `s` cut to `max` characters, the last of them `…`, when it is longer.
pub fn fit_name(s: &str, max: usize) -> (r: String)
    ensures
        r@ == fitted_name(s@, max as nat),
{
    let c = chars_of(s);
    if c.len() <= max {
        return string_of(c.as_slice());
    }
    let keep: usize = if max >= 1 { max - 1 } else { 0 };
    let mut head = subrange(c.as_slice(), 0, keep);
    head.push('…');
    assert(head@ =~= s@.take(keep as int).push('…'));
    string_of(head.as_slice())
}

} // verus!
