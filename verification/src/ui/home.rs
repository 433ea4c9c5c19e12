//! Home screen state: the Recent list selection and the summary.

use vstd::prelude::*;

use crate::store::{GlobalSummary, RecentRepo};
use crate::ui::wrap_move;

verus! {

#[derive(Debug, Clone)]
pub struct HomeView {
    pub recent: Vec<RecentRepo>,
    pub summary: GlobalSummary,
    pub selected: usize,
    pub error: Option<String>,
}

impl HomeView {
    pub fn new(recent: Vec<RecentRepo>, summary: GlobalSummary) -> (v: HomeView)
        ensures
            v.recent == recent,
            v.summary == summary,
            v.selected == 0,
            v.error is None,
    {
        HomeView { recent, summary, selected: 0, error: None }
    }

    /// Move the selection by `delta`, wrapping; nothing happens without entries.
    pub fn move_by(&mut self, delta: isize)
        ensures
            final(self).recent == old(self).recent,
            final(self).summary == old(self).summary,
            final(self).error == old(self).error,
            final(self).selected == if old(self).recent@.len() == 0 {
                old(self).selected as int
            } else {
                (old(self).selected + delta) % (old(self).recent@.len() as int)
            },
    {
        if self.recent.len() == 0 {
            return;
        }
        self.selected = wrap_move(self.selected, delta, self.recent.len());
    }

    /// The input of the selected recent repository.
    pub fn selected_input(&self) -> (r: Option<&str>)
        ensures
            match r {
                Some(s) => self.selected < self.recent@.len() && s@ == self.recent@[self.selected as int].input@,
                None => self.selected >= self.recent@.len(),
            },
    {
        if self.selected < self.recent.len() {
            Some(self.recent[self.selected].input.as_str())
        } else {
            None
        }
    }

    pub fn select_first(&mut self)
        ensures
            final(self).selected == 0,
            final(self).recent == old(self).recent,
            final(self).summary == old(self).summary,
            final(self).error == old(self).error,
    {
        self.selected = 0;
    }

    pub fn select_last(&mut self)
        ensures
            final(self).selected == if old(self).recent@.len() == 0 {
                0
            } else {
                old(self).recent@.len() - 1
            },
            final(self).recent == old(self).recent,
            final(self).summary == old(self).summary,
            final(self).error == old(self).error,
    {
        self.selected = if self.recent.len() == 0 {
            0
        } else {
            self.recent.len() - 1
        };
    }
}

} // verus!
