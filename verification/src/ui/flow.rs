//! Flow overlay: choose the progress mode and the entry point.

use vstd::prelude::*;

use crate::config::ProgressMode;
use crate::domain::entry::EntryCandidate;
use crate::text::{copy_string, str_eq};
use crate::ui::wrap_move;

verus! {

/// One row of the overlay.
#[derive(Debug, PartialEq, Eq)]
pub enum FlowRow {
    ModeFlow,
    ModeManual,
    Entry { path: String, reason: &'static str },
}

/// A row as plain values.
pub ghost enum RowView {
    Flow,
    Manual,
    Entry(Seq<char>, Seq<char>),
}

pub open spec fn row_view(r: FlowRow) -> RowView {
    match r {
        FlowRow::ModeFlow => RowView::Flow,
        FlowRow::ModeManual => RowView::Manual,
        FlowRow::Entry { path, reason } => RowView::Entry(path@, reason@),
    }
}

#[derive(Debug)]
pub struct FlowView {
    pub repo_label: String,
    pub rows: Vec<FlowRow>,
    pub selected: usize,
    pub mode: ProgressMode,
    pub entry: Option<String>,
    pub flow_enabled: bool,
    pub disabled_reason: Option<String>,
    pub file_count: usize,
}

/// The entry rows offered: the candidates, then the tree selection when it
/// is not already among them.
pub open spec fn entry_rows(cands: Seq<EntryCandidate>, tree_selection: Option<Seq<char>>) -> Seq<RowView> {
    let base = cands.map_values(|c: EntryCandidate| RowView::Entry(c.path@, c.reason@));
    match tree_selection {
        Some(p) => if (exists|i: int| 0 <= i < cands.len() && #[trigger] cands[i].path@ == p) {
            base
        } else {
            base.push(RowView::Entry(p, "selected in tree"@))
        },
        None => base,
    }
}

fn copy_row(r: &FlowRow) -> (c: FlowRow)
    ensures
        row_view(c) == row_view(*r),
{
    match r {
        FlowRow::ModeFlow => FlowRow::ModeFlow,
        FlowRow::ModeManual => FlowRow::ModeManual,
        FlowRow::Entry { path, reason } => FlowRow::Entry { path: copy_string(path), reason: *reason },
    }
}

impl FlowView {
    /// The rows as plain values.
    pub open spec fn rows_view(&self) -> Seq<RowView> {
        self.rows@.map_values(|r: FlowRow| row_view(r))
    }

    /// The shape every overlay has: the two mode rows, then entry rows.
    pub open spec fn wf(&self) -> bool {
        &&& self.rows_view().len() >= 2
        &&& self.rows_view()[0] == RowView::Flow
        &&& self.rows_view()[1] == RowView::Manual
        &&& forall|i: int| 2 <= i < self.rows_view().len() ==> #[trigger] self.rows_view()[i] is Entry
    }

    /// Whether the row at `index` can be selected: the flow row only while
    /// flow mode is available.
    pub open spec fn enabled_spec(&self, index: int) -> bool {
        0 <= index < self.rows_view().len() && (index != 0 || self.flow_enabled)
    }

    #[allow(clippy::too_many_arguments)]
    pub fn new(
        repo_label: &str,
        mode: ProgressMode,
        entry: Option<String>,
        candidates: Vec<EntryCandidate>,
        tree_selection: Option<String>,
        flow_enabled: bool,
        disabled_reason: Option<String>,
        file_count: usize,
    ) -> (v: FlowView)
        ensures
            v.wf(),
            v.rows_view() == seq![RowView::Flow, RowView::Manual] + entry_rows(
                candidates@,
                match tree_selection {
                    Some(p) => Some(p@),
                    None => None,
                },
            ),
            v.repo_label@ == repo_label@,
            v.mode == if flow_enabled {
                mode
            } else {
                ProgressMode::Manual
            },
            v.selected == if v.mode == ProgressMode::Flow && flow_enabled {
                0usize
            } else {
                1usize
            },
            v.entry == entry,
            v.flow_enabled == flow_enabled,
            v.disabled_reason == disabled_reason,
            v.file_count == file_count,
    {
        let mut rows: Vec<FlowRow> = Vec::new();
        rows.push(FlowRow::ModeFlow);
        rows.push(FlowRow::ModeManual);
        let ghost cv = candidates@;
        let ghost base = cv.map_values(|c: EntryCandidate| RowView::Entry(c.path@, c.reason@));
        let mut i: usize = 0;
        while i < candidates.len()
            invariant
                i <= candidates@.len(),
                cv == candidates@,
                base == cv.map_values(|c: EntryCandidate| RowView::Entry(c.path@, c.reason@)),
                rows@.map_values(|r: FlowRow| row_view(r)) == seq![RowView::Flow, RowView::Manual]
                    + base.take(i as int),
            decreases candidates.len() - i,
        {
            let c = &candidates[i];
            let ghost prev = rows@.map_values(|r: FlowRow| row_view(r));
            rows.push(FlowRow::Entry { path: copy_string(&c.path), reason: c.reason });
            assert(base[i as int] == RowView::Entry(c.path@, c.reason@));
            assert(rows@.map_values(|r: FlowRow| row_view(r)) =~= prev.push(base[i as int]));
            assert(base.take(i + 1) =~= base.take(i as int).push(base[i as int]));
            assert(rows@.map_values(|r: FlowRow| row_view(r)) =~= seq![
                RowView::Flow,
                RowView::Manual,
            ] + base.take(i + 1));
            i += 1;
        }
        assert(base.take(cv.len() as int) =~= base);
        match &tree_selection {
            Some(path) => {
                let mut seen = false;
                let mut k: usize = 0;
                while k < candidates.len()
                    invariant
                        k <= candidates@.len(),
                        seen <==> exists|j: int| 0 <= j < k && #[trigger] candidates@[j].path@ == path@,
                    decreases candidates.len() - k,
                {
                    if str_eq(candidates[k].path.as_str(), path.as_str()) {
                        seen = true;
                    }
                    k += 1;
                }
                if !seen {
                    let ghost before = rows@.map_values(|r: FlowRow| row_view(r));
                    rows.push(FlowRow::Entry { path: copy_string(path), reason: "selected in tree" });
                    assert(rows@.map_values(|r: FlowRow| row_view(r)) =~= before.push(
                        RowView::Entry(path@, "selected in tree"@),
                    ));
                }
            },
            None => {},
        }
        let mode = if flow_enabled {
            mode
        } else {
            ProgressMode::Manual
        };
        let selected: usize = if mode == ProgressMode::Flow && flow_enabled {
            0
        } else {
            1
        };
        let v = FlowView {
            repo_label: repo_label.to_owned(),
            rows,
            selected,
            mode,
            entry,
            flow_enabled,
            disabled_reason,
            file_count,
        };
        assert(v.rows_view() =~= seq![RowView::Flow, RowView::Manual] + entry_rows(
            candidates@,
            match tree_selection {
                Some(p) => Some(p@),
                None => None,
            },
        ));
        v
    }

    /// The number of rows.
    pub fn row_count(&self) -> (n: usize)
        ensures
            n == self.rows_view().len(),
    {
        self.rows.len()
    }

    /// A copy of the row at `index`.
    pub fn row_at(&self, index: usize) -> (r: Option<FlowRow>)
        ensures
            match r {
                Some(row) => index < self.rows_view().len() && row_view(row)
                    == self.rows_view()[index as int],
                None => index >= self.rows_view().len(),
            },
    {
        if index < self.rows.len() {
            Some(copy_row(&self.rows[index]))
        } else {
            None
        }
    }

    /// Move the selection by `delta`, wrapping, and stepping past the flow
    /// row while it is unavailable (onward in the direction of travel).
    pub fn move_by(&mut self, delta: isize)
        requires
            old(self).wf(),
            old(self).selected <= isize::MAX,
        ensures
            final(self).wf(),
            final(self).rows_view() == old(self).rows_view(),
            final(self).mode == old(self).mode,
            final(self).entry == old(self).entry,
            final(self).flow_enabled == old(self).flow_enabled,
            ({
                let len = old(self).rows_view().len() as int;
                let n = (old(self).selected + delta) % len;
                final(self).selected == if delta == 0 {
                    old(self).selected as int
                } else if old(self).enabled_spec(n) {
                    n
                } else {
                    (n + if delta > 0 {
                        1int
                    } else {
                        -1int
                    }) % len
                }
            }),
            delta != 0 ==> final(self).enabled_spec(final(self).selected as int),
    {
        if self.rows.len() == 0 || delta == 0 {
            return;
        }
        let len = self.rows.len();
        let next = wrap_move(self.selected, delta, len);
        if next != 0 || self.flow_enabled {
            self.selected = next;
        } else {
            let step: isize = if delta > 0 {
                1
            } else {
                -1
            };
            self.selected = wrap_move(next, step, len);
            proof {
                if delta > 0 {
                    vstd::arithmetic::div_mod::lemma_fundamental_div_mod_converse(1, len as int, 0, 1);
                } else {
                    vstd::arithmetic::div_mod::lemma_fundamental_div_mod_converse(
                        -1,
                        len as int,
                        -1,
                        len - 1,
                    );
                }
            }
        }
    }

    /// Apply the selected row: choose a mode (flow only while available) or an
    /// entry point.
    pub fn activate_selected(&mut self)
        ensures
            final(self).rows_view() == old(self).rows_view(),
            final(self).selected == old(self).selected,
            final(self).flow_enabled == old(self).flow_enabled,
            ({
                let s = old(self).selected as int;
                let rows = old(self).rows_view();
                if s < rows.len() {
                    match rows[s] {
                        RowView::Flow => if old(self).flow_enabled {
                            final(self).mode == ProgressMode::Flow && final(self).entry
                                == old(self).entry
                        } else {
                            final(self).mode == old(self).mode && final(self).entry
                                == old(self).entry
                        },
                        RowView::Manual => final(self).mode == ProgressMode::Manual
                            && final(self).entry == old(self).entry,
                        RowView::Entry(p, _) => final(self).mode == old(self).mode
                            && (final(self).entry matches Some(e) && e@ == p),
                    }
                } else {
                    final(self).mode == old(self).mode && final(self).entry == old(self).entry
                }
            }),
    {
        if self.selected < self.rows.len() {
            let ghost rv = self.rows_view();
            assert(rv[self.selected as int] == row_view(self.rows@[self.selected as int]));
            match &self.rows[self.selected] {
                FlowRow::ModeFlow => {
                    if self.flow_enabled {
                        self.mode = ProgressMode::Flow;
                    }
                },
                FlowRow::ModeManual => {
                    self.mode = ProgressMode::Manual;
                },
                FlowRow::Entry { path, .. } => {
                    let p = copy_string(path);
                    self.entry = Some(p);
                },
            }
        }
    }

    /// The list row the selection is drawn on: the mode heading comes first,
    /// then a blank line and the entry heading before the entry rows.
    pub fn rendered_index(&self) -> (r: usize)
        requires
            self.wf(),
            self.rows_view().len() + 3 <= usize::MAX,
        ensures
            r as int == if self.selected < 2 {
                self.selected + 1
            } else if self.selected < self.rows_view().len() {
                self.selected + 3
            } else if self.rows_view().len() > 2 {
                self.rows_view().len() + 3int
            } else {
                3int
            },
    {
        let len = self.rows.len();
        if self.selected < 2 {
            self.selected + 1
        } else if self.selected < len {
            self.selected + 3
        } else if len > 2 {
            len + 3
        } else {
            3
        }
    }
}

} // verus!
