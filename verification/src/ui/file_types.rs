//! File types overlay: per-extension / per-filename include, exclude and hide
//! toggles.

use vstd::prelude::*;

use crate::domain::content::{FileProgress, FileStatus, RepoProgress};
use crate::domain::file_type::{
    file_type_key, file_type_stats, key_count, key_has_ext, key_kept, next_state, stat_before,
    type_key, FileTypePrefs, FileTypeStat, FileTypeState,
};
use crate::text::{copy_string, lex_lt, str_eq};
use crate::ui::wrap_move;

verus! {

#[derive(Debug, Clone, PartialEq, Eq)]
pub struct FileTypeEntry {
    pub key: String,
    pub files: usize,
    pub state: FileTypeState,
}

#[derive(Debug, Clone)]
pub struct FileTypesView {
    pub repo_label: String,
    pub entries: Vec<FileTypeEntry>,
    pub selected: usize,
}

/// Some file of this type is not skipped right now.
pub open spec fn key_in_use(files: Seq<FileProgress>, key: Seq<char>) -> bool {
    exists|i: int|
        0 <= i < files.len() && type_key(#[trigger] files[i].relative_path@) == key
            && files[i].status_spec() != FileStatus::Skipped
}

/// The state a type starts in: types without an extension (`LICENSE`,
/// `.gitignore`) start excluded; others are included while some file of
/// the type is in use.
pub open spec fn default_state(files: Seq<FileProgress>, key: Seq<char>, has_extension: bool) -> FileTypeState {
    if !has_extension {
        FileTypeState::Excluded
    } else if key_in_use(files, key) {
        FileTypeState::Included
    } else {
        FileTypeState::Excluded
    }
}

/// The state shown for a type: the saved one, else the default.
pub open spec fn entry_state(
    files: Seq<FileProgress>,
    saved: Map<Seq<char>, FileTypeState>,
    key: Seq<char>,
    has_extension: bool,
) -> FileTypeState {
    if saved.contains_key(key) {
        saved[key]
    } else {
        default_state(files, key, has_extension)
    }
}

/// Entries in the order of the toggle list: more files first, then by key.
pub open spec fn entries_sorted(e: Seq<FileTypeEntry>) -> bool {
    forall|a: int, b: int| 0 <= a < b < e.len() ==> #[trigger] entry_before(e[a], e[b])
}

pub open spec fn entry_before(x: FileTypeEntry, y: FileTypeEntry) -> bool {
    x.files > y.files || (x.files == y.files && lex_lt(x.key@, y.key@))
}

fn key_in_use_exec(files: &Vec<FileProgress>, key: &str) -> (b: bool)
    ensures
        b == key_in_use(files@, key@),
{
    let mut i: usize = 0;
    while i < files.len()
        invariant
            i <= files@.len(),
            forall|q: int|
                0 <= q < i ==> !(type_key(#[trigger] files@[q].relative_path@) == key@
                    && files@[q].status_spec() != FileStatus::Skipped),
        decreases files.len() - i,
    {
        let k = file_type_key(files[i].relative_path.as_str());
        if str_eq(k.as_str(), key) && files[i].derive_status() != FileStatus::Skipped {
            return true;
        }
        i += 1;
    }
    false
}

impl FileTypesView {
    /// The overlay for the given file type statistics.
    pub fn from_stats(
        repo_label: &str,
        progress: &RepoProgress,
        stats: Vec<FileTypeStat>,
        saved: &FileTypePrefs,
    ) -> (v: FileTypesView)
        ensures
            v.repo_label@ == repo_label@,
            v.selected == 0,
            v.entries@.len() == stats@.len(),
            forall|i: int|
                0 <= i < stats@.len() ==> {
                    &&& (#[trigger] v.entries@[i]).key@ == stats@[i].key@
                    &&& v.entries@[i].files == stats@[i].files
                    &&& v.entries@[i].state == entry_state(
                        progress.files@,
                        saved@,
                        stats@[i].key@,
                        stats@[i].has_extension,
                    )
                },
    {
        let mut entries: Vec<FileTypeEntry> = Vec::new();
        let mut i: usize = 0;
        while i < stats.len()
            invariant
                i <= stats@.len(),
                entries@.len() == i,
                forall|q: int|
                    0 <= q < i ==> {
                        &&& (#[trigger] entries@[q]).key@ == stats@[q].key@
                        &&& entries@[q].files == stats@[q].files
                        &&& entries@[q].state == entry_state(
                            progress.files@,
                            saved@,
                            stats@[q].key@,
                            stats@[q].has_extension,
                        )
                    },
            decreases stats.len() - i,
        {
            let stat = &stats[i];
            let default_state = if !stat.has_extension {
                FileTypeState::Excluded
            } else if key_in_use_exec(&progress.files, stat.key.as_str()) {
                FileTypeState::Included
            } else {
                FileTypeState::Excluded
            };
            let state = match saved.get(stat.key.as_str()) {
                Some(s) => s,
                None => default_state,
            };
            entries.push(FileTypeEntry { key: copy_string(&stat.key), files: stat.files, state });
            i += 1;
        }
        FileTypesView { repo_label: repo_label.to_owned(), entries, selected: 0 }
    }

    /// The overlay for a repository: one entry per file type worth listing,
    /// more files first, each in its saved state or its default.
    pub fn from_progress(repo_label: &str, progress: &RepoProgress, saved: &FileTypePrefs) -> (v:
        FileTypesView)
        ensures
            v.repo_label@ == repo_label@,
            v.selected == 0,
            forall|i: int|
                0 <= i < v.entries@.len() ==> {
                    let k = (#[trigger] v.entries@[i]).key@;
                    &&& v.entries@[i].files == key_count(progress.files@, k)
                    &&& key_kept(progress.files@, k)
                    &&& key_count(progress.files@, k) > 0
                    &&& v.entries@[i].state == entry_state(
                        progress.files@,
                        saved@,
                        k,
                        key_has_ext(progress.files@, k),
                    )
                },
            forall|j: int|
                0 <= j < progress.files@.len() && key_kept(
                    progress.files@,
                    type_key(progress.files@[j].relative_path@),
                ) ==> exists|i: int|
                    0 <= i < v.entries@.len() && (#[trigger] v.entries@[i]).key@ == type_key(
                        progress.files@[j].relative_path@,
                    ),
            entries_sorted(v.entries@),
    {
        let stats = file_type_stats(progress);
        let ghost sv = stats@;
        let v = FileTypesView::from_stats(repo_label, progress, stats, saved);
        proof {
            assert forall|a: int, b: int| 0 <= a < b < v.entries@.len() implies #[trigger] entry_before(
                v.entries@[a],
                v.entries@[b],
            ) by {
                assert(stat_before(sv[a], sv[b]));
                assert(v.entries@[a].key@ == sv[a].key@);
                assert(v.entries@[b].key@ == sv[b].key@);
                assert(v.entries@[a].files == sv[a].files);
                assert(v.entries@[b].files == sv[b].files);
            }
            assert(entries_sorted(v.entries@));
            assert forall|j: int|
                0 <= j < progress.files@.len() && key_kept(
                    progress.files@,
                    type_key(progress.files@[j].relative_path@),
                ) implies exists|i: int|
                0 <= i < v.entries@.len() && (#[trigger] v.entries@[i]).key@ == type_key(
                    progress.files@[j].relative_path@,
                ) by {
                let i = choose|i: int|
                    0 <= i < sv.len() && (#[trigger] sv[i]).key@ == type_key(
                        progress.files@[j].relative_path@,
                    );
                assert(v.entries@[i].key@ == sv[i].key@);
            }
        }
        v
    }

    /// Move the selection by `delta`, wrapping; nothing happens without entries.
    pub fn move_by(&mut self, delta: isize)
        requires
            old(self).entries@.len() > 0 ==> old(self).selected <= isize::MAX,
        ensures
            final(self).entries == old(self).entries,
            final(self).repo_label == old(self).repo_label,
            final(self).selected == if old(self).entries@.len() == 0 {
                old(self).selected as int
            } else {
                (old(self).selected + delta) % (old(self).entries@.len() as int)
            },
    {
        if self.entries.len() == 0 {
            return;
        }
        self.selected = wrap_move(self.selected, delta, self.entries.len());
    }

    /// Included -> Excluded -> Hidden -> Included, for the selected entry.
    pub fn cycle_selected(&mut self)
        ensures
            final(self).selected == old(self).selected,
            final(self).repo_label == old(self).repo_label,
            final(self).entries@.len() == old(self).entries@.len(),
            forall|i: int|
                0 <= i < old(self).entries@.len() ==> {
                    &&& (#[trigger] final(self).entries@[i]).key@ == old(self).entries@[i].key@
                    &&& final(self).entries@[i].files == old(self).entries@[i].files
                    &&& final(self).entries@[i].state == if i == old(self).selected {
                        next_state(old(self).entries@[i].state)
                    } else {
                        old(self).entries@[i].state
                    }
                },
    {
        if self.selected < self.entries.len() {
            let i = self.selected;
            let old_entry = &self.entries[i];
            let e = FileTypeEntry {
                key: copy_string(&old_entry.key),
                files: old_entry.files,
                state: old_entry.state.cycle(),
            };
            self.entries.set(i, e);
        }
    }

    /// The states to save, one per entry.
    pub fn to_prefs(&self) -> (r: Vec<(String, FileTypeState)>)
        ensures
            r@.len() == self.entries@.len(),
            forall|i: int|
                0 <= i < r@.len() ==> (#[trigger] r@[i]).0@ == self.entries@[i].key@ && r@[i].1
                    == self.entries@[i].state,
    {
        let mut r: Vec<(String, FileTypeState)> = Vec::new();
        let mut i: usize = 0;
        while i < self.entries.len()
            invariant
                i <= self.entries@.len(),
                r@.len() == i,
                forall|q: int|
                    0 <= q < i ==> (#[trigger] r@[q]).0@ == self.entries@[q].key@ && r@[q].1
                        == self.entries@[q].state,
            decreases self.entries.len() - i,
        {
            r.push((copy_string(&self.entries[i].key), self.entries[i].state));
            i += 1;
        }
        r
    }
}

} // verus!
