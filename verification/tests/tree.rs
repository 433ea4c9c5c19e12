use repomonk::domain::content::{
    Chunk, ChunkCompletion, ChunkProgress, FileProgress, FileStatus, ManualOverride, RepoProgress, SkipReason,
};
use repomonk::ui::tree::{elide_dir_name, has_str, insert_str, list_height, remove_str, TreeRowKind, TreeView};

fn file(path: &str, body: &str) -> FileProgress {
    FileProgress {
        relative_path: path.into(),
        status: FileStatus::Todo,
        skip_reason: None,
        manual_override: None,
        chunks: vec![ChunkProgress {
            chunk: Chunk {
                relative_path: path.into(),
                start_line: 1,
                end_line: 1,
                normalized: body.into(),
                hash: path.into(),
            },
            completion: ChunkCompletion::Incomplete,
            checkpoint: None,
            id: Some(1),
        }],
    }
}

fn progress() -> RepoProgress {
    RepoProgress { files: vec![file("src/a.rs", "a"), file("src/b.rs", "b"), file("lib.rs", "l")] }
}

fn tree_view(progress: &RepoProgress, hide_skipped: bool) -> TreeView {
    TreeView::from_progress_full("demo", progress, hide_skipped, None, Vec::new())
}

fn skipped_file(path: &str, reason: SkipReason) -> FileProgress {
    FileProgress {
        relative_path: path.into(),
        status: FileStatus::Skipped,
        skip_reason: Some(reason),
        manual_override: None,
        chunks: vec![],
    }
}

fn names(tree: &TreeView) -> Vec<String> {
    tree.rows.iter().map(|r| r.name.clone()).collect()
}

fn has(names: &[String], name: &str) -> bool {
    names.iter().any(|n| n == name)
}

#[test]
fn hide_skipped_default_removes_skipped_rows_and_empty_dirs() {
    let mut progress = progress();
    progress.files.push(skipped_file("tests/foo.rs", SkipReason::TestFile));
    progress.files.push(skipped_file("docs/readme.md", SkipReason::ConfigFile));
    let tree = tree_view(&progress, true);
    let names = names(&tree);
    assert!(!has(&names, "tests"));
    assert!(!has(&names, "foo.rs"));
    assert!(!has(&names, "docs"));
    assert!(!has(&names, "readme.md"));
    assert!(has(&names, "src"));
    assert!(has(&names, "a.rs"));
    assert!(has(&names, "lib.rs"));
    assert_eq!(tree.excluded, 2);
}

#[test]
fn filter_keeps_matching_file_and_parent() {
    let progress = progress();
    let mut tree = tree_view(&progress, false);
    tree.filter = "b.rs".into();
    tree.refresh_rows(&progress);
    let names = names(&tree);
    assert!(has(&names, "src"));
    assert!(has(&names, "b.rs"));
    assert!(!has(&names, "a.rs"));
    assert!(!has(&names, "lib.rs"));
}

#[test]
fn typing_into_the_filter_narrows_and_clearing_restores() {
    let progress = progress();
    let mut tree = tree_view(&progress, false);
    tree.begin_filter();
    tree.push_filter('l', &progress);
    tree.push_filter('i', &progress);
    assert_eq!(names(&tree), vec!["lib.rs".to_string()]);
    tree.pop_filter(&progress);
    assert_eq!(tree.filter, "l");
    tree.clear_filter(&progress);
    assert!(!tree.filter_editing);
    assert_eq!(tree.rows.len(), 4);
}

#[test]
fn jump_recommend_selects_first_todo() {
    let progress = progress();
    let mut tree = tree_view(&progress, false);
    tree.selected = tree.rows.len() - 1;
    assert!(tree.jump_recommend());
    assert_eq!(tree.selected_file_path().as_deref(), Some("src/a.rs"));
}

#[test]
fn vertical_movement_stops_on_excluded_rows_while_shown() {
    let mut progress = progress();
    progress.files[1].manual_override = Some(ManualOverride::Skip);
    let mut tree = tree_view(&progress, false);

    assert!(tree.jump_to_path("src/a.rs"));
    tree.move_by(-1);
    assert_eq!(tree.selected_dir_path().as_deref(), Some("src"));
    tree.move_by(-1);
    assert_eq!(tree.selected_file_path().as_deref(), Some("lib.rs"));
    tree.move_by(1);
    assert_eq!(tree.selected_dir_path().as_deref(), Some("src"));
    tree.move_by(1);
    assert_eq!(tree.selected_file_path().as_deref(), Some("src/a.rs"));
    tree.move_by(1);
    assert_eq!(tree.selected_file_path().as_deref(), Some("src/b.rs"));
    tree.move_by(1);
    assert_eq!(tree.selected_file_path().as_deref(), Some("lib.rs"));
}

#[test]
fn toggle_hide_skipped_reveals_and_rehides_excluded_rows() {
    let mut progress = progress();
    progress.files.push(skipped_file("tests/foo.rs", SkipReason::TestFile));
    let mut tree = tree_view(&progress, true);
    assert!(tree.hide_skipped);
    assert!(!has(&names(&tree), "tests"));

    tree.toggle_hide_skipped(&progress);
    assert!(!tree.hide_skipped);
    let shown = names(&tree);
    assert!(has(&shown, "tests"));
    assert!(!has(&shown, "foo.rs"));
    insert_str(&mut tree.opened, "tests");
    tree.refresh_rows(&progress);
    assert!(has(&names(&tree), "foo.rs"));

    remove_str(&mut tree.opened, "tests");
    tree.toggle_hide_skipped(&progress);
    assert!(tree.hide_skipped);
    let names = names(&tree);
    assert!(!has(&names, "tests"));
    assert!(!has(&names, "foo.rs"));
}

#[test]
fn toggling_keeps_the_cursor_on_the_selected_row() {
    let mut progress = progress();
    progress.files.push(skipped_file("tests/foo.rs", SkipReason::TestFile));
    let mut tree = tree_view(&progress, true);
    assert!(tree.jump_to_path("src/b.rs"));
    tree.toggle_hide_skipped(&progress);
    assert_eq!(tree.selected_path().as_deref(), Some("src/b.rs"));
    tree.toggle_hide_skipped(&progress);
    assert_eq!(tree.selected_path().as_deref(), Some("src/b.rs"));
}

fn progress_with_excluded_above() -> RepoProgress {
    let mut files: Vec<FileProgress> = (0..5).map(|i| file(&format!("src/a{i:02}.rs"), "a")).collect();
    files.extend((0..30).map(|i| skipped_file(&format!("src/z{i:02}.rs"), SkipReason::TestFile)));
    files.extend((0..30).map(|i| file(&format!("src/b{i:02}.rs"), "b")));
    RepoProgress { files }
}

#[test]
fn toggling_keeps_the_cursor_on_the_same_screen_line() {
    let progress = progress_with_excluded_above();
    let mut tree = tree_view(&progress, true);
    tree.visible_rows = 14;
    assert!(tree.jump_to_path("src/b02.rs"));

    let screen_line = tree.selected - tree.offset;
    assert!(screen_line < tree.visible_rows);

    tree.toggle_hide_skipped(&progress);
    assert_eq!(tree.selected_path().as_deref(), Some("src/b02.rs"));
    assert_eq!(tree.selected - tree.offset, screen_line);

    tree.toggle_hide_skipped(&progress);
    assert_eq!(tree.selected_path().as_deref(), Some("src/b02.rs"));
    assert_eq!(tree.selected - tree.offset, screen_line);
}

#[test]
fn revealing_does_not_push_the_cursor_down_when_the_hidden_list_fit() {
    let mut files: Vec<FileProgress> = (0..5).map(|i| file(&format!("src/a{i:02}.rs"), "a")).collect();
    files.extend((0..30).map(|i| skipped_file(&format!("src/z{i:02}.rs"), SkipReason::TestFile)));
    files.extend((0..5).map(|i| file(&format!("src/b{i:02}.rs"), "b")));
    let progress = RepoProgress { files };

    let mut tree = tree_view(&progress, true);
    tree.set_visible_rows(20);
    assert!(tree.rows.len() < tree.visible_rows, "hidden list should fit");
    assert!(tree.jump_to_path("src/b02.rs"));
    let screen_line = tree.selected - tree.offset;

    tree.toggle_hide_skipped(&progress);
    assert!(tree.rows.len() > tree.visible_rows, "shown list should overflow");
    assert_eq!(tree.selected_path().as_deref(), Some("src/b02.rs"));
    assert_eq!(tree.selected - tree.offset, screen_line);

    tree.toggle_hide_skipped(&progress);
    assert_eq!(tree.selected - tree.offset, screen_line);
}

#[test]
fn opening_leaves_the_scroll_at_the_top() {
    let progress = progress_with_excluded_above();
    let mut tree = tree_view(&progress, true);
    tree.set_visible_rows(list_height(20));
    assert_eq!(tree.selected_path().as_deref(), Some("src/a00.rs"));
    assert_eq!(tree.offset, 0);
    assert_eq!(tree.selected, 1);
}

#[test]
fn rehiding_the_selected_excluded_row_falls_back_to_the_nearest_row_above() {
    let mut progress = progress();
    progress.files.push(skipped_file("tests/foo.rs", SkipReason::TestFile));
    let mut tree = tree_view(&progress, false);
    insert_str(&mut tree.opened, "tests");
    tree.refresh_rows(&progress);
    assert!(tree.jump_to_path("tests/foo.rs"));
    tree.toggle_hide_skipped(&progress);
    assert_eq!(tree.selected_path().as_deref(), Some("lib.rs"));
}

#[test]
fn excluded_count_is_independent_of_hide_skipped() {
    let mut progress = progress();
    progress.files.push(skipped_file("tests/foo.rs", SkipReason::TestFile));
    let mut tree = tree_view(&progress, true);
    assert_eq!(tree.excluded, 1);
    tree.toggle_hide_skipped(&progress);
    assert_eq!(tree.excluded, 1);
}

#[test]
fn move_by_stops_on_directories() {
    let progress = progress();
    let mut tree = tree_view(&progress, false);
    assert_eq!(tree.selected_file_path().as_deref(), Some("src/a.rs"));
    tree.move_by(-1);
    assert_eq!(tree.selected_dir_path().as_deref(), Some("src"));
    tree.move_by(1);
    assert_eq!(tree.selected_file_path().as_deref(), Some("src/a.rs"));
}

#[test]
fn next_match_skips_directories_and_wraps() {
    let progress = progress();
    let mut tree = tree_view(&progress, false);
    tree.select_first();
    tree.next_match(false);
    assert_eq!(tree.selected_file_path().as_deref(), Some("src/a.rs"));
    tree.next_match(true);
    assert_eq!(tree.selected_file_path().as_deref(), Some("lib.rs"));
    tree.select_last();
    assert_eq!(tree.selected_file_path().as_deref(), Some("lib.rs"));
}

#[test]
fn expanded_by_default_shows_all_directories() {
    let mut progress = progress();
    progress.files.push(file("other/x.rs", "x"));
    let tree = tree_view(&progress, false);
    let names = names(&tree);
    assert!(has(&names, "src"));
    assert!(has(&names, "a.rs"));
    assert!(has(&names, "b.rs"));
    assert!(has(&names, "other"));
    assert!(has(&names, "x.rs"));
    assert!(has_str(&tree.opened, "other"));
    assert!(has_str(&tree.opened, "src"));
    assert!(tree.fully_expanded);
    assert_eq!(tree.selected_file_path().as_deref(), Some("src/a.rs"));
}

#[test]
fn toggle_expand_all_collapses_except_selection_ancestors() {
    let mut progress = progress();
    progress.files.push(file("other/x.rs", "x"));
    let mut tree = tree_view(&progress, false);
    assert!(tree.fully_expanded);
    assert!(tree.jump_to_path("src/b.rs"));
    tree.toggle_expand_all(&progress);
    let names = names(&tree);
    assert!(has(&names, "b.rs"));
    assert!(!has(&names, "x.rs"));
    assert!(has_str(&tree.opened, "src"));
    assert!(!has_str(&tree.opened, "other"));
    assert!(!tree.fully_expanded);
    assert_eq!(tree.selected_file_path().as_deref(), Some("src/b.rs"));
}

#[test]
fn toggle_expand_all_restores_every_directory() {
    let mut progress = progress();
    progress.files.push(file("other/x.rs", "x"));
    let mut tree = tree_view(&progress, false);
    tree.toggle_expand_all(&progress);
    tree.toggle_expand_all(&progress);
    assert!(has(&names(&tree), "x.rs"));
    assert!(has_str(&tree.opened, "src"));
    assert!(has_str(&tree.opened, "other"));
    assert!(tree.fully_expanded);
    assert_eq!(tree.selected_file_path().as_deref(), Some("src/a.rs"));
}

#[test]
fn toggle_collapse_twice_restores_the_rows() {
    let progress = progress();
    let mut tree = tree_view(&progress, false);
    tree.move_by(-1);
    assert_eq!(tree.selected_dir_path().as_deref(), Some("src"));
    let before = names(&tree);
    tree.toggle_collapse(&progress);
    assert_eq!(names(&tree), vec!["src".to_string(), "lib.rs".to_string()]);
    tree.toggle_collapse(&progress);
    assert_eq!(names(&tree), before);
    tree.collapse_or_parent(&progress);
    assert!(!has_str(&tree.opened, "src"));
    tree.expand_dir(&progress);
    assert!(has_str(&tree.opened, "src"));
}

#[test]
fn hidden_paths_hide_files_and_rolls_up_empty_dirs() {
    let progress = progress();
    let hidden = vec!["src/a.rs".to_string(), "src/b.rs".to_string()];
    let tree = TreeView::from_progress_full("demo", &progress, false, None, hidden);
    let names = names(&tree);
    assert!(!has(&names, "src"));
    assert!(!has(&names, "a.rs"));
    assert!(!has(&names, "b.rs"));
    assert!(has(&names, "lib.rs"));
}

#[test]
fn hidden_paths_still_hide_after_refresh() {
    let progress = progress();
    let mut tree = TreeView::from_progress_full("demo", &progress, false, None, vec!["lib.rs".to_string()]);
    tree.refresh_rows(&progress);
    let names = names(&tree);
    assert!(!has(&names, "lib.rs"));
    assert!(has(&names, "a.rs"));
}

#[test]
fn single_child_dir_chain_is_compressed() {
    let progress = RepoProgress { files: vec![file("a/b/c.rs", "c")] };
    let tree = tree_view(&progress, false);
    let dirs: Vec<_> = tree
        .rows
        .iter()
        .filter_map(|r| match &r.kind {
            TreeRowKind::Dir { path } => Some((r.name.as_str(), path.as_str(), r.depth)),
            TreeRowKind::File { .. } => None,
        })
        .collect();
    assert_eq!(dirs, vec![("a/b", "a/b", 0)]);
    assert_eq!(tree.rows.len(), 2);
    assert_eq!(tree.rows[1].depth, 1);
    assert_eq!(tree.selected_file_path().as_deref(), Some("a/b/c.rs"));
}

#[test]
fn collapse_or_parent_walks_up_to_existing_row() {
    let progress = RepoProgress { files: vec![file("src/a/b/c.rs", "c"), file("src/other.rs", "o")] };
    let mut tree = tree_view(&progress, false);
    let idx = tree
        .rows
        .iter()
        .position(|r| matches!(&r.kind, TreeRowKind::Dir { path } if path == "src/a/b"))
        .expect("compressed src/a/b row");
    tree.selected = idx;
    tree.collapse_or_parent(&progress);
    assert!(!has_str(&tree.opened, "src/a/b"));
    assert_eq!(tree.selected_dir_path().as_deref(), Some("src/a/b"));
    tree.collapse_or_parent(&progress);
    assert_eq!(tree.selected_dir_path().as_deref(), Some("src"));
}

#[test]
fn elide_dir_name_keeps_first_and_last_segment() {
    assert_eq!(elide_dir_name("swift-scanner/pkg/SpecLinkSwiftScanner", 36), "swift-scanner/…/SpecLinkSwiftScanner");
    assert_eq!(elide_dir_name("src/cli", 20), "src/cli");
}

#[test]
fn elide_dir_name_falls_back_to_the_tail() {
    assert_eq!(elide_dir_name("abcdef", 0), "");
    assert_eq!(elide_dir_name("abcdef", 1), "…");
    assert_eq!(elide_dir_name("abcdef", 4), "…def");
}

#[test]
fn list_height_subtracts_chrome_and_borders() {
    assert_eq!(list_height(24), 18);
    assert_eq!(list_height(6), 0);
    assert_eq!(list_height(10), 4);
    assert_eq!(list_height(3), 0);
}

#[test]
fn tree_counts_files_and_lines_of_the_repository() {
    let progress = RepoProgress { files: vec![file("src/a.rs", "a\nb\nc"), file("lib.rs", "l")] };
    let tree = tree_view(&progress, false);
    assert_eq!(tree.file_counts, (0, 2));
    assert_eq!(tree.overall, (0, 4));
    assert_eq!(tree.recommend.as_deref(), Some("src/a.rs"));
    assert_eq!(tree.recommend_lines, Some(3));
}

#[test]
fn skipped_row_uses_short_label() {
    let mut progress = progress();
    progress.files.push(skipped_file("tests/foo.rs", SkipReason::TestFile));
    let mut tree = tree_view(&progress, false);
    insert_str(&mut tree.opened, "tests");
    tree.refresh_rows(&progress);
    let skipped = tree.rows.iter().find(|r| r.name == "foo.rs").expect("skipped row");
    assert!(!skipped.manual_skip);
    assert_eq!(skipped.skip_reason.as_ref(), Some(&SkipReason::TestFile));
    assert_eq!(skipped.progress, None);
}

#[test]
fn skip_toggles_apply_to_the_file_or_everything_under_the_directory() {
    let mut progress = progress();
    progress.files.push(file("srcx/c.rs", "c"));
    let mut tree = tree_view(&progress, false);
    assert!(tree.jump_to_path("src/b.rs"));
    assert_eq!(tree.override_paths(&progress), vec!["src/b.rs".to_string()]);
    tree.move_by(-2);
    assert_eq!(tree.selected_dir_path().as_deref(), Some("src"));
    assert_eq!(tree.override_paths(&progress), vec!["src/a.rs".to_string(), "src/b.rs".to_string()]);
}

#[test]
fn header_label_counts_files_not_lines() {
    let progress = RepoProgress {
        files: vec![file("src/a.rs", "a\nb\nc"), file("lib.rs", "l")],
    };
    let tree = tree_view(&progress, false);
    // The header reads "done/files files": it counts files, while `overall`
    // keeps the line totals.
    assert_eq!(tree.file_counts, (0, 2));
    assert_eq!(tree.overall, (0, 4));
    assert_eq!(tree.recommend.as_deref(), Some("src/a.rs"));
    assert_eq!(tree.recommend_lines, Some(3));
}
