use repomonk::config::{FxPreset, ProgressMode, UserConfig};
use repomonk::domain::content::{
    Chunk, ChunkCompletion, ChunkProgress, FileProgress, FileStatus, RepoProgress, SkipReason,
};
use repomonk::domain::entry::EntryCandidate;
use repomonk::domain::file_type::{FileTypePrefs, FileTypeState};
use repomonk::domain::typing::{SessionState, TypingSnapshot};
use repomonk::store::{GlobalSummary, RecentRepo};
use repomonk::ui::file_types::FileTypesView;
use repomonk::ui::flow::FlowView;
use repomonk::ui::fx::FxState;
use repomonk::ui::home::HomeView;
use repomonk::ui::search::{build_hits, cached_repo_label, fuzzy_score, SearchState};
use repomonk::ui::settings::{setting_index, SettingId, SettingsView};
use repomonk::ui::splash::{logo, logo_width, splash_done, visible_rows};
use repomonk::ui::wrap_move;
use repomonk::ui::keys::{back_or_quit, route_key, tree_command, Key, Overlay, Place, Route, TreeCommand};
use repomonk::ui::typing::{line_index_at, split_lines};

fn typeable(path: &str) -> FileProgress {
    FileProgress {
        relative_path: path.into(),
        status: FileStatus::Todo,
        skip_reason: None,
        manual_override: None,
        chunks: vec![ChunkProgress {
            chunk: Chunk {
                relative_path: path.into(),
                start_line: 1,
                end_line: 1,
                normalized: "x".into(),
                hash: "h".into(),
            },
            completion: ChunkCompletion::Incomplete,
            checkpoint: None,
            id: Some(1),
        }],
    }
}

fn skipped(path: &str, reason: SkipReason) -> FileProgress {
    FileProgress {
        relative_path: path.into(),
        status: FileStatus::Skipped,
        skip_reason: Some(reason),
        manual_override: None,
        chunks: Vec::new(),
    }
}

#[test]
fn default_state_reflects_current_auto_detection() {
    let progress = RepoProgress {
        files: vec![typeable("src/main.rs"), skipped("README.md", SkipReason::ConfigFile), typeable("LICENSE")],
    };
    let view = FileTypesView::from_progress("repo", &progress, &FileTypePrefs::default());
    let rs = view.entries.iter().find(|e| e.key == ".rs").unwrap();
    let md = view.entries.iter().find(|e| e.key == ".md").unwrap();
    let license = view.entries.iter().find(|e| e.key == "LICENSE").unwrap();
    assert_eq!(rs.state, FileTypeState::Included);
    assert_eq!(md.state, FileTypeState::Excluded);
    assert_eq!(license.state, FileTypeState::Excluded);
}

#[test]
fn saved_prefs_override_default() {
    let progress = RepoProgress { files: vec![skipped("README.md", SkipReason::ConfigFile)] };
    let prefs = FileTypePrefs::new(vec![(".md".to_string(), FileTypeState::Hidden)]);
    let view = FileTypesView::from_progress("repo", &progress, &prefs);
    assert_eq!(view.entries[0].state, FileTypeState::Hidden);
}

#[test]
fn cycle_and_move_wrap() {
    let progress = RepoProgress { files: vec![typeable("a.rs"), typeable("b.ts")] };
    let mut view = FileTypesView::from_progress("repo", &progress, &FileTypePrefs::default());
    assert_eq!(view.entries.len(), 2);
    assert_eq!(view.entries[0].state, FileTypeState::Included);
    view.cycle_selected();
    assert_eq!(view.entries[0].state, FileTypeState::Excluded);
    view.cycle_selected();
    assert_eq!(view.entries[0].state, FileTypeState::Hidden);
    view.cycle_selected();
    assert_eq!(view.entries[0].state, FileTypeState::Included);
    view.move_by(-1);
    assert_eq!(view.selected, 1);
    view.move_by(1);
    assert_eq!(view.selected, 0);
}

#[test]
fn later_prefs_entries_win() {
    let prefs = FileTypePrefs::new(vec![
        (".md".to_string(), FileTypeState::Hidden),
        (".md".to_string(), FileTypeState::Included),
    ]);
    assert_eq!(prefs.get(".md"), Some(FileTypeState::Included));
    assert_eq!(prefs.get(".rs"), None);
    assert!(FileTypePrefs::default().is_empty());
}

fn flow_view(flow_enabled: bool) -> FlowView {
    FlowView::new(
        "demo",
        ProgressMode::Flow,
        Some("src/main.rs".into()),
        vec![
            EntryCandidate { path: "src/main.rs".into(), reason: "bin (Cargo.toml)" },
            EntryCandidate { path: "src/lib.rs".into(), reason: "crate root" },
        ],
        Some("src/app/mod.rs".into()),
        flow_enabled,
        if flow_enabled { None } else { Some("no import-analyzable language found".into()) },
        42,
    )
}

#[test]
fn appends_tree_selection_and_wraps_across_sections() {
    let mut view = flow_view(true);
    assert_eq!(view.rows.len(), 5);
    assert_eq!(view.selected, 0);
    view.move_by(-1);
    assert_eq!(view.selected, 4);
    view.activate_selected();
    assert_eq!(view.entry.as_deref(), Some("src/app/mod.rs"));
    view.move_by(1);
    view.activate_selected();
    assert_eq!(view.mode, ProgressMode::Flow);
}

#[test]
fn disabled_flow_skips_flow_row_and_selects_manual() {
    let mut view = flow_view(false);
    assert_eq!(view.mode, ProgressMode::Manual);
    assert_eq!(view.selected, 1);
    view.move_by(-1);
    assert_ne!(view.selected, 0);
    view.selected = 0;
    view.activate_selected();
    assert_eq!(view.mode, ProgressMode::Manual);
}

fn snap(target: &str, cursor: usize, misses: u32, auto: Vec<usize>) -> TypingSnapshot {
    TypingSnapshot {
        state: SessionState::Active,
        target: target.to_string(),
        cursor,
        expected: target.chars().nth(cursor),
        miss_until_ms: None,
        keystrokes: 0,
        misses,
        elapsed_ms: 0,
        started_at_ms: 0,
        auto_inserted: auto,
    }
}

#[test]
fn miss_resets_streak() {
    let mut fx = FxState::new();
    fx.observe(&snap("abc", 0, 0, vec![]), 0);
    fx.observe(&snap("abc", 2, 0, vec![]), 10);
    assert_eq!(fx.streak(), 2);
    fx.observe(&snap("abc", 2, 1, vec![]), 20);
    assert_eq!(fx.streak(), 0);
}

#[test]
fn tier_thresholds() {
    let mut fx = FxState::new();
    fx.set_streak(30 - 1);
    assert_eq!(fx.tier(), 0);
    fx.set_streak(30);
    assert_eq!(fx.tier(), 1);
    fx.set_streak(100);
    assert_eq!(fx.tier(), 2);
    fx.set_streak(250);
    assert_eq!(fx.tier(), 3);
}

#[test]
fn first_observation_emits_no_effects() {
    let mut fx = FxState::new();
    fx.observe(&snap("  ab", 2, 0, vec![0, 1]), 0);
    assert_eq!(fx.streak(), 0);
    assert!(fx.glows().is_empty());
}

#[test]
fn auto_inserted_chars_do_not_glow_or_count() {
    let mut fx = FxState::new();
    fx.observe(&snap("a\n  b", 0, 0, vec![2, 3]), 0);
    fx.observe(&snap("a\n  b", 4, 0, vec![2, 3]), 10);
    assert_eq!(fx.streak(), 2);
    assert!(fx.glows().iter().all(|g| g.index != 2 && g.index != 3));
    assert!(fx.glows().iter().any(|g| g.index == 0));
}

#[test]
fn newline_registers_line_trail_that_expires() {
    let mut fx = FxState::new();
    fx.observe(&snap("ab\ncd", 2, 0, vec![]), 0);
    fx.observe(&snap("ab\ncd", 3, 0, vec![]), 10);
    assert!(fx.trails().iter().any(|t| t.line == 0 && t.start_ms == 10));
    fx.prune(10 + repomonk::ui::fx::TRAIL_MS);
    assert!(fx.trails().is_empty());
}

#[test]
fn home_move_wraps() {
    let repo = |id: i64, name: &str| RecentRepo {
        id,
        identity: name.into(),
        display_name: name.into(),
        input: name.into(),
        root_path: String::new(),
        last_opened_at: String::new(),
        done_lines: 0,
        total_lines: 1,
    };
    let mut view = HomeView::new(vec![repo(1, "a"), repo(2, "b")], GlobalSummary::default());
    view.move_by(1);
    assert_eq!(view.selected, 1);
    view.move_by(1);
    assert_eq!(view.selected, 0);
    view.move_by(-3);
    assert_eq!(view.selected, 1);
    assert_eq!(view.selected_input(), Some("b"));
}

fn recent(name: &str, input: &str) -> RecentRepo {
    RecentRepo {
        id: 1,
        identity: name.into(),
        display_name: name.into(),
        input: input.into(),
        root_path: String::new(),
        last_opened_at: String::new(),
        done_lines: 0,
        total_lines: 10,
    }
}

#[test]
fn github_owner_repo_is_confirmable() {
    let mut s = SearchState { query: "rust-lang/mdBook".into(), ..Default::default() };
    s.refresh(&[], &[]);
    assert!(s.can_confirm());
    assert_eq!(s.confirm_input().as_deref(), Some("rust-lang/mdBook"));
}

#[test]
fn non_github_without_hits_cannot_confirm() {
    let mut s = SearchState { query: "zzz-no-match".into(), ..Default::default() };
    s.refresh(&[], &[]);
    assert!(!s.can_confirm());
    assert!(s.confirm_input().is_none());
}

#[test]
fn fuzzy_prefers_substring() {
    let recent = vec![recent("rust-lang/mdBook", "rust-lang/mdBook"), recent("foo/bar", "foo/bar")];
    let hits = build_hits("mdbook", &recent, &[]);
    assert_eq!(hits[0].label, "rust-lang/mdBook");
}

#[test]
fn fuzzy_scores_are_case_insensitive_and_need_every_char_in_order() {
    assert!(fuzzy_score("MDB", "rust-lang/mdbook").is_some());
    assert_eq!(fuzzy_score("bdm", "mdb"), None);
    assert!(fuzzy_score("md", "mdbook").unwrap() > fuzzy_score("mk", "mdbook").unwrap());
}

#[test]
fn cached_repo_dirs_map_to_owner_and_repo() {
    assert_eq!(cached_repo_label("owner__repo"), Some("owner/repo".to_string()));
    assert_eq!(cached_repo_label("plain"), None);
}

#[test]
fn fx_preset_setting_cycles_through_all_presets() {
    let mut view = SettingsView::new();
    view.selected = setting_index(SettingId::FxPreset);
    let mut cfg = UserConfig::default();
    for expected in [FxPreset::Blaze, FxPreset::Smear, FxPreset::Ripple, FxPreset::Classic] {
        assert!(view.activate(&mut cfg, true));
        assert_eq!(cfg.fx.preset, expected);
    }
}

#[test]
fn syntax_highlight_setting_toggles() {
    let mut view = SettingsView::new();
    view.selected = setting_index(SettingId::SyntaxHighlight);
    let mut cfg = UserConfig::default();
    assert!(cfg.typing.syntax_highlight);
    assert!(view.activate(&mut cfg, true));
    assert!(!cfg.typing.syntax_highlight);
    assert!(view.activate(&mut cfg, true));
    assert!(cfg.typing.syntax_highlight);
}

#[test]
fn logo_rows_have_consistent_width() {
    let widths: Vec<usize> = logo().iter().map(|l| l.chars().count()).collect();
    assert!(widths.iter().all(|&w| w == widths[0]), "widths: {widths:?}");
    assert_eq!(widths[0], logo_width());
}

#[test]
fn splash_reveals_rows_then_finishes() {
    assert_eq!(visible_rows(0), 1);
    assert_eq!(visible_rows(80), 2);
    assert!(!splash_done(0));
    assert!(visible_rows(100_000) == logo().len());
    assert!(splash_done(100_000));
}

#[test]
fn wrap_move_wraps_both_ways() {
    assert_eq!(wrap_move(0, -1, 3), 2);
    assert_eq!(wrap_move(2, 1, 3), 0);
    assert_eq!(wrap_move(1, 7, 3), 2);
}

#[test]
fn tree_keys_move_fold_and_filter() {
    assert_eq!(tree_command(Key::Char('j'), false, true), TreeCommand::Move(1));
    assert_eq!(tree_command(Key::Up, false, true), TreeCommand::Move(-1));
    assert_eq!(tree_command(Key::Ctrl('d'), false, true), TreeCommand::Page(1));
    assert_eq!(tree_command(Key::Char('n'), false, true), TreeCommand::Nothing);
    assert_eq!(tree_command(Key::Char('n'), false, false), TreeCommand::NextMatch(false));
    assert_eq!(tree_command(Key::Char('j'), true, false), TreeCommand::PushFilter('j'));
    assert_eq!(tree_command(Key::Char('q'), true, false), TreeCommand::ClearFilter);
    assert_eq!(tree_command(Key::Enter, true, false), TreeCommand::EndFilterEdit);
    assert_eq!(tree_command(Key::Enter, false, false), TreeCommand::Activate);
}

#[test]
fn keys_route_by_what_is_on_screen() {
    assert_eq!(route_key(Key::Ctrl('c'), Place::Typing, None, true, true), Route::Quit);
    assert_eq!(route_key(Key::Char('x'), Place::Tree, None, false, true), Route::DismissSplash);
    assert_eq!(route_key(Key::Char('?'), Place::Tree, None, true, false), Route::CloseHelp);
    assert_eq!(route_key(Key::Char('j'), Place::Typing, None, false, false), Route::Typing);
    assert_eq!(route_key(Key::Char('j'), Place::Home, Some(Overlay::Search), false, false), Route::ToOverlay(Overlay::Search));
    assert_eq!(route_key(Key::Char('s'), Place::Home, None, false, false), Route::OpenSearch);
    assert_eq!(route_key(Key::Char('q'), Place::Tree, None, false, false), Route::BackOrQuit(true));
    assert_eq!(route_key(Key::Char('j'), Place::Tree, None, false, false), Route::ToPlace(Place::Tree));
    assert_eq!(back_or_quit(Place::Home, true), (true, None));
    assert_eq!(back_or_quit(Place::Tree, true), (false, Some(Place::Home)));
}

#[test]
fn typing_body_lines_keep_their_indices() {
    let chars: Vec<char> = "ab\ncd".chars().collect();
    let lines = split_lines(&chars);
    assert_eq!(lines, vec![vec![(0, 'a'), (1, 'b'), (2, '\n')], vec![(3, 'c'), (4, 'd')]]);
    assert_eq!(line_index_at(&lines, 0), 0);
    assert_eq!(line_index_at(&lines, 3), 0);
    assert_eq!(line_index_at(&lines, 4), 1);
    assert_eq!(line_index_at(&lines, 9), 1);
}

#[test]
fn progress_mode_names_match_the_config_file() {
    assert_eq!(ProgressMode::Manual.as_str(), "manual");
    assert_eq!(ProgressMode::Flow.as_str(), "dependency");
    assert_eq!(ProgressMode::Flow.cycle(), ProgressMode::Manual);
}

#[test]
fn fuzzy_scores_exactly_the_in_order_matches() {
    assert!(fuzzy_score("ace", "abcde").is_some());
    assert!(fuzzy_score("aec", "abcde").is_none());
    assert!(fuzzy_score("", "anything").is_some());
    assert!(fuzzy_score("abc", "ab").is_none());
}
