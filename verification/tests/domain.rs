use repomonk::config::DependencyDirection;
use repomonk::domain::content::{
    Chunk, ChunkCompletion, ChunkProgress, FileProgress, FileStatus, ImportEdge, ManualOverride,
    RepoProgress, SkipReason, TypingCheckpoint,
};
use repomonk::domain::dependency::{order_files, FlowOrder, FlowStep, FlowVia};
use repomonk::domain::entry::{detect_entry_candidates, EntryCandidate};
use repomonk::domain::file_type::{file_type_key, file_type_stats};
use repomonk::domain::progress::directory_progress;
use repomonk::domain::typing::{SessionState, TypingCommand, TypingEngine, TypingRestoreError};
use repomonk::domain::file_type::FileTypeState;
use repomonk::domain::updates::{
    complete_chunk, entry_pickable, set_checkpoint, set_override, typing_target, TargetError,
};

fn file(path: &str, skipped: bool, body: &str) -> FileProgress {
    FileProgress {
        relative_path: path.into(),
        status: if skipped {
            FileStatus::Skipped
        } else {
            FileStatus::Todo
        },
        skip_reason: if skipped {
            Some(SkipReason::TestFile)
        } else {
            None
        },
        manual_override: None,
        chunks: if body.is_empty() {
            Vec::new()
        } else {
            vec![ChunkProgress {
                chunk: Chunk {
                    relative_path: path.into(),
                    start_line: 1,
                    end_line: 1,
                    normalized: body.into(),
                    hash: "h".into(),
                },
                completion: ChunkCompletion::Incomplete,
                checkpoint: None,
                id: Some(1),
            }]
        },
    }
}

#[test]
fn manual_skip_wins_over_typeable() {
    let mut f = file("a.rs", false, "fn a() {}");
    f.manual_override = Some(ManualOverride::Skip);
    assert_eq!(f.derive_status(), FileStatus::Skipped);
    assert_eq!(f.display_skip_reason().as_deref(), Some("manually skipped"));
    assert_eq!(f.short_skip_reason(), Some("manual"));
}

#[test]
fn manual_include_wins_over_auto_skip_when_body_exists() {
    let mut f = file("a.rs", true, "fn a() {}");
    f.manual_override = Some(ManualOverride::Include);
    assert_eq!(f.derive_status(), FileStatus::Todo);
    assert!(f.display_skip_reason().is_none());
}

#[test]
fn toggle_skips_typeable_and_includes_skipped_with_body() {
    let typeable = file("a.rs", false, "fn a() {}");
    assert_eq!(typeable.toggle_override_target(), Some(ManualOverride::Skip));
    let skipped = file("a.rs", true, "fn a() {}");
    assert_eq!(skipped.toggle_override_target(), Some(ManualOverride::Include));
    let empty = file("bin", true, "");
    assert_eq!(empty.toggle_override_target(), None);
}

#[test]
fn partial_checkpoint_counts_only_completed_lines() {
    let mut f = file("a.rs", false, "one\ntwo\nthree");
    f.chunks[0].checkpoint = Some(TypingCheckpoint {
        chunk_id: 1,
        cursor: 5,
        keystrokes: 5,
        misses: 0,
        elapsed_ms: 10,
        started_at: "t0".into(),
        auto_indent: false,
    });
    assert_eq!(f.completed_lines(), 1);
    assert_eq!(f.derive_status(), FileStatus::Todo);

    f.chunks[0].checkpoint.as_mut().unwrap().cursor = 3;
    assert_eq!(f.completed_lines(), 0);
}

#[test]
fn completed_chunk_makes_file_done_and_counts_all_lines() {
    let mut f = file("a.rs", false, "one\ntwo\nthree");
    f.chunks[0].completion = ChunkCompletion::Complete;
    assert_eq!(f.derive_status(), FileStatus::Done);
    assert_eq!(f.total_lines(), 3);
    assert_eq!(f.completed_lines(), 3);
    let repo = RepoProgress { files: vec![f, file("b.rs", false, "x")] };
    assert_eq!(repo.total_lines(), 4);
    assert_eq!(repo.completed_lines(), 3);
    assert!(!repo.is_repo_complete());
    assert_eq!(repo.recommend_path(), Some("b.rs"));
}

#[test]
fn skip_reason_texts_round_trip_through_the_store() {
    let reasons = vec![
        SkipReason::VcsOrDependencyDir,
        SkipReason::GeneratedOrLockFile,
        SkipReason::Binary,
        SkipReason::LineTooLong { max_cols: 200 },
        SkipReason::FileTooLarge { max_lines: 3000 },
        SkipReason::TestFile,
        SkipReason::ConfigFile,
        SkipReason::FileTypeDisabled,
        SkipReason::NoChunks,
        SkipReason::IoError("denied".into()),
    ];
    for r in reasons {
        let text = r.as_str();
        assert_eq!(repomonk::store::sqlite::parse_skip_reason(&text), r);
    }
    assert_eq!(SkipReason::LineTooLong { max_cols: 200 }.as_str(), "line longer than 200 cols");
}

fn paths(items: &[&str]) -> Vec<String> {
    items.iter().map(|item| (*item).to_string()).collect()
}

fn edge(importer: &str, imported: &str, decl_line: usize, first_use_line: Option<usize>, raw: &str) -> ImportEdge {
    ImportEdge {
        importer: importer.into(),
        imported: imported.into(),
        decl_line,
        first_use_line,
        raw: raw.into(),
    }
}

fn step_paths(steps: &[FlowStep]) -> Vec<String> {
    steps.iter().map(|step| step.path.clone()).collect()
}

#[test]
fn top_down_orders_siblings_by_first_use() {
    let edges = vec![
        edge("main.rs", "a.rs", 1, Some(20), "mod a;"),
        edge("main.rs", "z.rs", 2, Some(10), "mod z;"),
    ];
    let ordered = order_files(
        &edges,
        Some("main.rs"),
        DependencyDirection::TopDown,
        &paths(&["main.rs", "z.rs", "a.rs"]),
    );
    assert_eq!(step_paths(&ordered), paths(&["main.rs", "z.rs", "a.rs"]));
    assert_eq!(ordered[1].via.as_ref().map(|via| via.line), Some(2));
    assert_eq!(ordered[1].via.as_ref().map(|via| via.raw.as_str()), Some("mod z;"));
    assert!(ordered.iter().all(|step| step.reachable));
}

#[test]
fn unused_imports_fall_back_to_declaration_order() {
    let edges = vec![
        edge("lib.rs", "z.rs", 3, None, "pub mod z;"),
        edge("lib.rs", "a.rs", 1, None, "pub mod a;"),
        edge("lib.rs", "m.rs", 2, None, "pub mod m;"),
    ];
    let ordered = order_files(
        &edges,
        Some("lib.rs"),
        DependencyDirection::TopDown,
        &paths(&["lib.rs", "a.rs", "m.rs", "z.rs"]),
    );
    assert_eq!(step_paths(&ordered), paths(&["lib.rs", "a.rs", "m.rs", "z.rs"]));
}

#[test]
fn bottom_up_places_dependencies_first() {
    let edges = vec![
        edge("main.py", "pkg/a.py", 1, Some(3), "from pkg import a"),
        edge("pkg/a.py", "pkg/b.py", 1, Some(2), "from pkg import b"),
    ];
    let ordered = order_files(
        &edges,
        Some("main.py"),
        DependencyDirection::BottomUp,
        &paths(&["main.py", "pkg/a.py", "pkg/b.py"]),
    );
    assert_eq!(step_paths(&ordered), paths(&["pkg/b.py", "pkg/a.py", "main.py"]));
    assert_eq!(ordered[0].via.as_ref().map(|via| via.importer.as_str()), Some("pkg/a.py"));
    assert!(ordered[2].via.is_none());
}

#[test]
fn cycles_are_visited_once() {
    let edges = vec![
        edge("a.ts", "b.ts", 1, Some(4), "import { b } from './b'"),
        edge("b.ts", "a.ts", 1, Some(4), "import { a } from './a'"),
    ];
    let ordered = order_files(&edges, Some("a.ts"), DependencyDirection::TopDown, &paths(&["a.ts", "b.ts"]));
    assert_eq!(step_paths(&ordered), paths(&["a.ts", "b.ts"]));
    assert_eq!(ordered.len(), 2);
}

#[test]
fn unreachable_paths_are_appended_sorted() {
    let edges = vec![edge("main.rs", "dep.rs", 1, Some(2), "mod dep;")];
    let ordered = order_files(
        &edges,
        Some("main.rs"),
        DependencyDirection::TopDown,
        &paths(&["z.rs", "main.rs", "orphan.rs", "dep.rs"]),
    );
    assert_eq!(step_paths(&ordered), paths(&["main.rs", "dep.rs", "orphan.rs", "z.rs"]));
    assert!(ordered[0].reachable);
    assert!(ordered[1].reachable);
    assert!(!ordered[2].reachable);
    assert!(!ordered[3].reachable);
    assert!(ordered[2].via.is_none());
}

#[test]
fn invalid_entry_falls_back_to_path_order() {
    let ordered = order_files(&[], Some("missing.rs"), DependencyDirection::TopDown, &paths(&["b.rs", "a.rs"]));
    assert_eq!(step_paths(&ordered), paths(&["a.rs", "b.rs"]));
    assert!(ordered[0].reachable);
    assert!(!ordered[1].reachable);
}

#[test]
fn empty_typeable_list_gives_no_steps() {
    let ordered = order_files(&[], None, DependencyDirection::TopDown, &[]);
    assert!(ordered.is_empty());
}

#[test]
fn flow_order_numbers_skip_unreachable() {
    let steps = vec![
        FlowStep { path: "main.rs".into(), via: None, reachable: true },
        FlowStep {
            path: "dep.rs".into(),
            via: Some(FlowVia { importer: "main.rs".into(), line: 1, raw: "mod dep;".into() }),
            reachable: true,
        },
        FlowStep { path: "orphan.rs".into(), via: None, reachable: false },
    ];
    let order = FlowOrder::new("main.rs".into(), steps);
    assert_eq!(order.step_number("main.rs"), Some(1));
    assert_eq!(order.step_number("dep.rs"), Some(2));
    assert_eq!(order.step_number("orphan.rs"), None);
    assert_eq!(order.via("dep.rs").map(|via| via.line), Some(1));
    assert_eq!(order.reachable_total(), 2);
}

fn simple_edge(importer: &str, imported: &str) -> ImportEdge {
    ImportEdge {
        importer: importer.into(),
        imported: imported.into(),
        decl_line: 1,
        first_use_line: None,
        raw: format!("import {imported}"),
    }
}

#[test]
fn rust_prefers_manifest_then_main_then_lib() {
    let typeable = paths(&["src/lib.rs", "src/main.rs", "src/app/mod.rs"]);
    let found = detect_entry_candidates(
        &typeable,
        &[],
        &[EntryCandidate { path: "src/main.rs".into(), reason: "bin (Cargo.toml)" }],
    );
    assert_eq!(found[0].path, "src/main.rs");
    assert_eq!(found[0].reason, "bin (Cargo.toml)");
    assert!(found.iter().any(|c| c.path == "src/lib.rs" && c.reason == "crate root"));
}

#[test]
fn typescript_prefers_src_index() {
    let typeable = paths(&["src/util.ts", "src/index.ts", "src/lib.ts"]);
    let found = detect_entry_candidates(&typeable, &[], &[]);
    assert_eq!(found[0].path, "src/index.ts");
    assert_eq!(found[0].reason, "app");
}

#[test]
fn python_prefers_main_py() {
    let typeable = paths(&["pkg/util.py", "main.py", "app.py"]);
    let found = detect_entry_candidates(&typeable, &[], &[]);
    assert_eq!(found[0].path, "main.py");
}

#[test]
fn drops_paths_that_are_not_typeable() {
    let typeable = paths(&["src/lib.rs"]);
    let found = detect_entry_candidates(
        &typeable,
        &[],
        &[EntryCandidate { path: "src/main.rs".into(), reason: "bin (Cargo.toml)" }],
    );
    assert!(found.iter().all(|c| c.path != "src/main.rs"));
    assert_eq!(found[0].path, "src/lib.rs");
}

#[test]
fn graph_estimate_picks_root_with_most_reach() {
    let typeable = paths(&["a.ts", "b.ts", "c.ts", "orphan.ts"]);
    let edges = vec![simple_edge("a.ts", "b.ts"), simple_edge("b.ts", "c.ts")];
    let found = detect_entry_candidates(&typeable, &edges, &[]);
    let graph = found.iter().find(|c| c.reason == "graph").unwrap();
    assert_eq!(graph.path, "a.ts");
}

#[test]
fn graph_estimate_breaks_ties_by_shallow_then_lex() {
    let typeable = paths(&["z.ts", "src/a.ts"]);
    let found = detect_entry_candidates(&typeable, &[], &[]);
    let graph = found.iter().find(|c| c.reason == "graph").unwrap();
    assert_eq!(graph.path, "z.ts");
}

#[test]
fn graph_estimate_skipped_when_every_file_is_imported() {
    let typeable = paths(&["a.ts", "b.ts"]);
    let edges = vec![simple_edge("a.ts", "b.ts"), simple_edge("b.ts", "a.ts")];
    let found = detect_entry_candidates(&typeable, &edges, &[]);
    assert!(found.iter().all(|c| c.reason != "graph"));
}

#[test]
fn derives_key_from_extension_or_filename() {
    assert_eq!(file_type_key("src/a.rs"), ".rs");
    assert_eq!(file_type_key("LICENSE"), "LICENSE");
    assert_eq!(file_type_key(".gitignore"), ".gitignore");
    assert_eq!(file_type_key("src/a.test.ts"), ".ts");
}

fn typeable_file(path: &str) -> FileProgress {
    FileProgress {
        relative_path: path.into(),
        status: FileStatus::Todo,
        skip_reason: None,
        manual_override: None,
        chunks: vec![ChunkProgress {
            chunk: Chunk {
                relative_path: path.into(),
                start_line: 1,
                end_line: 1,
                normalized: "x".into(),
                hash: "h".into(),
            },
            completion: ChunkCompletion::Incomplete,
            checkpoint: None,
            id: Some(1),
        }],
    }
}

fn skipped_file(path: &str, reason: SkipReason) -> FileProgress {
    FileProgress {
        relative_path: path.into(),
        status: FileStatus::Skipped,
        skip_reason: Some(reason),
        manual_override: None,
        chunks: Vec::new(),
    }
}

#[test]
fn drops_types_that_cannot_be_rescued() {
    let progress = RepoProgress {
        files: vec![
            skipped_file("logo.png", SkipReason::GeneratedOrLockFile),
            skipped_file("Cargo.lock", SkipReason::GeneratedOrLockFile),
            skipped_file("README.md", SkipReason::ConfigFile),
            typeable_file("src/main.rs"),
        ],
    };
    let stats = file_type_stats(&progress);
    let keys: Vec<_> = stats.iter().map(|s| s.key.as_str()).collect();
    assert!(!keys.contains(&".png"));
    assert!(!keys.contains(&"Cargo.lock"));
    assert!(keys.contains(&".md"));
    assert!(keys.contains(&".rs"));
}

#[test]
fn orders_by_file_count_desc_then_key_asc() {
    let progress = RepoProgress {
        files: vec![typeable_file("a.rs"), typeable_file("b.rs"), typeable_file("c.ts"), typeable_file("d.md")],
    };
    let stats = file_type_stats(&progress);
    assert_eq!(stats[0].key, ".rs");
    assert_eq!(stats[0].files, 2);
    assert_eq!(stats[1].key, ".md");
    assert_eq!(stats[2].key, ".ts");
}

fn chunk(path: &str, hash: &str, body: &str) -> Chunk {
    Chunk {
        relative_path: path.into(),
        start_line: 1,
        end_line: body.split('\n').count() as u32,
        normalized: body.into(),
        hash: hash.into(),
    }
}

#[test]
fn directory_rolls_up_lines() {
    let repo = RepoProgress {
        files: vec![
            FileProgress {
                relative_path: "src/a.rs".into(),
                status: FileStatus::Todo,
                skip_reason: None,
                manual_override: None,
                chunks: vec![ChunkProgress {
                    chunk: chunk("src/a.rs", "1", "a1\na2\na3"),
                    completion: ChunkCompletion::Complete,
                    checkpoint: None,
                    id: Some(1),
                }],
            },
            FileProgress {
                relative_path: "src/b.rs".into(),
                status: FileStatus::Todo,
                skip_reason: None,
                manual_override: None,
                chunks: vec![ChunkProgress {
                    chunk: chunk("src/b.rs", "2", "b1\nb2"),
                    completion: ChunkCompletion::Incomplete,
                    checkpoint: None,
                    id: Some(2),
                }],
            },
            FileProgress {
                relative_path: "README.md".into(),
                status: FileStatus::Skipped,
                skip_reason: Some(SkipReason::NoChunks),
                manual_override: None,
                chunks: vec![],
            },
        ],
    };
    let d = directory_progress(&repo, "src");
    assert_eq!(d.completed_lines, 3);
    assert_eq!(d.total_lines, 5);
    assert_eq!(d.done_files, 1);
    assert_eq!(d.todo_files, 1);
    let root = directory_progress(&repo, "");
    assert_eq!(root.skipped_files, 1);
    assert_eq!(root.total_lines, 5);
}

fn engine(text: &str) -> TypingEngine {
    TypingEngine::new(text, 0, true, true, 4)
}

#[test]
fn accepts_matching_chars() {
    let mut e = engine("ab");
    e.apply(TypingCommand::Char('a'));
    e.apply(TypingCommand::Char('b'));
    assert_eq!(e.snapshot().state, SessionState::Completed);
    assert_eq!(e.snapshot().keystrokes, 2);
}

#[test]
fn rejects_mismatch_without_advancing() {
    let mut e = engine("ab");
    e.apply(TypingCommand::Char('x'));
    let s = e.snapshot();
    assert_eq!(s.cursor, 0);
    assert_eq!(s.misses, 1);
    assert_eq!(s.miss_until_ms, Some(150));
}

#[test]
fn enter_matches_newline() {
    let mut e = engine("a\nb");
    e.apply(TypingCommand::Char('a'));
    e.apply(TypingCommand::Enter);
    e.apply(TypingCommand::Char('b'));
    assert_eq!(e.snapshot().state, SessionState::Completed);
}

#[test]
fn backspace_moves_back_but_keeps_misses() {
    let mut e = engine("ab");
    e.apply(TypingCommand::Char('a'));
    e.apply(TypingCommand::Char('x'));
    e.apply(TypingCommand::Backspace);
    let s = e.snapshot();
    assert_eq!(s.cursor, 0);
    assert_eq!(s.misses, 1);
}

#[test]
fn escape_interrupts() {
    let mut e = engine("ab");
    e.apply(TypingCommand::Escape);
    assert_eq!(e.snapshot().state, SessionState::Interrupted);
}

#[test]
fn auto_indent_skips_leading_spaces() {
    let mut e = engine("  ab");
    let s = e.snapshot();
    assert_eq!(s.cursor, 2);
    assert_eq!(s.expected, Some('a'));
    e.apply(TypingCommand::Char('a'));
    e.apply(TypingCommand::Char('b'));
    assert_eq!(e.snapshot().keystrokes, 2);
    assert_eq!(e.snapshot().state, SessionState::Completed);
}

#[test]
fn auto_indent_after_newline() {
    let mut e = engine("a\n  b");
    e.apply(TypingCommand::Char('a'));
    e.apply(TypingCommand::Enter);
    assert_eq!(e.snapshot().cursor, 4);
    assert_eq!(e.snapshot().expected, Some('b'));
}

#[test]
fn backspace_cannot_erase_auto_indent() {
    let mut e = engine("  ab");
    assert_eq!(e.snapshot().cursor, 2);
    e.apply(TypingCommand::Backspace);
    assert_eq!(e.snapshot().cursor, 2);
    e.apply(TypingCommand::Char('a'));
    assert_eq!(e.snapshot().cursor, 3);
    e.apply(TypingCommand::Backspace);
    assert_eq!(e.snapshot().cursor, 2);
}

#[test]
fn miss_flash_clears_on_tick() {
    let mut e = engine("a");
    e.apply(TypingCommand::Char('x'));
    e.apply(TypingCommand::Tick { now_ms: 150 });
    assert_eq!(e.snapshot().miss_until_ms, None);
}

#[test]
fn resume_at_does_not_charge_the_paused_interval() {
    let mut e = engine("ab");
    e.apply(TypingCommand::Tick { now_ms: 1_000 });
    assert_eq!(e.snapshot().elapsed_ms, 1_000);
    e.resume_at(11_000);
    assert_eq!(e.snapshot().elapsed_ms, 1_000);
    e.apply(TypingCommand::Tick { now_ms: 11_500 });
    assert_eq!(e.snapshot().elapsed_ms, 1_500);
}

#[test]
fn auto_indent_can_be_disabled() {
    let e = TypingEngine::new("  ab", 0, true, false, 4);
    assert_eq!(e.snapshot().cursor, 0);
    assert_eq!(e.snapshot().expected, Some(' '));
}

#[test]
fn checkpoint_restores_cursor_metrics_and_auto_indent() {
    let mut e = TypingEngine::new("a\n  bc", 0, true, true, 4);
    e.apply(TypingCommand::Char('a'));
    e.apply(TypingCommand::Enter);
    e.apply(TypingCommand::Char('b'));
    e.apply(TypingCommand::Tick { now_ms: 1_000 });
    let snapshot = e.snapshot();
    let checkpoint = TypingCheckpoint {
        chunk_id: 7,
        cursor: snapshot.cursor,
        keystrokes: snapshot.keystrokes,
        misses: snapshot.misses,
        elapsed_ms: snapshot.elapsed_ms,
        started_at: "t0".into(),
        auto_indent: true,
    };
    let restored = TypingEngine::from_checkpoint("a\n  bc", 5_000, &checkpoint, true, 4).expect("valid checkpoint");
    let restored_snapshot = restored.snapshot();
    assert_eq!(restored_snapshot.cursor, snapshot.cursor);
    assert_eq!(restored_snapshot.expected, snapshot.expected);
    assert_eq!(restored_snapshot.keystrokes, snapshot.keystrokes);
    assert_eq!(restored_snapshot.misses, snapshot.misses);
    assert_eq!(restored_snapshot.elapsed_ms, snapshot.elapsed_ms);
    assert!(restored_snapshot.auto_inserted.contains(&2));
    assert!(restored_snapshot.auto_inserted.contains(&3));
}

#[test]
fn checkpoint_rejects_cursor_inside_auto_indent() {
    let checkpoint = TypingCheckpoint {
        chunk_id: 1,
        cursor: 1,
        keystrokes: 0,
        misses: 0,
        elapsed_ms: 0,
        started_at: "t0".into(),
        auto_indent: true,
    };
    assert!(matches!(
        TypingEngine::from_checkpoint("  x", 0, &checkpoint, true, 4),
        Err(TypingRestoreError::CursorInsideAutoIndent { .. })
    ));
}

#[test]
fn checkpoint_rejects_cursor_past_the_end() {
    let checkpoint = TypingCheckpoint {
        chunk_id: 1,
        cursor: 9,
        keystrokes: 0,
        misses: 0,
        elapsed_ms: 0,
        started_at: "t0".into(),
        auto_indent: false,
    };
    assert!(matches!(
        TypingEngine::from_checkpoint("ab", 0, &checkpoint, true, 4),
        Err(TypingRestoreError::CursorOutOfBounds { cursor: 9, target_len: 2 })
    ));
}

#[test]
fn file_type_states_round_trip_through_their_text() {
    for s in [FileTypeState::Included, FileTypeState::Excluded, FileTypeState::Hidden] {
        assert_eq!(FileTypeState::parse(s.as_str()), Some(s));
        assert_eq!(s.cycle().cycle().cycle(), s);
    }
    assert_eq!(FileTypeState::parse("maybe"), None);
}

#[test]
fn progress_updates_touch_only_the_named_file() {
    let mut repo = RepoProgress { files: vec![file("a.rs", false, "x\ny"), file("b.rs", false, "z")] };
    assert!(set_override(&mut repo, "a.rs", Some(ManualOverride::Skip)));
    assert_eq!(repo.files[0].status, FileStatus::Skipped);
    assert_eq!(repo.files[1].manual_override, None);
    assert!(set_override(&mut repo, "a.rs", None));
    assert_eq!(repo.files[0].status, FileStatus::Todo);
    assert!(!set_override(&mut repo, "c.rs", None));

    let cp = TypingCheckpoint {
        chunk_id: 1,
        cursor: 1,
        keystrokes: 1,
        misses: 0,
        elapsed_ms: 5,
        started_at: "t".into(),
        auto_indent: false,
    };
    assert!(set_checkpoint(&mut repo, "b.rs", 1, Some(cp.clone())));
    assert_eq!(repo.files[1].chunks[0].checkpoint, Some(cp));
    assert!(complete_chunk(&mut repo, "b.rs", 1));
    assert_eq!(repo.files[1].chunks[0].completion, ChunkCompletion::Complete);
    assert_eq!(repo.files[1].chunks[0].checkpoint, None);
    assert_eq!(repo.files[1].status, FileStatus::Done);
    assert_eq!(repo.files[0].status, FileStatus::Todo);
}

#[test]
fn typed_lines_grow_with_the_cursor() {
    let body = "one\ntwo\nthree";
    let at = |cursor: usize| TypingCheckpoint {
        chunk_id: 1,
        cursor,
        keystrokes: 0,
        misses: 0,
        elapsed_ms: 0,
        started_at: String::new(),
        auto_indent: false,
    }
    .progressed_lines(body);
    assert_eq!(at(3), 0);
    assert_eq!(at(5), 1);
    assert_eq!(at(9), 2);
    assert_eq!(at(100), 2);
}

#[test]
fn entry_may_be_any_unskipped_file() {
    let progress = RepoProgress {
        files: vec![file("main.rs", false, "fn main() {}"), file("tests/a.rs", true, "x")],
    };
    assert!(entry_pickable(&progress, "main.rs"));
    assert!(!entry_pickable(&progress, "tests/a.rs"));
    assert!(!entry_pickable(&progress, "missing.rs"));
}

#[test]
fn typing_target_names_the_body_and_its_lines() {
    let mut f = file("main.rs", false, "fn main() {}");
    f.chunks[0].chunk.start_line = 3;
    f.chunks[0].chunk.end_line = 12;
    f.chunks[0].id = Some(7);
    let progress = RepoProgress { files: vec![f] };
    let t = typing_target(&progress, "main.rs", 0).unwrap();
    assert_eq!(t.chunk_id, 7);
    assert_eq!(t.normalized, "fn main() {}");
    assert_eq!(t.label, "lines 3–12");
    assert!(matches!(typing_target(&progress, "main.rs", 1), Err(TargetError::BodyMissing)));
    assert!(matches!(typing_target(&progress, "x.rs", 0), Err(TargetError::FileNotFound)));
}
