use chrono::Datelike;
use repomonk::domain::content::{FileStatus, SkipReason};
use repomonk::samples::sample_repos;
use repomonk::source::git::{clone_failure_message, parse_github_input, truncate, GitHubRef};
use repomonk::source::local::looks_like_local_path;
use repomonk::source::{resolve_source, InputError, SourceTarget};
use repomonk::store::sqlite::{
    carried_done, checkpoint_from_row, compute_streak, parse_skip_reason, session_day, stored_skip_text,
};
use repomonk::store::DataPaths;

#[test]
fn sample_catalog_has_unique_github_inputs() {
    let samples = sample_repos();
    assert!(!samples.is_empty());
    for (index, sample) in samples.iter().enumerate() {
        assert!(sample.input.starts_with("salan70/"));
        assert!(sample.input.contains("repomonk-sample-"));
        assert_eq!(sample.contract_revision, 1);
        assert!(samples[index + 1..].iter().all(|other| other.input != sample.input));
    }
}

#[test]
fn parses_https_and_ssh_and_bare() {
    assert_eq!(
        parse_github_input("https://github.com/foo/bar").unwrap(),
        GitHubRef { owner: "foo".into(), repo: "bar".into() }
    );
    assert_eq!(parse_github_input("https://github.com/foo/bar.git/").unwrap().repo, "bar");
    assert_eq!(parse_github_input("git@github.com:foo/bar.git").unwrap().owner, "foo");
    assert_eq!(parse_github_input("foo/bar").unwrap(), GitHubRef { owner: "foo".into(), repo: "bar".into() });
    assert!(parse_github_input("not a repo").is_none());
    assert!(parse_github_input("foo/bar/baz").is_none());
}

#[test]
fn github_ref_names_its_cache_url_and_identity() {
    let g = GitHubRef { owner: "foo".into(), repo: "bar".into() };
    assert_eq!(g.cache_dir_name(), "foo__bar");
    assert_eq!(g.clone_url_https(), "https://github.com/foo/bar.git");
    assert_eq!(g.display_name(), "foo/bar");
    assert_eq!(g.identity(), "github:foo/bar");
}

#[test]
fn resolve_source_routes_inputs() {
    assert_eq!(resolve_source("   ", false).unwrap_err(), InputError::Empty);
    assert!(matches!(resolve_source("./repo", false), Ok(SourceTarget::Local(p)) if p == "./repo"));
    assert!(matches!(resolve_source("foo/bar", true), Ok(SourceTarget::Local(p)) if p == "foo/bar"));
    assert!(matches!(resolve_source(" foo/bar ", false), Ok(SourceTarget::GitHub(g)) if g.owner == "foo" && g.repo == "bar"));
    let err = resolve_source("not a repo", false).unwrap_err();
    assert_eq!(err, InputError::Unrecognized("not a repo".into()));
    assert_eq!(
        err.message(),
        "expected a GitHub URL, owner/repo, or local path; got `not a repo`"
    );
    assert!(looks_like_local_path("/tmp/x", false));
    assert!(!looks_like_local_path("foo/bar", false));
}

#[test]
fn truncate_and_clone_failure_message() {
    assert_eq!(truncate("abcdef", 3), "abc…");
    assert_eq!(truncate("ab", 3), "ab");
    assert!(clone_failure_message("fatal: repository not found", "exit status: 128").contains("fatal: repository not found"));
}

#[test]
fn parses_current_and_legacy_config_skip_reasons() {
    assert_eq!(parse_skip_reason("config or docs (include_configs=false)"), SkipReason::ConfigFile);
    assert_eq!(parse_skip_reason("config file (include_configs=false)"), SkipReason::ConfigFile);
}

#[test]
fn unknown_skip_text_is_kept_as_io_error() {
    assert_eq!(parse_skip_reason("something else"), SkipReason::IoError("something else".into()));
    assert_eq!(parse_skip_reason("line longer than 12 cols"), SkipReason::LineTooLong { max_cols: 12 });
}

#[test]
fn only_skipped_files_store_a_reason() {
    assert_eq!(stored_skip_text(FileStatus::Todo, &Some(SkipReason::Binary)), None);
    assert_eq!(stored_skip_text(FileStatus::Skipped, &Some(SkipReason::Binary)).as_deref(), Some("binary file"));
}

#[test]
fn streak_may_start_yesterday() {
    assert_eq!(compute_streak(&[10, 9], 11), 2);
    assert_eq!(compute_streak(&[], 11), 0);
    assert_eq!(compute_streak(&[11, 10, 8], 11), 2);
    assert_eq!(compute_streak(&[8], 11), 0);
}

#[test]
fn checkpoint_rows_clamp_negative_values() {
    let c = checkpoint_from_row(3, -1, Some(-5), None, Some(20), None, Some(1));
    assert_eq!(c.chunk_id, 3);
    assert_eq!(c.cursor, 0);
    assert_eq!(c.keystrokes, 0);
    assert_eq!(c.misses, 0);
    assert_eq!(c.elapsed_ms, 20);
    assert!(c.auto_indent);
}

#[test]
fn data_paths_keep_their_roots() {
    let p = DataPaths::from_roots("/c".into(), "/d".into());
    assert_eq!(p.cache_dir, std::path::PathBuf::from("/c"));
    assert_eq!(p.db_path, std::path::PathBuf::from("/d/repomonk.db"));
}

#[test]
fn parses_github_refs() {
    assert!(parse_github_input("https://github.com/salan70/repomonk").is_some());
    assert!(parse_github_input("salan70/repomonk").is_some());
}

#[test]
fn compute_streak_allows_yesterday_start() {
    // Days are counted as day numbers; 2026-08-09, 2026-08-10 and 2026-08-11
    // are consecutive ones.
    let today: i32 = 20_676;
    assert_eq!(compute_streak(&[today - 1, today - 2], today), 2);
    assert_eq!(compute_streak(&[], today), 0);
}

#[test]
fn completions_carry_over_by_hash_only_when_kept() {
    let done = vec!["aaa".to_string(), "bbb".to_string()];
    assert!(carried_done(true, &done, "bbb"));
    assert!(!carried_done(true, &done, "ccc"));
    assert!(!carried_done(false, &done, "aaa"));
    assert!(!carried_done(true, &[], "aaa"));
}

#[test]
fn session_days_read_timestamps_and_date_prefixes() {
    let day = chrono::NaiveDate::from_ymd_opt(2026, 8, 10).unwrap().num_days_from_ce();
    assert_eq!(session_day("2026-08-10T12:00:00+00:00"), Some(day));
    assert_eq!(session_day("2026-08-10 12:00:00"), Some(day));
    assert_eq!(session_day("2026-08"), None);
    assert_eq!(session_day("2026-08-1日x"), None);
    assert_eq!(session_day("not a date at all"), None);
}
