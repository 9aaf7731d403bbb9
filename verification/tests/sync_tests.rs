use vanity::config::VanityConfig;
use vanity::marker::MirroredMarkerSet;
use vanity::source::SourceCommit;
use vanity::sync::assert_vanity_target_repo;
use vanity::sync::resolve_repo_identity;
use vanity::sync::sync_plan;
use vanity::sync::SyncError;

fn commit(sha: &str, hint: &str, secs: i64) -> SourceCommit {
    SourceCommit {
        sha: sha.to_owned(),
        source_repo_hint: hint.to_owned(),
        source_web_base_url: None,
        author_date_seconds: secs,
        author_offset_minutes: 0,
        subject: "s".to_owned(),
    }
}

fn sha(tag: char) -> String {
    tag.to_string().repeat(40)
}

fn configured() -> VanityConfig {
    VanityConfig {
        this_repo: Some("/target".to_owned()),
        read_repos: vec!["/src-one".to_owned(), "/src-two".to_owned()],
    }
}

fn two_repos() -> Vec<Vec<SourceCommit>> {
    vec![
        vec![commit(&sha('a'), "one", 10), commit(&sha('c'), "one", 30)],
        vec![commit(&sha('b'), "two", 20), commit(&sha('d'), "two", 40)],
    ]
}

const VANITY_ORIGIN: &str = "https://github.com/TeamDman/Vanity.git";

#[test]
fn end_to_end_plan_mirrors_everything_in_order() {
    let config = configured();
    let markers = MirroredMarkerSet::new();
    let plan = sync_plan(&config, false, false, None, Some(VANITY_ORIGIN), &markers, &two_repos())
        .expect("plan should succeed");
    assert_eq!(plan.summary.total_source_commits, 4);
    assert_eq!(plan.summary.existing_markers, 0);
    assert_eq!(plan.summary.created, 4);
    assert!(plan.apply);
    let order: Vec<i64> = plan.pending.iter().map(|p| p.commit.author_date_seconds).collect();
    assert_eq!(order, vec![10, 20, 30, 40]);
    for p in &plan.pending {
        assert!(p.message.contains(&format!("Vanity-Source-Commit: {}", p.commit.sha)));
    }
}

#[test]
fn second_run_creates_nothing() {
    let config = configured();
    let markers = MirroredMarkerSet::new();
    let first = sync_plan(&config, false, true, None, None, &markers, &two_repos())
        .expect("first run should succeed");
    assert_eq!(first.summary.created, 4);
    // The created commits' messages become target history; scan them back.
    let mut markers2 = MirroredMarkerSet::new();
    for p in &first.pending {
        markers2.add_from_message(&p.message);
    }
    let second = sync_plan(&config, false, true, None, None, &markers2, &two_repos())
        .expect("second run should succeed");
    assert_eq!(second.summary.total_source_commits, 4);
    assert_eq!(second.summary.existing_markers, 4);
    assert_eq!(second.summary.created, 0);
    assert!(second.pending.is_empty());
}

#[test]
fn limit_takes_earliest_and_leaves_rest_for_next_run() {
    let config = configured();
    let markers = MirroredMarkerSet::new();
    let capped = sync_plan(&config, false, true, Some(2), None, &markers, &two_repos())
        .expect("capped run should succeed");
    assert_eq!(capped.summary.total_source_commits, 4);
    assert_eq!(capped.summary.created, 2);
    let order: Vec<i64> = capped.pending.iter().map(|p| p.commit.author_date_seconds).collect();
    assert_eq!(order, vec![10, 20]);
    let mut markers2 = MirroredMarkerSet::new();
    for p in &capped.pending {
        markers2.add_from_message(&p.message);
    }
    let rest = sync_plan(&config, false, true, None, None, &markers2, &two_repos())
        .expect("follow-up run should succeed");
    assert_eq!(rest.summary.existing_markers, 2);
    assert_eq!(rest.summary.created, 2);
    let order: Vec<i64> = rest.pending.iter().map(|p| p.commit.author_date_seconds).collect();
    assert_eq!(order, vec![30, 40]);
}

#[test]
fn limit_larger_than_pending_takes_all() {
    let config = configured();
    let markers = MirroredMarkerSet::new();
    let plan = sync_plan(&config, false, true, Some(10), None, &markers, &two_repos())
        .expect("plan should succeed");
    assert_eq!(plan.summary.created, 4);
}

#[test]
fn preview_never_applies_but_counts_accurately() {
    let config = configured();
    let markers = MirroredMarkerSet::new();
    // Preview skips the guard entirely, so even a wrong origin is fine.
    let plan = sync_plan(
        &config,
        true,
        false,
        None,
        Some("https://example.com/other/repo"),
        &markers,
        &two_repos(),
    )
    .expect("preview should succeed");
    assert!(!plan.apply);
    assert_eq!(plan.summary.total_source_commits, 4);
    assert_eq!(plan.summary.existing_markers, 0);
    assert_eq!(plan.summary.created, 4);
}

#[test]
fn guard_blocks_foreign_origin_and_bypass_overrides() {
    let config = configured();
    let markers = MirroredMarkerSet::new();
    let blocked = sync_plan(
        &config,
        false,
        false,
        None,
        Some("https://example.com/other/repo"),
        &markers,
        &two_repos(),
    );
    assert!(matches!(blocked, Err(SyncError::OriginMismatch)));
    let bypassed = sync_plan(
        &config,
        false,
        true,
        None,
        Some("https://example.com/other/repo"),
        &markers,
        &two_repos(),
    );
    assert!(bypassed.is_ok());
}

#[test]
fn guard_accepts_expected_origin_in_any_spelling() {
    assert!(assert_vanity_target_repo(Some("https://github.com/TeamDman/Vanity"), false).is_ok());
    assert!(assert_vanity_target_repo(Some("https://github.com/teamdman/vanity.git"), false).is_ok());
    assert!(assert_vanity_target_repo(Some("https://github.com/TeamDman/Vanity/"), false).is_ok());
    assert!(assert_vanity_target_repo(Some("git@github.com:TeamDman/Vanity.git"), false).is_ok());
    assert!(matches!(
        assert_vanity_target_repo(None, false),
        Err(SyncError::MissingOrigin)
    ));
    assert!(assert_vanity_target_repo(None, true).is_ok());
}

#[test]
fn unconfigured_runs_are_refused() {
    let markers = MirroredMarkerSet::new();
    let no_target = VanityConfig { this_repo: None, read_repos: vec!["/s".to_owned()] };
    assert!(matches!(
        sync_plan(&no_target, false, true, None, None, &markers, &Vec::new()),
        Err(SyncError::TargetNotConfigured)
    ));
    let no_sources = VanityConfig { this_repo: Some("/t".to_owned()), read_repos: Vec::new() };
    assert!(matches!(
        sync_plan(&no_sources, false, true, None, None, &markers, &Vec::new()),
        Err(SyncError::NoSourceRepos)
    ));
}

#[test]
fn identity_falls_back_when_missing_or_blank() {
    let (n, e) = resolve_repo_identity(None, None);
    assert_eq!(n, "Vanity");
    assert_eq!(e, "vanity@example.invalid");
    let (n, e) = resolve_repo_identity(Some("  ".to_owned()), Some("\t".to_owned()));
    assert_eq!(n, "Vanity");
    assert_eq!(e, "vanity@example.invalid");
    let (n, e) = resolve_repo_identity(Some("Someone".to_owned()), Some("a@b.c".to_owned()));
    assert_eq!(n, "Someone");
    assert_eq!(e, "a@b.c");
}
