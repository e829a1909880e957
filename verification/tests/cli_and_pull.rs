use engit::cli::{
    older_than_secs, published_stack_lines, resolve_cache_dir, resolve_publish_bundle_path,
    selected_bump, BundleSpec,
};
use engit::github::{
    create_release, gh_spawn_error, search_args, search_report_lines, search_repos, search_targets,
    updated_date, RepoSearchResult,
};
use engit::EngitError;
use engit::pull::{
    name_width, pull_action, pull_dry_run_lines, pull_success_text, pull_summary_lines,
};

fn repo(full_name: &str) -> RepoSearchResult {
    RepoSearchResult {
        name: full_name.rsplit('/').next().unwrap_or_default().to_string(),
        full_name: full_name.to_string(),
        description: String::new(),
        url: format!("https://github.com/{full_name}"),
        stars: 1,
        updated_at: String::from("2026-07-01T12:00:00Z"),
    }
}

#[test]
fn tag_bump_follows_flag_priority() {
    assert_eq!(selected_bump(true, true, false), Some("major"));
    assert_eq!(selected_bump(false, true, true), Some("minor"));
    assert_eq!(selected_bump(false, false, true), Some("patch"));
    assert_eq!(selected_bump(false, false, false), None);
}

#[test]
fn bundle_arguments_are_ids_or_paths() {
    assert!(matches!(resolve_publish_bundle_path(None), BundleSpec::CurrentDirectory));
    assert!(matches!(resolve_publish_bundle_path(Some("gt:globals")), BundleSpec::BundleId(_)));
    assert!(matches!(resolve_publish_bundle_path(Some("./gt-globals")), BundleSpec::Path(_)));
}

#[test]
fn older_than_days_convert_to_seconds() {
    assert_eq!(older_than_secs(Some(2)).expect("fits"), Some(172_800));
    assert_eq!(older_than_secs(None).expect("none"), None);
    assert!(older_than_secs(Some(u64::MAX)).is_err());
}

#[test]
fn cache_dir_prefers_the_explicit_one() {
    assert_eq!(
        resolve_cache_dir(Some(String::from("/a")), Some(String::from("/b"))).expect("explicit"),
        "/a"
    );
    assert_eq!(resolve_cache_dir(None, Some(String::from("/b"))).expect("default"), "/b");
    assert!(resolve_cache_dir(None, None).is_err());
}

#[test]
fn published_stack_summary_names_stack_and_version() {
    assert_eq!(
        published_stack_lines("/stacks/studio/2026-08-01T15-23-45/studio.estack"),
        vec![
            "Published config: studio",
            "  Version: 2026-08-01T15-23-45",
            "  Path:    /stacks/studio/2026-08-01T15-23-45/studio.estack",
        ]
    );
}

#[test]
fn release_arguments_follow_flags() {
    assert_eq!(
        create_release("v1.0.0", "Release v1.0.0", "Notes", true, false, true, true),
        vec![
            "release", "create", "v1.0.0", "--title", "Release v1.0.0", "--notes", "Notes",
            "--draft", "--latest", "--generate-notes",
        ]
    );
    assert_eq!(
        create_release("v1.1.0-rc.1", "t", "n", false, true, true, false),
        vec!["release", "create", "v1.1.0-rc.1", "--title", "t", "--notes", "n", "--prerelease"]
    );
}

#[test]
fn searches_run_per_organisation_and_keep_first_results() {
    assert_eq!(search_targets(None), vec![None]);
    assert_eq!(
        search_targets(Some(&vec![String::from("a"), String::from("b")])),
        vec![Some(String::from("a")), Some(String::from("b"))]
    );
    assert_eq!(
        search_args("envoy", Some("gtvfx"), 20),
        vec![
            "search", "repos", "envoy", "--owner", "gtvfx", "--limit", "20", "--json",
            "name,fullName,description,url,stargazersCount,updatedAt",
        ]
    );
    let merged = search_repos(&vec![
        vec![repo("a/x"), repo("a/y")],
        vec![repo("a/x"), repo("b/z")],
    ]);
    let names: Vec<&str> = merged.iter().map(|r| r.full_name.as_str()).collect();
    assert_eq!(names, vec!["a/x", "a/y", "b/z"]);
}

#[test]
fn pull_reports_are_formatted() {
    assert_eq!(pull_action("origin", true), "git pull --rebase origin");
    let bundles = vec![
        (String::from("gt:python"), String::from("/b/gt/python")),
        (String::from("gt:core"), String::from("/b/gt/core")),
    ];
    assert_eq!(
        pull_dry_run_lines(&bundles, "git pull origin"),
        vec![
            "Would pull 2 bundle(s) [git pull origin]:",
            "  gt:python             /b/gt/python",
            "  gt:core               /b/gt/core",
        ]
    );
    assert_eq!(name_width(&bundles), 11);
    assert_eq!(pull_success_text(true, "Updating abc..def\nFast-forward"), " \u{2713}  Updating abc..def");
    assert_eq!(pull_success_text(false, "  "), "Already up to date.");
    let failures = vec![(String::from("gt:core"), String::from("fatal: no remote\nmore"))];
    assert_eq!(
        pull_summary_lines(2, &failures),
        vec!["\nDone. 1 succeeded, 1 failed.", "  FAILED:", "    gt:core: fatal: no remote"]
    );
}

#[test]
fn create_release_reports_missing_gh_when_unavailable() {
    assert!(matches!(gh_spawn_error(true, None, "No such file or directory"), EngitError::GhCliNotFound));
    assert!(matches!(gh_spawn_error(false, None, "denied"), EngitError::GitHub(_)));
}

#[test]
fn search_results_are_reported_with_their_dates() {
    assert_eq!(updated_date("2026-07-01T12:00:00Z"), "2026-07-01");
    assert_eq!(updated_date("2026"), "");
    let mut r = repo("gtvfx-contrib/gt-envoy");
    r.description = String::from("Envoy");
    r.stars = 42;
    assert_eq!(
        search_report_lines("envoy", "gtvfx-contrib", &vec![r]),
        vec![
            "\nSearch: 'envoy'  |  Scope: gtvfx-contrib  |  1 result(s)\n",
            "  gtvfx-contrib/gt-envoy",
            "    Envoy",
            "    https://github.com/gtvfx-contrib/gt-envoy  \u{2605} 42  updated: 2026-07-01",
            "",
        ]
    );
    assert_eq!(
        search_report_lines("x", "GitHub (global)", &vec![]),
        vec!["No repositories found matching 'x' in: GitHub (global)"]
    );
}
