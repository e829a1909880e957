use engit::changelog::{sort_releases, ReleaseDetail};
use engit::cleanup::PROTECTED_BRANCHES;
use engit::editor::{find_editor, split_command};
use engit::error::format_command_failure;
use engit::release::{build_draft_notes, parse_annotation};
use engit::search::parse_orgs;
use engit::semver::SemVer;
use engit::status::format_status_lines;
use engit::tag::{
    build_tag_draft, max_prerelease_number, next_prerelease_number, resolve_is_possible,
    resolve_next_version, strip_comments,
};
use engit::web::to_https_url;
use engit::EngitError;

#[test]
fn sorts_valid_semver_releases_newest_first() {
    let releases = vec![
        ReleaseDetail {
            tag_name: String::from("v1.0.0-alpha.1"),
            name: None,
            body: None,
        },
        ReleaseDetail {
            tag_name: String::from("v1.0.0"),
            name: None,
            body: None,
        },
        ReleaseDetail {
            tag_name: String::from("not-a-version"),
            name: None,
            body: None,
        },
    ];

    let sorted = sort_releases(releases);

    assert_eq!(sorted.len(), 2);
    assert_eq!(sorted[0].tag_name, "v1.0.0");
    assert_eq!(sorted[1].tag_name, "v1.0.0-alpha.1");
}

#[test]
fn protected_branch_list_matches_python_defaults() {
    assert_eq!(&PROTECTED_BRANCHES, &["main", "master", "develop"]);
}

#[test]
fn split_command_respects_quotes() {
    assert_eq!(
        split_command(r#""C:\Program Files\Code\Code.exe" --wait"#),
        vec![
            String::from(r"C:\Program Files\Code\Code.exe"),
            String::from("--wait"),
        ]
    );
}

#[test]
fn find_editor_uses_git_editor_priority() {
    assert_eq!(
        find_editor(Some("code --wait"), Some("vim"), Some("nano"), false),
        vec![String::from("code"), String::from("--wait")]
    );
}

#[test]
fn command_failure_prefers_stderr() {
    let args = vec![String::from("status")];
    let message = format_command_failure("git", &args, "ok", "fatal: bad");

    assert_eq!(message, "fatal: bad\nstdout:\nok");
}

#[test]
fn command_failure_falls_back_to_stdout() {
    let args = vec![String::from("status")];
    let message = format_command_failure("git", &args, "problem", "");

    assert_eq!(message, "problem");
}

#[test]
fn command_failure_uses_generic_message_when_empty() {
    let args = vec![String::from("status")];
    let message = format_command_failure("git", &args, "", "");

    assert_eq!(message, "git status failed.");
}

#[test]
fn builds_initial_and_no_change_notes() {
    assert_eq!(
        build_draft_notes("v1.0.0", &vec![], true),
        "This is the initial release."
    );
    assert_eq!(
        build_draft_notes("v1.0.1", &vec![], false),
        "This is a no-change release."
    );
}

#[test]
fn parses_annotation_title_and_body() {
    let annotation = "# comment\nRelease v1.2.3\n\n- One\n- Two\n";
    let (title, body) = parse_annotation(annotation);

    assert_eq!(title, "Release v1.2.3");
    assert_eq!(body, "- One\n- Two");
}

#[test]
fn parses_semicolon_and_comma_separated_orgs() {
    assert_eq!(
        parse_orgs("gtvfx-contrib, gtvfx ; gt"),
        vec![
            String::from("gtvfx-contrib"),
            String::from("gtvfx"),
            String::from("gt"),
        ]
    );
}

#[test]
fn parse_accepts_stable_and_prerelease_tags() {
    let stable = SemVer::parse("v1.2.3").expect("stable version should parse");
    let prerelease = SemVer::parse("1.2.3-alpha.4").expect("prerelease version should parse");

    assert_eq!(stable.major, 1);
    assert_eq!(stable.minor, 2);
    assert_eq!(stable.patch, 3);
    assert_eq!(stable.prerelease, None);

    assert_eq!(prerelease.prerelease.as_deref(), Some("alpha.4"));
    assert_eq!(prerelease.prerelease_label(), Some("alpha"));
    assert_eq!(prerelease.prerelease_number(), Some(4));
}

#[test]
fn parse_rejects_invalid_versions() {
    let error = SemVer::parse("1.2").expect_err("invalid version should fail");

    assert!(matches!(error, EngitError::SemVer(_)));
}

#[test]
fn bump_helpers_reset_lower_parts() {
    let version = SemVer::parse("1.2.3-alpha.2").expect("version should parse");

    assert_eq!(version.bump_major().version_string(), "2.0.0");
    assert_eq!(version.bump_minor().version_string(), "1.3.0");
    assert_eq!(version.bump_patch().version_string(), "1.2.4");
}

#[test]
fn display_and_to_tag_match_python_behavior() {
    let stable = SemVer::parse("v1.2.3").expect("stable version should parse");
    let prerelease = SemVer::parse("1.2.3-alpha").expect("prerelease should parse");

    assert_eq!(stable.version_string(), "1.2.3");
    assert_eq!(stable.to_tag(), "v1.2.3");
    assert_eq!(prerelease.version_string(), "1.2.3-alpha");
    assert_eq!(prerelease.to_tag(), "v1.2.3-alpha");
}

#[test]
fn ordering_places_stable_after_matching_prerelease() {
    let stable = SemVer::parse("1.2.3").expect("stable version should parse");
    let prerelease = SemVer::parse("1.2.3-alpha.1").expect("prerelease version should parse");
    let older = SemVer::parse("1.2.2").expect("older version should parse");

    assert!(stable > prerelease);
    assert!(prerelease > older);
    assert!(SemVer::parse("1.2.3-alpha.2").expect("version should parse") > prerelease);
}

#[test]
fn formats_status_summary_lines() {
    let lines = format_status_lines("main", "ahead 2", "v1.2.3", "abc123 Commit");

    assert_eq!(lines[0], "Branch:         main [ahead 2]");
    assert_eq!(lines[1], "Last tag:       v1.2.3");
    assert_eq!(lines[2], "Last commit:    abc123 Commit");
}

#[test]
fn resolves_explicit_prerelease_with_auto_number() {
    let tags = vec![String::from("v1.2.3-alpha.3"), String::from("v1.2.3-alpha.1")];
    let version = resolve_next_version(None, Some("1.2.3-alpha"), &tags)
        .expect("version should resolve");

    assert_eq!(version.to_tag(), "v1.2.3-alpha.4");
}

#[test]
fn bump_requires_existing_tags() {
    let error = resolve_next_version(Some("patch"), None, &vec![])
        .expect_err("bump without tags should fail");

    assert!(matches!(error, EngitError::NoTagsFound(_)));
}

#[test]
fn strips_comment_lines_and_blank_edges() {
    assert_eq!(
        strip_comments("\n# comment\nTitle\n\nBody\n# trailing\n"),
        "Title\n\nBody"
    );
}

#[test]
fn build_tag_draft_includes_initial_release_message() {
    let draft = build_tag_draft("v1.0.0", "Release v1.0.0", &vec![], None);

    assert!(draft.contains("This is the initial release."));
    assert!(draft.contains("# First tag in this repository."));
}

#[test]
fn normalizes_ssh_and_https_urls() {
    assert_eq!(
        to_https_url("git@github.com:owner/repo.git"),
        "https://github.com/owner/repo"
    );
    assert_eq!(
        to_https_url("https://github.com/owner/repo.git"),
        "https://github.com/owner/repo"
    );
}

#[test]
fn semver_order_is_reflexive_and_bumps_are_newer() {
    let v = SemVer::parse("2.4.6-rc.1").expect("version should parse");
    assert!(!v.is_newer_than(&v));
    assert!(v.bump_patch().is_newer_than(&v));
    assert!(v.bump_minor().is_newer_than(&v));
    assert!(v.bump_major().is_newer_than(&v));
}

#[test]
fn tag_text_parses_back_to_the_same_version() {
    let v = SemVer::parse("v10.0.7-beta.12").expect("version should parse");
    let again = SemVer::parse(&v.to_tag()).expect("tag should parse");
    assert_eq!(again, v);
    let again = SemVer::parse(&v.version_string()).expect("version text should parse");
    assert_eq!(again, v);
}

#[test]
fn versions_at_the_integer_limit_cannot_be_resolved() {
    let max = u64::MAX.to_string();
    let tags = vec![format!("v{max}.2.3"), String::from("v1.2.3")];
    assert!(!resolve_is_possible(Some("MAJOR"), None, &tags));
    assert!(resolve_is_possible(Some("minor"), None, &tags));
    assert!(resolve_is_possible(Some("sideways"), None, &tags));
    assert!(resolve_is_possible(Some("major"), None, &vec![]));
    assert!(!resolve_is_possible(None, Some(&format!("{max}0.0.0")), &tags));
    assert!(resolve_is_possible(None, Some("not a version"), &tags));
    assert!(resolve_is_possible(Some("major"), Some("1.0.0"), &tags));

    let beta_tags = vec![format!("v1.0.0-beta.{max}"), String::from("v1.0.0-beta.4")];
    assert!(!resolve_is_possible(None, Some("1.0.0-beta"), &beta_tags));
    assert!(resolve_is_possible(None, Some("1.0.0-rc"), &beta_tags));
}

#[test]
fn prerelease_numbers_follow_the_largest_existing_one() {
    let base = SemVer::parse("1.2.0").unwrap();
    let tags = vec![
        String::from("v1.2.0-alpha.2"),
        String::from("v1.2.0-alpha.10"),
        String::from("v1.2.0-beta.7"),
        String::from("v1.2.0-alpha"),
    ];
    assert_eq!(max_prerelease_number(&base, "alpha", &tags), Some(10));
    assert_eq!(next_prerelease_number(&base, "alpha", &tags), 11);
    assert_eq!(max_prerelease_number(&base, "rc", &tags), None);
    assert_eq!(next_prerelease_number(&base, "rc", &tags), 1);
}

#[test]
fn tag_draft_reads_back_without_its_comments() {
    let commits = vec![String::from("Add search"), String::from("Fix tags")];
    let draft = build_tag_draft("v1.2.0", "Release v1.2.0", &commits, Some("v1.1.0"));
    assert!(draft.ends_with('\n'));
    assert_eq!(strip_comments(&draft), "Release v1.2.0\n\n- Add search\n- Fix tags");
    let first = build_tag_draft("v0.1.0", "First", &vec![], None);
    assert_eq!(strip_comments(&first), "First\n\nThis is the initial release.");
}

#[test]
fn equal_versions_are_the_same_version() {
    let a = SemVer::parse("1.0.0-a.1").unwrap();
    let b = SemVer::parse("v1.0.0-a.1").unwrap();
    assert_eq!(a.compare(&b), std::cmp::Ordering::Equal);
    assert_eq!(a, b);
    let c = SemVer::parse("1.0.0-a.01").unwrap();
    assert_eq!(a.compare(&c), std::cmp::Ordering::Equal);
    assert_ne!(a, c);
}

#[test]
fn bump_applies_to_the_latest_tag() {
    let listing = || Ok(String::from("v1.0.0-rc.1\nv1.0.0\nv0.9.0"));
    let sorted = engit::git::get_sorted_semver_tags(listing());
    let latest = engit::git::get_latest_semver_tag(listing()).expect("a tag is listed");
    assert_eq!(sorted[0], latest.to_tag());
    let next = resolve_next_version(Some("patch"), None, &sorted).expect("bump should resolve");
    assert_eq!(next, latest.bump_patch());
    let next = resolve_next_version(Some("Minor"), None, &sorted).expect("bump should resolve");
    assert_eq!(next, latest.bump_minor());
}
