use engit::git::{
    get_all_commits, get_commits_since, get_current_branch, get_latest_semver_tag,
    get_repo_root, get_sorted_semver_tags, get_tag_annotation, git_args, is_git_repo,
    listing_is_defined, require_git_repo, tag_exists, GitQuery,
};
use engit::EngitError;

fn not_a_repo() -> Result<String, EngitError> {
    Err(EngitError::Git(String::from(
        "fatal: not a git repository (or any of the parent directories): .git",
    )))
}

#[test]
fn detects_git_repositories_and_root() {
    let in_repo: Result<String, EngitError> = Ok(String::from(".git"));
    let outside = not_a_repo();

    assert!(is_git_repo(&in_repo));
    assert_eq!(
        get_repo_root(&in_repo, Ok(String::from("/work/repo"))).expect("repo root should resolve"),
        "/work/repo"
    );
    assert!(matches!(
        require_git_repo(&outside),
        Err(EngitError::NotAGitRepo)
    ));
}

#[test]
fn finds_semver_tags_and_annotations() {
    let listing = || Ok(String::from("v1.1.0-alpha.1\nv1.0.0\nnon-semver"));

    let latest = get_latest_semver_tag(listing()).expect("latest semver tag should resolve");

    assert_eq!(latest.to_tag(), "v1.1.0-alpha.1");
    assert_eq!(
        get_sorted_semver_tags(listing()),
        vec![String::from("v1.1.0-alpha.1"), String::from("v1.0.0")]
    );
    assert_eq!(
        get_tag_annotation(Ok(String::from("tag")), Ok(String::from("Release v1.0.0\n"))),
        Some(String::from("Release v1.0.0"))
    );
    assert!(tag_exists(Ok(String::from("v1.0.0"))));
    assert!(!tag_exists(Ok(String::new())));
}

#[test]
fn returns_commit_subjects_since_ref() {
    assert_eq!(
        get_commits_since(Ok(String::from("Second commit"))),
        vec![String::from("Second commit")]
    );
    assert_eq!(
        get_all_commits(Ok(String::from("Second commit\nInitial commit"))).len(),
        2
    );
    assert!(get_current_branch(Ok(String::from("master"))).is_some());
}

#[test]
fn lightweight_tags_have_no_annotation() {
    assert_eq!(
        get_tag_annotation(Ok(String::from("commit")), Ok(String::from("Initial commit"))),
        None
    );
    assert_eq!(get_current_branch(Ok(String::from("HEAD"))), None);
}

#[test]
fn git_queries_list_their_arguments() {
    assert_eq!(
        git_args(&GitQuery::TagList),
        vec!["tag", "--list", "--sort=-version:refname"]
    );
    assert_eq!(
        git_args(&GitQuery::CommitsSince { ref_name: String::from("v1.0.0") }),
        vec!["log", "v1.0.0..HEAD", "--pretty=format:%s", "--no-merges"]
    );
    assert_eq!(
        git_args(&GitQuery::BranchComparison {
            branch: String::from("main"),
            remote: String::from("origin"),
        }),
        vec!["rev-list", "--left-right", "--count", "origin/main...HEAD"]
    );
    assert_eq!(
        git_args(&GitQuery::DeleteBranch { branch: String::from("topic"), force: true }),
        vec!["branch", "-D", "topic"]
    );
    assert_eq!(
        git_args(&GitQuery::Pull { remote: String::from("origin"), rebase: true }),
        vec!["pull", "--rebase", "origin"]
    );
    assert_eq!(
        git_args(&GitQuery::TagContents { tag: String::from("v2.0.0") }),
        vec!["for-each-ref", "refs/tags/v2.0.0", "--format=%(contents)"]
    );
}

#[test]
fn tag_listings_with_oversized_numbers_are_flagged() {
    let ok: Result<String, EngitError> = Ok(String::from("v1.2.3\nnot-a-version\n  v0.1.0-rc.2  \n"));
    assert!(listing_is_defined(&ok));
    let big: Result<String, EngitError> = Ok(format!("v1.0.0\nv{}0.0.0\n", u64::MAX));
    assert!(!listing_is_defined(&big));
    assert!(listing_is_defined(&not_a_repo()));
}

#[test]
fn tags_are_ordered_by_version_not_by_listing() {
    let listing = || Ok(String::from("v1.0.0-rc.1\nv1.0.0\nv0.9.0\n1.0.0\nv1.0.0-beta"));
    assert_eq!(
        get_sorted_semver_tags(listing()),
        vec![
            String::from("v1.0.0"),
            String::from("1.0.0"),
            String::from("v1.0.0-rc.1"),
            String::from("v1.0.0-beta"),
            String::from("v0.9.0"),
        ]
    );
    assert_eq!(get_latest_semver_tag(listing()).expect("a tag is listed").to_tag(), "v1.0.0");
    assert!(get_latest_semver_tag(Ok(String::from("no-tags-here"))).is_none());
}
