use engit::publish::{
    base_version, bndlid_from_name, default_bundle_publish_root, detect_version,
    dry_run_lines, ensure_destination_available, is_bndlid, marker_entry_name, plan_publish,
    publish_path, repo_name_from, resolve_asset_tokens, resolve_asset_tokens_strict,
    resolve_bndlid_to_path, bndl_roots_of, bndlid_candidates_of, select_source_files,
    source_patterns, validate_destination, validate_patterns, validate_version, zip_entry_name,
    BundlePublishOptions, BundlePublishResult, PublishFiles, SourceSelection,
};
use engit::walk::{
    collect_source_files, is_left_out, walk_enters, walk_entry, walk_order, WalkFact, WalkStep,
};
use engit::EngitError;

fn strings(items: &[&str]) -> Vec<String> {
    items.iter().map(|s| s.to_string()).collect()
}

fn message(error: EngitError) -> String {
    error.describe()
}

/// The relative paths a source publishes, given what its walk found.
fn selected(
    files: &[&str],
    includes: &[&str],
    excludes: &[&str],
    cli_includes: &[&str],
    cli_excludes: &[&str],
) -> SourceSelection {
    let includes = strings(includes);
    let cli_includes = strings(cli_includes);
    let patterns = source_patterns(
        &includes,
        &vec![false; includes.len()],
        &strings(excludes),
        &cli_includes,
        &vec![false; cli_includes.len()],
        &strings(cli_excludes),
    )
    .expect("patterns should compile");
    select_source_files(&patterns, &strings(files), "/bundle").expect("selection should succeed")
}

fn relatives(selection: &SourceSelection) -> Vec<String> {
    selection.files.iter().map(|(_, rel)| rel.clone()).collect()
}

#[test]
fn bundle_id_helpers_match_python_behavior() {
    assert_eq!(bndlid_from_name("gt-ext-python"), "gt:ext:python");
    assert_eq!(publish_path("gt-ext-python"), vec!["gt", "ext", "python"]);
    assert!(is_bndlid("gt:pythoncore"));
    assert!(!is_bndlid(r"C:\path"));
}

#[test]
fn resolves_asset_tokens_and_base_version() {
    let env = vec![(String::from("ENGIT_TEST_ARTIFACTS"), String::from("R:\\assets"))];

    assert_eq!(base_version("3.11.9-envoy.2"), "3.11.9");
    assert_eq!(
        resolve_asset_tokens(
            "${ENGIT_TEST_ARTIFACTS}/${BASE_VERSION}/${VERSION}",
            "3.11.9-envoy.2",
            &env,
        ),
        r"R:\assets/3.11.9/3.11.9-envoy.2"
    );
}

#[test]
fn default_allowlist_selects_runtime_and_legal_files() {
    let files = [
        ".envoy/commands.json",
        ".envoy/publish-manifest.yaml",
        "py/module.py",
        "bin/tool.exe",
        "prebuilt/runtime.pyd",
        "resources/icon.png",
        "resource/schema.json",
        "docs/guide.md",
        "LICENSE",
        "NOTICE.txt",
        "THIRD_PARTY_LICENSES.md",
        "README.md",
        "src/source.rs",
        "scripts/build.ps1",
        "build/generated.bin",
        "py/__pycache__/module.pyc",
        "prebuilt/target/debug.obj",
    ];
    let chosen = relatives(&selected(&files, &[], &[], &[], &[]));
    for expected in &files[..11] {
        assert!(chosen.contains(&expected.to_string()), "missing {expected}");
    }
    for unexpected in &files[11..] {
        assert!(!chosen.contains(&unexpected.to_string()), "unexpected {unexpected}");
    }
}

#[test]
fn manifest_and_cli_rules_extend_defaults_with_excludes_winning() {
    let files = [
        "py/public/module.py",
        "py/private/secret.py",
        "docs/guide.md",
        "custom/data.bin",
        "extra/runtime.dat",
    ];
    let chosen = relatives(&selected(
        &files,
        &["custom/**"],
        &["py/private/**"],
        &["extra/**"],
        &["docs/**"],
    ));

    assert!(chosen.contains(&String::from("py/public/module.py")));
    assert!(chosen.contains(&String::from("custom/data.bin")));
    assert!(chosen.contains(&String::from("extra/runtime.dat")));
    assert!(!chosen.contains(&String::from("py/private/secret.py")));
    assert!(!chosen.contains(&String::from("docs/guide.md")));
}

#[test]
fn hard_exclusions_override_an_explicit_catch_all_include() {
    let files = [
        "runtime.dat",
        ".git/config",
        ".gitignore",
        ".hg/store/data",
        ".svn/entries",
        "build/generated.bin",
        "target/debug/output.bin",
        "py/__pycache__/module.pyc",
    ];
    let chosen = relatives(&selected(&files, &[], &[], &["**"], &[]));
    assert!(chosen.contains(&String::from("runtime.dat")));
    for excluded in &files[1..] {
        assert!(!chosen.contains(&excluded.to_string()), "included {excluded}");
    }
}

#[test]
fn external_sources_use_defaults_and_source_specific_rules() {
    let bundle = selected(&[".envoy/publish-manifest.yaml"], &[], &[], &[], &[]);
    let artifact = selected(
        &[
            "prebuilt/runtime.dll",
            "build/generated.dll",
            "custom/extra.dat",
            "custom/skip.dat",
            "source/source.cpp",
        ],
        &["custom/**"],
        &["custom/skip.dat"],
        &[],
        &[],
    );
    let mut publish = PublishFiles::from_bundle(&bundle);
    publish.add_artifact("external", &artifact).expect("no collision");
    let files: Vec<String> = publish
        .finish(&vec![])
        .expect("publish files should resolve")
        .into_iter()
        .map(|(_, destination)| destination)
        .collect();

    assert!(files.contains(&String::from("external/prebuilt/runtime.dll")));
    assert!(files.contains(&String::from("external/custom/extra.dat")));
    assert!(!files.contains(&String::from("external/custom/skip.dat")));
    assert!(!files.contains(&String::from("external/build/generated.dll")));
    assert!(!files.contains(&String::from("external/source/source.cpp")));
}

#[test]
fn rejects_unresolved_tokens_unsafe_destinations_and_unmatched_includes() {
    let error = resolve_asset_tokens_strict("${ENGIT_MISSING_ARTIFACT_ROOT}", "dev", &vec![])
        .expect_err("missing token should fail");
    assert!(message(error).contains("ENGIT_MISSING_ARTIFACT_ROOT"));

    let error = validate_destination("../escape").expect_err("unsafe destination should fail");
    assert!(message(error).contains("relative path"));

    let bundle = selected(&[".envoy/publish-manifest.yaml"], &[], &[], &["missing/**"], &[]);
    let error = PublishFiles::from_bundle(&bundle)
        .finish(&strings(&["missing/**"]))
        .expect_err("unmatched include should fail");
    assert!(message(error).contains("matched no files"));
}

#[test]
fn rejects_destination_collisions() {
    let bundle = selected(&["py/module.py"], &[], &[], &[], &[]);
    let artifact = selected(&["py/module.py"], &[], &[], &[], &[]);
    let mut publish = PublishFiles::from_bundle(&bundle);
    let error = publish.add_artifact(".", &artifact).expect_err("collision should fail");
    assert!(message(error).contains("destination collision"));
}

#[test]
fn publish_files_come_out_sorted_by_destination() {
    let bundle = selected(&["py/b.py", "bin/tool", "py/a.py", "LICENSE"], &[], &[], &[], &[]);
    let files: Vec<String> = PublishFiles::from_bundle(&bundle)
        .finish(&vec![])
        .expect("publish files should resolve")
        .into_iter()
        .map(|(_, destination)| destination)
        .collect();
    assert_eq!(files, vec!["LICENSE", "bin/tool", "py/a.py", "py/b.py"]);
}

#[test]
fn released_versions_are_immutable_and_dev_requires_force() {
    let error = ensure_destination_available(true, "/out/gt/immutable/1.0.0", "1.0.0", false)
        .expect_err("released version should be immutable");
    assert!(message(error).contains("immutable"));

    let error = ensure_destination_available(true, "/out/gt/immutable/dev", "dev", false)
        .expect_err("dev replacement should require force");
    assert!(message(error).contains("immutable"));

    assert!(ensure_destination_available(true, "/out/gt/immutable/dev", "dev", true).is_ok());
    assert!(ensure_destination_available(false, "/out/gt/immutable/1.0.0", "1.0.0", false).is_ok());

    let error = plan_publish("/out", "gt-immutable", "1.0.0", true)
        .expect_err("force needs the dev version");
    assert_eq!(message(error), "--force may only be used with --version dev.");
}

#[test]
fn publishes_folder_and_optional_zip_from_the_same_dataset() {
    let plan = plan_publish("/out", "gt-ext-python", "1.2.3", false).expect("plan should succeed");
    assert_eq!(plan.bndlid, "gt:ext:python");
    assert_eq!(plan.bndl_name, "ext:python");
    assert_eq!(plan.directory, "/out/gt/ext/python/1.2.3");
    assert_eq!(plan.archive, "/out/gt-ext-python-1.2.3.zip");
    assert_eq!(
        zip_entry_name("gt-ext-python", "1.2.3", "py/module.py"),
        "gt/ext/python/1.2.3/py/module.py"
    );
    assert_eq!(
        zip_entry_name("gt-ext-python", "1.2.3", ".envoy/publish-manifest.yaml"),
        "gt/ext/python/1.2.3/.envoy/publish-manifest.yaml"
    );
    assert_eq!(marker_entry_name("gt-ext-python", "1.2.3"), "gt/ext/python/1.2.3/.bundle");
}

#[test]
fn publish_dry_run_validates_without_writing() {
    let plan = plan_publish("/out", "gt-dry-run", "1.0.0", false).expect("dry run should succeed");
    let files = vec![(String::from("/b/py/module.py"), String::from("py/module.py"))];
    let lines = dry_run_lines(&plan.bndlid, "1.0.0", &plan.directory, Some(&plan.archive), &files);
    assert_eq!(
        lines,
        vec![
            "Bundle: gt:dry:run  version: 1.0.0",
            "Folder: /out/gt/dry/run/1.0.0",
            "Zip:    /out/gt-dry-run-1.0.0.zip",
            "Files that would be included (1):",
            "  py/module.py",
        ]
    );
}

#[test]
fn bundle_publish_root_prefers_new_environment_variable() {
    let root = default_bundle_publish_root(Some("/tmp/preferred"), Some("/tmp/legacy"))
        .expect("publish root should resolve");
    assert_eq!(root.path, "/tmp/preferred");
    assert!(!root.deprecated);

    let root = default_bundle_publish_root(Some(""), Some("/tmp/legacy"))
        .expect("legacy publish root should resolve");
    assert_eq!(root.path, "/tmp/legacy");
    assert!(root.deprecated);

    let error = default_bundle_publish_root(None, None).expect_err("no root is known");
    assert_eq!(
        message(error),
        "No --output specified and neither ENVOY_BUNDLE_PUBLISH_ROOT nor ENVOY_BNDLE_PROD is set."
    );
}

#[test]
fn resolves_bundle_id_paths_from_env() {
    let roots = bndl_roots_of(" /tmp/first : /tmp/root ::", ':');
    assert_eq!(roots, vec!["/tmp/first", "/tmp/root"]);
    assert_eq!(
        bndlid_candidates_of(&roots, "gt:pythoncore"),
        vec!["/tmp/first/gt/pythoncore", "/tmp/root/gt/pythoncore"]
    );
    assert_eq!(
        resolve_bndlid_to_path("gt:pythoncore", " /tmp/first : /tmp/root ::", ':', &vec![false, true])
            .expect("bundle path should resolve"),
        "/tmp/root/gt/pythoncore"
    );
    let error = resolve_bndlid_to_path("gt:missing", "/tmp/root", ':', &vec![false])
        .expect_err("missing bundle");
    assert_eq!(
        message(error),
        "Bundle \"gt:missing\" not found in ENVOY_BNDL_ROOTS (/tmp/root)."
    );
}

#[test]
fn detect_version_returns_string_form_without_v_prefix() {
    assert_eq!(
        detect_version(&Ok(String::from(".git")), Ok(String::from("v1.2.3")), "/b")
            .expect("version should be detected"),
        "1.2.3"
    );
    let error = detect_version(&Ok(String::from(".git")), Ok(String::new()), "/b")
        .expect_err("no tags");
    assert!(message(error).contains("No semantic version tags found in '/b'"));
}

#[test]
fn repo_name_comes_from_the_origin_url() {
    assert_eq!(repo_name_from(Some("git@github.com:gtvfx/gt-ext-python.git"), "dir"), "gt-ext-python");
    assert_eq!(repo_name_from(Some("https://github.com/o/repo/"), "dir"), "repo");
    assert_eq!(repo_name_from(None, "dir"), "dir");
}

#[test]
fn versions_must_be_one_safe_component() {
    assert!(validate_version("1.2.3").is_ok());
    assert!(validate_version("dev").is_ok());
    assert!(validate_version("").is_err());
    assert!(validate_version("..").is_err());
    assert!(validate_version("a/b").is_err());
    assert!(validate_version("/abs").is_err());
}

#[test]
fn destinations_allow_current_directory_and_names() {
    assert!(validate_destination(".").is_ok());
    assert!(validate_destination("external/runtime").is_ok());
    assert!(validate_destination("/abs").is_err());
    assert!(validate_destination("").is_err());
}

#[test]
fn refused_patterns_name_their_label() {
    let error = validate_patterns(&strings(&["ok/**", "a{b"]), "CLI include")
        .expect_err("unclosed alternate should fail");
    assert!(message(error).starts_with("Invalid CLI include pattern \"a{b\": "));
}

#[test]
fn strict_tokens_list_missing_names_sorted_once() {
    let error = resolve_asset_tokens_strict("${B}/${A}/${B}", "1.0", &vec![])
        .expect_err("missing tokens should fail");
    assert_eq!(
        message(error),
        "Unresolved environment variable(s) in publish manifest: A, B"
    );
}

#[test]
fn publish_reports_the_archive_only_when_one_is_made() {
    let mut options = BundlePublishOptions {
        output_dir: String::from("/out"),
        version: String::from("dev"),
        create_zip: false,
        extra_includes: vec![],
        extra_excludes: vec![],
        force: true,
        dry_run: true,
    };
    let plan = plan_publish(&options.output_dir, "gt-tools", &options.version, options.force)
        .expect("a forced development publish is allowed");
    assert_eq!(
        plan.result(&options),
        BundlePublishResult { directory: String::from("/out/gt/tools/dev"), archive: None }
    );
    options.create_zip = true;
    assert_eq!(
        plan.result(&options),
        BundlePublishResult {
            directory: String::from("/out/gt/tools/dev"),
            archive: Some(String::from("/out/gt-tools-dev.zip")),
        }
    );
}

fn walk_patterns(excludes: &[&str]) -> engit::publish::SourcePatterns {
    source_patterns(&vec![], &vec![], &strings(excludes), &vec![], &vec![], &vec![])
        .expect("patterns should compile")
}

#[test]
fn walk_skips_excluded_directories_and_links_leaving_the_source() {
    let patterns = walk_patterns(&["py/private"]);
    assert_eq!(walk_entry(&patterns, "py/private", WalkFact::Listed), WalkStep::Skip);
    assert_eq!(walk_entry(&patterns, "py/z.py", WalkFact::Listed), WalkStep::Inspect);
    assert_eq!(walk_entry(&patterns, "./py//z.py", WalkFact::Listed), WalkStep::Inspect);
    assert_eq!(
        walk_entry(&patterns, "py/z.py", WalkFact::Kind { link: true, dir: false, file: true }),
        WalkStep::ResolveLink
    );
    assert_eq!(
        walk_entry(&patterns, "py/z.py", WalkFact::Resolved { inside: false, dir: false, file: true }),
        WalkStep::Skip
    );
    assert_eq!(
        walk_entry(&patterns, "py/sub", WalkFact::Resolved { inside: true, dir: true, file: false }),
        WalkStep::Descend
    );
    assert_eq!(
        walk_entry(&patterns, "py/z.py", WalkFact::Kind { link: false, dir: false, file: true }),
        WalkStep::Collect
    );
    assert_eq!(
        walk_entry(&patterns, "dev", WalkFact::Kind { link: false, dir: false, file: false }),
        WalkStep::Skip
    );
    assert!(walk_enters(true, false));
    assert!(!walk_enters(true, true));
    assert!(!walk_enters(false, false));
}

#[test]
fn collected_files_are_sorted_and_outside_excluded_directories() {
    let patterns = walk_patterns(&["py/private"]);
    assert!(is_left_out(&patterns, "py/private/x.py"));
    assert!(!is_left_out(&patterns, "py/privateer.py"));
    let found = strings(&["py/z.py", "py/private/x.py", "LICENSE", "py/a/b.py"]);
    assert_eq!(walk_order(&patterns, &found), strings(&["LICENSE", "py/a/b.py", "py/z.py"]));
    let selection = collect_source_files(&patterns, &found, "/bundle").expect("selection should succeed");
    assert_eq!(relatives(&selection), strings(&["LICENSE", "py/a/b.py", "py/z.py"]));
    assert_eq!(selection.files[1].0, "/bundle/py/a/b.py");
}
