use engit::cache::{
    classify_entry, find_orphaned_dirs, is_expected_content_hash_dir_name, prune_mode, prune_report_lines,
    select_prune_entries, validate_cache, validation_report_lines, CacheDirEntry,
    CacheEntryStatus, CachedEntry, CachedEntryProbe, PruneCandidate, PruneMode, PruneOutcome,
    PruneSelector,
};

const HASH: &str = "0123456789abcdef0123456789abcdef0123456789abcdef0123456789abcdef";

fn healthy_entry() -> CachedEntry {
    CachedEntry {
        bundle_id: String::from("test:bundle"),
        version: String::from("1.0.0"),
        probe: Some(CachedEntryProbe {
            content_hash: String::from(HASH),
            storage_is_dir: true,
            meta_is_file: true,
            recomputed_hash: Some(String::from(HASH)),
        }),
    }
}

fn selector(ids: &[&str], pattern: Option<&str>) -> PruneSelector {
    PruneSelector {
        ids: ids.iter().map(|s| s.to_string()).collect(),
        pattern: pattern.map(|p| p.to_string()),
        older_than_secs: None,
        remove_orphans: false,
    }
}

fn candidates(ids: &[&str]) -> Vec<PruneCandidate> {
    ids.iter()
        .map(|id| PruneCandidate {
            bundle_id: id.to_string(),
            version: String::from("1.0.0"),
            age_secs: None,
        })
        .collect()
}

fn picked(selector: &PruneSelector, ids: &[&str]) -> Vec<(String, String)> {
    let cands = candidates(ids);
    let chosen = select_prune_entries(selector, &cands).expect("pattern should compile");
    cands
        .iter()
        .zip(chosen)
        .filter(|(_, keep)| *keep)
        .map(|(c, _)| (c.bundle_id.clone(), c.version.clone()))
        .collect()
}

#[test]
fn validate_reports_ok_for_a_healthy_entry() {
    let report = validate_cache(&vec![healthy_entry()], &vec![]);
    assert!(!report.has_problems());
    assert_eq!(report.entries.len(), 1);
    assert_eq!(report.entries[0].status, CacheEntryStatus::Healthy);
}

#[test]
fn validate_detects_corrupted_content() {
    let mut entry = healthy_entry();
    if let Some(probe) = entry.probe.as_mut() {
        probe.recomputed_hash = Some(String::from("f".repeat(64)));
    }
    let report = validate_cache(&vec![entry], &vec![]);
    assert!(report.has_problems());
    assert_eq!(report.entries[0].status, CacheEntryStatus::Corrupt);
}

#[test]
fn validate_detects_missing_storage_directory() {
    let mut entry = healthy_entry();
    if let Some(probe) = entry.probe.as_mut() {
        probe.storage_is_dir = false;
    }
    let report = validate_cache(&vec![entry], &vec![]);
    assert!(report.has_problems());
    assert_eq!(report.entries[0].status, CacheEntryStatus::Missing);
}

#[test]
fn missing_sidecar_and_unreadable_entries_are_reported() {
    let probe = CachedEntryProbe {
        content_hash: String::from(HASH),
        storage_is_dir: true,
        meta_is_file: false,
        recomputed_hash: None,
    };
    assert_eq!(classify_entry(&Some(probe)), CacheEntryStatus::MetaMissing);
    assert_eq!(classify_entry(&None), CacheEntryStatus::Missing);
    assert_eq!(CacheEntryStatus::MetaMissing.label(), "META_MISSING");
}

#[test]
fn unreferenced_hash_directories_are_orphans() {
    let other = "a".repeat(64);
    let root = vec![
        CacheDirEntry { name: String::from(HASH), path: format!("/c/{HASH}"), is_dir: true },
        CacheDirEntry { name: other.clone(), path: format!("/c/{other}"), is_dir: true },
        CacheDirEntry { name: String::from("index.json"), path: String::from("/c/index.json"), is_dir: false },
        CacheDirEntry { name: String::from("deadbeef"), path: String::from("/c/deadbeef"), is_dir: false },
        CacheDirEntry { name: String::from("tmp"), path: String::from("/c/tmp"), is_dir: true },
    ];
    let report = validate_cache(&vec![healthy_entry()], &root);
    assert_eq!(report.orphaned_dirs, vec![format!("/c/{other}")]);
    assert!(report.has_problems());
    assert!(is_expected_content_hash_dir_name(HASH));
    assert!(is_expected_content_hash_dir_name("deadbeef"));
    assert!(!is_expected_content_hash_dir_name(""));
    assert!(!is_expected_content_hash_dir_name("DEADBEEF"));
    assert!(!is_expected_content_hash_dir_name(&"a".repeat(65)));
    assert_eq!(
        validation_report_lines("/c", &report),
        vec![
            String::from("Cache: /c"),
            String::from("  [OK] test:bundle@1.0.0"),
            format!("  [ORPHANED] /c/{other}"),
            String::from("\n1 problem(s) found. Run `engit cache prune --remove-orphans` or remove affected entries and re-fetch."),
        ]
    );
}

#[test]
fn prune_by_id_removes_only_matching_bundles() {
    assert_eq!(
        picked(&selector(&["test:a"], None), &["test:a", "test:b"]),
        vec![(String::from("test:a"), String::from("1.0.0"))]
    );
}

#[test]
fn prune_dry_run_reports_without_removing() {
    let sel = selector(&["test:bundle"], None);
    assert!(matches!(prune_mode(&sel, true), Ok(PruneMode::Select)));
    let removed = picked(&sel, &["test:bundle"]);
    assert_eq!(removed.len(), 1);
    let outcome = PruneOutcome { removed, removed_orphans: vec![], default_retention_evicted: None };
    assert_eq!(prune_report_lines(&outcome, true), vec!["Would remove test:bundle@1.0.0"]);
}

#[test]
fn prune_by_pattern_matches_glob_against_bundle_id() {
    assert_eq!(
        picked(&selector(&[], Some("test:*")), &["test:alpha", "other:beta"]),
        vec![(String::from("test:alpha"), String::from("1.0.0"))]
    );
}

#[test]
fn prune_default_selector_applies_retention_policy() {
    let sel = selector(&[], None);
    assert!(matches!(prune_mode(&sel, false), Ok(PruneMode::ApplyRetention)));
    let outcome = PruneOutcome {
        removed: vec![],
        removed_orphans: vec![],
        default_retention_evicted: Some(0),
    };
    assert_eq!(
        prune_report_lines(&outcome, false),
        vec!["Applied default retention policy: 0 entry(ies) evicted."]
    );
}

#[test]
fn prune_default_selector_rejects_dry_run() {
    assert!(prune_mode(&selector(&[], None), true).is_err());
}

#[test]
fn prune_by_age_needs_known_older_entries() {
    let sel = PruneSelector {
        ids: vec![],
        pattern: None,
        older_than_secs: Some(86_400),
        remove_orphans: false,
    };
    let cands = vec![
        PruneCandidate { bundle_id: String::from("a"), version: String::from("1"), age_secs: Some(90_000) },
        PruneCandidate { bundle_id: String::from("b"), version: String::from("1"), age_secs: Some(86_400) },
        PruneCandidate { bundle_id: String::from("c"), version: String::from("1"), age_secs: None },
    ];
    assert_eq!(select_prune_entries(&sel, &cands).expect("no pattern"), vec![true, false, false]);
    assert!(select_prune_entries(&selector(&[], Some("a[")), &cands).is_err());
}

#[test]
fn validate_detects_orphaned_storage_directories() {
    // A content-hash-shaped directory with no index entry pointing to it.
    let root = vec![CacheDirEntry {
        name: String::from("deadbeef"),
        path: String::from("/cache/deadbeef"),
        is_dir: true,
    }];
    let report = validate_cache(&vec![], &root);
    assert!(report.has_problems());
    assert_eq!(report.orphaned_dirs.len(), 1);
}

#[test]
fn prune_remove_orphans_deletes_unreferenced_directories() {
    let orphan_dir = String::from("/cache/deadbeef");
    let root = vec![CacheDirEntry { name: String::from("deadbeef"), path: orphan_dir.clone(), is_dir: true }];
    let selector = PruneSelector {
        ids: vec![],
        pattern: None,
        older_than_secs: None,
        remove_orphans: true,
    };
    assert!(matches!(prune_mode(&selector, false), Ok(PruneMode::Select)));
    assert!(select_prune_entries(&selector, &vec![]).unwrap().is_empty());
    let removed_orphans = find_orphaned_dirs(&root, &vec![]);
    assert_eq!(removed_orphans, vec![orphan_dir.clone()]);
}
