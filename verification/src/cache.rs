//! Bundle cache integrity and cleanup: classifying cached entries, finding
//! orphaned storage directories, selecting entries to prune, and the
//! reports shown for both.

use vstd::prelude::*;

use crate::error::EngitError;
use crate::glob::{
    glob_error, glob_matches, glob_new_error, glob_set_build_error, glob_set_patterns,
    single_pattern_set, single_set_matches,
};
use crate::publish::texts_of;
use crate::text::{chars_eq, chars_of, debug_quoted, debug_text, decimal, extend_str, push_decimal, string_of};

verus! {

/// Outcome of validating a single cached bundle entry.
#[derive(Clone, Copy, Debug, PartialEq, Eq, Structural)]
pub enum CacheEntryStatus {
    /// Recomputed content hash and metadata sidecar both check out.
    Healthy,
    /// Recomputed content hash does not match the entry's storage key.
    Corrupt,
    /// The storage directory referenced by the index is missing entirely.
    Missing,
    /// The storage directory exists but has no `.meta.json` sidecar.
    MetaMissing,
}

/// The label shown for a status.
pub open spec fn status_label(s: CacheEntryStatus) -> Seq<char> {
    match s {
        CacheEntryStatus::Healthy => "OK"@,
        CacheEntryStatus::Corrupt => "CORRUPT"@,
        CacheEntryStatus::Missing => "MISSING"@,
        CacheEntryStatus::MetaMissing => "META_MISSING"@,
    }
}

impl CacheEntryStatus {
    /// Short, fixed-width label used in validate report output.
    pub fn label(self) -> (r: &'static str)
        ensures
            r@ == status_label(self),
    {
        match self {
            CacheEntryStatus::Healthy => "OK",
            CacheEntryStatus::Corrupt => "CORRUPT",
            CacheEntryStatus::Missing => "MISSING",
            CacheEntryStatus::MetaMissing => "META_MISSING",
        }
    }
}

/// Validation result for one cached bundle (bundle ID + version pair).
pub struct CacheEntryReport {
    /// The bundle ID.
    pub bundle_id: String,
    /// The cached version.
    pub version: String,
    /// What validation found.
    pub status: CacheEntryStatus,
}

/// Full validation report for a cache directory.
pub struct CacheValidationReport {
    /// One report per cached entry, in the cache's listing order.
    pub entries: Vec<CacheEntryReport>,
    /// Content-hash storage directories with no referencing index entry
    /// (left behind by interrupted writes or manual edits).
    pub orphaned_dirs: Vec<String>,
}

/// The number of entries whose status is not `Ok`.
pub open spec fn failed_entries(es: Seq<CacheEntryReport>) -> nat
    decreases es.len(),
{
    if es.len() == 0 {
        0
    } else {
        failed_entries(es.drop_last()) + if es.last().status == CacheEntryStatus::Healthy {
            0nat
        } else {
            1nat
        }
    }
}

proof fn lemma_failed_entries_zero(es: Seq<CacheEntryReport>)
    ensures
        failed_entries(es) == 0 <==> forall|i: int| 0 <= i < es.len() ==> (#[trigger] es[i]).status
            == CacheEntryStatus::Healthy,
    decreases es.len(),
{
    if es.len() > 0 {
        lemma_failed_entries_zero(es.drop_last());
        assert forall|i: int| 0 <= i < es.len() - 1 implies es.drop_last()[i] == es[i] by {}
    }
}

impl CacheValidationReport {
    /// `true` if any entry failed validation or any orphaned directory was found.
    pub fn has_problems(&self) -> (r: bool)
        ensures
            r == (self.orphaned_dirs.len() > 0 || exists|i: int|
                0 <= i < self.entries.len() && (#[trigger] self.entries@[i]).status
                    != CacheEntryStatus::Healthy),
    {
        if self.orphaned_dirs.len() > 0 {
            return true;
        }
        let mut i: usize = 0;
        while i < self.entries.len()
            invariant
                i <= self.entries.len(),
                forall|k: int| 0 <= k < i ==> (#[trigger] self.entries@[k]).status == CacheEntryStatus::Healthy,
            decreases self.entries.len() - i,
        {
            if self.entries[i].status != CacheEntryStatus::Healthy {
                return true;
            }
            i = i + 1;
        }
        false
    }

    /// The number of problems: failed entries and orphaned directories.
    pub fn problem_count(&self) -> (r: usize)
        requires
            self.entries.len() + self.orphaned_dirs.len() <= usize::MAX,
        ensures
            r == failed_entries(self.entries@) + self.orphaned_dirs.len(),
    {
        let mut n: usize = 0;
        let mut i: usize = 0;
        while i < self.entries.len()
            invariant
                i <= self.entries.len(),
                self.entries.len() + self.orphaned_dirs.len() <= usize::MAX,
                n == failed_entries(self.entries@.take(i as int)),
                n <= i,
            decreases self.entries.len() - i,
        {
            proof {
                let t = self.entries@.take(i + 1);
                assert(t.drop_last() =~= self.entries@.take(i as int));
                assert(t.last() == self.entries@[i as int]);
            }
            if self.entries[i].status != CacheEntryStatus::Healthy {
                n = n + 1;
            }
            i = i + 1;
        }
        assert(self.entries@.take(self.entries.len() as int) =~= self.entries@);
        n + self.orphaned_dirs.len()
    }
}

// ---------------------------------------------------------------------------
// Validation
// ---------------------------------------------------------------------------

/// What the caller found for a cached entry that the cache could read.
pub struct CachedEntryProbe {
    /// The content hash the entry is stored under.
    pub content_hash: String,
    /// Whether the storage directory exists.
    pub storage_is_dir: bool,
    /// Whether the `.meta.json` sidecar exists.
    pub meta_is_file: bool,
    /// The content hash recomputed from the storage directory, when it
    /// could be computed.
    pub recomputed_hash: Option<String>,
}

/// The status of an entry given what was found for it (`None` when the
/// cache could not read the entry).
pub open spec fn entry_status(probe: Option<CachedEntryProbe>) -> CacheEntryStatus {
    match probe {
        None => CacheEntryStatus::Missing,
        Some(p) => if !p.storage_is_dir {
            CacheEntryStatus::Missing
        } else if !p.meta_is_file {
            CacheEntryStatus::MetaMissing
        } else {
            match p.recomputed_hash {
                Some(h) => if h@ == p.content_hash@ {
                    CacheEntryStatus::Healthy
                } else {
                    CacheEntryStatus::Corrupt
                },
                None => CacheEntryStatus::Corrupt,
            }
        },
    }
}

/// Classify a cached entry (see [`entry_status`]).
pub fn classify_entry(probe: &Option<CachedEntryProbe>) -> (r: CacheEntryStatus)
    ensures
        r == entry_status(*probe),
{
    match probe {
        None => CacheEntryStatus::Missing,
        Some(p) => if !p.storage_is_dir {
            CacheEntryStatus::Missing
        } else if !p.meta_is_file {
            CacheEntryStatus::MetaMissing
        } else {
            match &p.recomputed_hash {
                Some(h) => {
                    let a = chars_of(h.as_str());
                    let b = chars_of(p.content_hash.as_str());
                    if chars_eq(&a, &b) {
                        CacheEntryStatus::Healthy
                    } else {
                        CacheEntryStatus::Corrupt
                    }
                },
                None => CacheEntryStatus::Corrupt,
            }
        },
    }
}

/// The number of hex digits of a content hash.
pub const BUNDLE_CONTENT_HASH_HEX_LEN: usize = 64;

/// A lowercase hexadecimal digit.
pub open spec fn is_lower_hex(c: char) -> bool {
    ('0' <= c && c <= '9') || ('a' <= c && c <= 'f')
}

/// Whether a directory name has the shape of a content hash: one to 64
/// lowercase hexadecimal digits (a full digest, or a shortened one).
pub open spec fn is_content_hash_name(name: Seq<char>) -> bool {
    0 < name.len() <= BUNDLE_CONTENT_HASH_HEX_LEN && forall|i: int|
        0 <= i < name.len() ==> is_lower_hex(#[trigger] name[i])
}

/// Whether a directory name has the shape of a content hash.
pub fn is_expected_content_hash_dir_name(name: &str) -> (r: bool)
    ensures
        r == is_content_hash_name(name@),
{
    let cs = chars_of(name);
    if cs.len() == 0 || cs.len() > BUNDLE_CONTENT_HASH_HEX_LEN {
        return false;
    }
    let mut i: usize = 0;
    while i < cs.len()
        invariant
            i <= cs.len(),
            cs@ == name@,
            forall|k: int| 0 <= k < i ==> is_lower_hex(#[trigger] cs@[k]),
        decreases cs.len() - i,
    {
        let c = cs[i];
        if !(('0' <= c && c <= '9') || ('a' <= c && c <= 'f')) {
            return false;
        }
        i = i + 1;
    }
    true
}

/// An entry of the cache root directory.
pub struct CacheDirEntry {
    /// The entry's file name.
    pub name: String,
    /// The entry's full path.
    pub path: String,
    /// Whether it is a directory.
    pub is_dir: bool,
}

/// Whether `hash` is among `hashes`.
pub open spec fn is_referenced(hashes: Seq<Seq<char>>, hash: Seq<char>) -> bool {
    hashes.contains(hash)
}

/// The orphaned storage directories among the cache root's entries, in
/// listing order: directories named like a content hash that no entry
/// references.
pub open spec fn orphaned_dirs(entries: Seq<CacheDirEntry>, referenced: Seq<Seq<char>>) -> Seq<Seq<char>>
    decreases entries.len(),
{
    if entries.len() == 0 {
        Seq::empty()
    } else {
        let rest = orphaned_dirs(entries.drop_last(), referenced);
        let e = entries.last();
        if e.is_dir && is_content_hash_name(e.name@) && !is_referenced(referenced, e.name@) {
            rest.push(e.path@)
        } else {
            rest
        }
    }
}

fn contains_text(hashes: &Vec<String>, h: &str) -> (r: bool)
    ensures
        r == texts_of(hashes@).contains(h@),
{
    let hc = chars_of(h);
    let mut i: usize = 0;
    while i < hashes.len()
        invariant
            i <= hashes.len(),
            hc@ == h@,
            forall|k: int| 0 <= k < i ==> texts_of(hashes@)[k] != h@,
        decreases hashes.len() - i,
    {
        let c = chars_of(hashes[i].as_str());
        if chars_eq(&c, &hc) {
            assert(texts_of(hashes@)[i as int] == h@);
            return true;
        }
        i = i + 1;
    }
    false
}

/// Find the orphaned storage directories (see [`orphaned_dirs`]).
pub fn find_orphaned_dirs(entries: &Vec<CacheDirEntry>, referenced: &Vec<String>) -> (r: Vec<String>)
    ensures
        texts_of(r@) == orphaned_dirs(entries@, texts_of(referenced@)),
{
    let mut out: Vec<String> = Vec::new();
    let mut i: usize = 0;
    assert(entries@.take(0) =~= Seq::<CacheDirEntry>::empty());
    while i < entries.len()
        invariant
            i <= entries.len(),
            texts_of(out@) == orphaned_dirs(entries@.take(i as int), texts_of(referenced@)),
        decreases entries.len() - i,
    {
        let ghost before = texts_of(out@);
        proof {
            let t = entries@.take(i + 1);
            assert(t.drop_last() =~= entries@.take(i as int));
            assert(t.last() == entries@[i as int]);
        }
        let e = &entries[i];
        if e.is_dir && is_expected_content_hash_dir_name(e.name.as_str()) && !contains_text(
            referenced,
            e.name.as_str(),
        ) {
            out.push(e.path.clone());
            assert(texts_of(out@) =~= before.push(e.path@));
        }
        i = i + 1;
    }
    assert(entries@.take(entries.len() as int) =~= entries@);
    out
}

/// A cached entry as the caller read it: its ID, its version, and what was
/// found for it (`None` when the cache could not read it).
pub struct CachedEntry {
    /// The bundle ID.
    pub bundle_id: String,
    /// The cached version.
    pub version: String,
    /// What was found for the entry.
    pub probe: Option<CachedEntryProbe>,
}

/// The content hashes the readable entries are stored under, in order.
pub open spec fn referenced_hashes(entries: Seq<CachedEntry>) -> Seq<Seq<char>>
    decreases entries.len(),
{
    if entries.len() == 0 {
        Seq::empty()
    } else {
        let rest = referenced_hashes(entries.drop_last());
        match entries.last().probe {
            Some(p) => rest.push(p.content_hash@),
            None => rest,
        }
    }
}

/// The content hashes the readable entries are stored under.
pub fn referenced_hashes_of(entries: &Vec<CachedEntry>) -> (r: Vec<String>)
    ensures
        texts_of(r@) == referenced_hashes(entries@),
{
    let mut out: Vec<String> = Vec::new();
    let mut i: usize = 0;
    assert(entries@.take(0) =~= Seq::<CachedEntry>::empty());
    while i < entries.len()
        invariant
            i <= entries.len(),
            texts_of(out@) == referenced_hashes(entries@.take(i as int)),
        decreases entries.len() - i,
    {
        let ghost before = texts_of(out@);
        proof {
            let t = entries@.take(i + 1);
            assert(t.drop_last() =~= entries@.take(i as int));
            assert(t.last() == entries@[i as int]);
        }
        if let Some(p) = &entries[i].probe {
            out.push(p.content_hash.clone());
            assert(texts_of(out@) =~= before.push(p.content_hash@));
        }
        i = i + 1;
    }
    assert(entries@.take(entries.len() as int) =~= entries@);
    out
}

/// Validate a cache from what was found for each of its entries and the
/// listing of its root directory: each entry is classified, and orphaned
/// storage directories are reported.
pub fn validate_cache(entries: &Vec<CachedEntry>, root_entries: &Vec<CacheDirEntry>) -> (r:
    CacheValidationReport)
    ensures
        r.entries.len() == entries.len(),
        forall|i: int|
            0 <= i < entries.len() ==> {
                &&& (#[trigger] r.entries@[i]).bundle_id@ == entries@[i].bundle_id@
                &&& r.entries@[i].version@ == entries@[i].version@
                &&& r.entries@[i].status == entry_status(entries@[i].probe)
            },
        texts_of(r.orphaned_dirs@) == orphaned_dirs(root_entries@, referenced_hashes(entries@)),
{
    let mut reports: Vec<CacheEntryReport> = Vec::new();
    let mut i: usize = 0;
    while i < entries.len()
        invariant
            i <= entries.len(),
            reports.len() == i,
            forall|k: int|
                0 <= k < i ==> {
                    &&& (#[trigger] reports@[k]).bundle_id@ == entries@[k].bundle_id@
                    &&& reports@[k].version@ == entries@[k].version@
                    &&& reports@[k].status == entry_status(entries@[k].probe)
                },
        decreases entries.len() - i,
    {
        let status = classify_entry(&entries[i].probe);
        reports.push(
            CacheEntryReport {
                bundle_id: entries[i].bundle_id.clone(),
                version: entries[i].version.clone(),
                status,
            },
        );
        i = i + 1;
    }
    let referenced = referenced_hashes_of(entries);
    let orphans = find_orphaned_dirs(root_entries, &referenced);
    CacheValidationReport { entries: reports, orphaned_dirs: orphans }
}

/// The error for a cache directory, or one of its entries, that could not
/// be read: `failed to read <what> <path>: <error>`.
pub fn cache_read_error(what: &str, path: &str, error: &str) -> (r: EngitError)
    ensures
        r matches EngitError::Cache(m) && m@ == "failed to read "@ + what@ + " "@ + path@ + ": "@
            + error@,
{
    let mut m = chars_of("failed to read ");
    extend_str(&mut m, what);
    extend_str(&mut m, " ");
    extend_str(&mut m, path);
    extend_str(&mut m, ": ");
    extend_str(&mut m, error);
    EngitError::Cache(string_of(&m))
}

// ---------------------------------------------------------------------------
// Pruning
// ---------------------------------------------------------------------------

/// Selector describing which cached bundles a prune operation targets.
///
/// When `ids`, `pattern`, and `older_than_secs` are all unset, a prune
/// applies the cache's own retention policy instead. `remove_orphans` is
/// independent of the other selectors.
pub struct PruneSelector {
    /// Exact bundle IDs to remove (any of them).
    pub ids: Vec<String>,
    /// A glob the bundle ID must match.
    pub pattern: Option<String>,
    /// The age, in seconds, an entry must exceed.
    pub older_than_secs: Option<u64>,
    /// Whether to remove orphaned storage directories too.
    pub remove_orphans: bool,
}

impl PruneSelector {
    /// No entry selector is set.
    pub open spec fn is_default_spec(&self) -> bool {
        self.ids.len() == 0 && self.pattern is None && self.older_than_secs is None
    }

    /// Whether no entry selector is set.
    pub fn is_default(&self) -> (r: bool)
        ensures
            r == self.is_default_spec(),
    {
        self.ids.len() == 0 && self.pattern.is_none() && self.older_than_secs.is_none()
    }
}

/// Result of a prune operation.
pub struct PruneOutcome {
    /// The `(bundle ID, version)` entries removed (or that would be).
    pub removed: Vec<(String, String)>,
    /// The orphaned directories removed (or that would be).
    pub removed_orphans: Vec<String>,
    /// When the retention policy was applied instead of a selector: how
    /// many entries it evicted.
    pub default_retention_evicted: Option<usize>,
}

/// How a prune proceeds.
pub enum PruneMode {
    /// Apply the cache's own retention policy.
    ApplyRetention,
    /// Remove the entries the selector picks, and orphans if asked.
    Select,
}

/// The message for a dry run without an explicit selector.
pub open spec fn dry_run_needs_selector_text() -> Seq<char> {
    "--dry-run requires an explicit selector (--id / --pattern / --older-than / --remove-orphans); the default retention policy has no preview mode."@
}

/// Decide how a prune proceeds: with no selector at all, the retention
/// policy applies, which has no dry run.
pub fn prune_mode(selector: &PruneSelector, dry_run: bool) -> (r: Result<PruneMode, EngitError>)
    ensures
        selector.is_default_spec() && !selector.remove_orphans && dry_run ==> (r matches Err(
            EngitError::Cache(m),
        ) && m@ == dry_run_needs_selector_text()),
        selector.is_default_spec() && !selector.remove_orphans && !dry_run ==> r matches Ok(
            PruneMode::ApplyRetention,
        ),
        !(selector.is_default_spec() && !selector.remove_orphans) ==> r matches Ok(PruneMode::Select),
{
    if selector.is_default() && !selector.remove_orphans {
        if dry_run {
            return Err(
                EngitError::Cache(
                    "--dry-run requires an explicit selector (--id / --pattern / --older-than / --remove-orphans); the default retention policy has no preview mode.".to_owned(),
                ),
            );
        }
        return Ok(PruneMode::ApplyRetention);
    }
    Ok(PruneMode::Select)
}

/// An entry considered for pruning, with its age in seconds when its
/// metadata could be read.
pub struct PruneCandidate {
    /// The bundle ID.
    pub bundle_id: String,
    /// The cached version.
    pub version: String,
    /// How long ago the entry was created, in seconds.
    pub age_secs: Option<u64>,
}

/// Whether the selector picks the candidate: every set selector must
/// agree (the ID is one of `ids`, it matches `pattern`, it is older than
/// `older_than_secs`).
pub open spec fn picks(selector: PruneSelector, c: PruneCandidate) -> bool {
    &&& (selector.ids.len() == 0 || texts_of(selector.ids@).contains(c.bundle_id@))
    &&& match selector.pattern {
        Some(p) => glob_matches(p@, c.bundle_id@),
        None => true,
    }
    &&& match selector.older_than_secs {
        Some(max) => match c.age_secs {
            Some(a) => a > max,
            None => false,
        },
        None => true,
    }
}

/// The message for a prune pattern that does not compile.
pub open spec fn bad_prune_pattern_text(p: Seq<char>, e: Seq<char>) -> Seq<char> {
    "invalid --pattern glob "@ + debug_text(p) + ": "@ + e
}

/// Why a prune pattern cannot be used, if it cannot: `Glob::new` refuses
/// it, or its matcher cannot be built.
pub open spec fn prune_pattern_failure(p: Seq<char>) -> Option<Seq<char>> {
    match glob_new_error(p) {
        Some(e) => Some(bad_prune_pattern_text(p, e)),
        None => match glob_set_build_error(seq![p]) {
            Some(e) => Some(bad_prune_pattern_text(p, e)),
            None => None,
        },
    }
}

fn contains_string(v: &Vec<String>, s: &str) -> (r: bool)
    ensures
        r == texts_of(v@).contains(s@),
{
    let sc = chars_of(s);
    let mut i: usize = 0;
    while i < v.len()
        invariant
            i <= v.len(),
            sc@ == s@,
            forall|k: int| 0 <= k < i ==> texts_of(v@)[k] != s@,
        decreases v.len() - i,
    {
        let c = chars_of(v[i].as_str());
        if chars_eq(&c, &sc) {
            assert(texts_of(v@)[i as int] == s@);
            return true;
        }
        i = i + 1;
    }
    false
}

/// For each candidate, whether the selector picks it; fails when the
/// pattern cannot be used.
pub fn select_prune_entries(selector: &PruneSelector, candidates: &Vec<PruneCandidate>) -> (r: Result<
    Vec<bool>,
    EngitError,
>)
    ensures
        (selector.pattern matches Some(p) && prune_pattern_failure(p@) is Some) ==> (r matches Err(
            EngitError::Cache(m),
        ) && Some(m@) == prune_pattern_failure(selector.pattern->Some_0@)),
        !(selector.pattern matches Some(p) && prune_pattern_failure(p@) is Some) ==> (r matches Ok(v)
            && v.len() == candidates.len() && forall|i: int|
            0 <= i < candidates.len() ==> #[trigger] v@[i] == picks(*selector, candidates@[i])),
{
    let set = match &selector.pattern {
        Some(p) => {
            let failure = match glob_error(p.as_str()) {
                Some(e) => Some(e),
                None => match single_pattern_set(p.as_str()) {
                    Ok(set) => return select_with(selector, candidates, Some(set)),
                    Err(e) => Some(e),
                },
            };
            let e = match failure {
                Some(e) => e,
                None => String::new(),
            };
            let mut m = chars_of("invalid --pattern glob ");
            let q = debug_quoted(p.as_str());
            extend_str(&mut m, q.as_str());
            extend_str(&mut m, ": ");
            extend_str(&mut m, e.as_str());
            return Err(EngitError::Cache(string_of(&m)));
        },
        None => None,
    };
    select_with(selector, candidates, set)
}

fn select_with(
    selector: &PruneSelector,
    candidates: &Vec<PruneCandidate>,
    set: Option<globset::GlobSet>,
) -> (r: Result<Vec<bool>, EngitError>)
    requires
        match selector.pattern {
            Some(p) => set matches Some(s) && glob_set_patterns(s) == seq![p@],
            None => set is None,
        },
    ensures
        r matches Ok(v) && v.len() == candidates.len() && forall|i: int|
            0 <= i < candidates.len() ==> #[trigger] v@[i] == picks(*selector, candidates@[i]),
{
    let mut out: Vec<bool> = Vec::new();
    let mut i: usize = 0;
    while i < candidates.len()
        invariant
            i <= candidates.len(),
            out.len() == i,
            match selector.pattern {
                Some(p) => set matches Some(s) && glob_set_patterns(s) == seq![p@],
                None => set is None,
            },
            forall|k: int| 0 <= k < i ==> #[trigger] out@[k] == picks(*selector, candidates@[k]),
        decreases candidates.len() - i,
    {
        let c = &candidates[i];
        let id_ok = selector.ids.len() == 0 || contains_string(&selector.ids, c.bundle_id.as_str());
        let pattern_ok = match &set {
            Some(s) => single_set_matches(s, c.bundle_id.as_str()),
            None => true,
        };
        let age_ok = match selector.older_than_secs {
            Some(max) => match c.age_secs {
                Some(a) => a > max,
                None => false,
            },
            None => true,
        };
        out.push(id_ok && pattern_ok && age_ok);
        i = i + 1;
    }
    Ok(out)
}

/// How long ago, in seconds, an entry created at `created_at` was created,
/// at `now` (both seconds since the epoch); zero for a future creation.
pub fn entry_age_secs(now: u64, created_at: u64) -> (r: u64)
    ensures
        r == if now >= created_at {
            (now - created_at) as u64
        } else {
            0
        },
{
    now.saturating_sub(created_at)
}

// ---------------------------------------------------------------------------
// Reports
// ---------------------------------------------------------------------------

/// The lines a validation report prints.
pub open spec fn validation_report_text(cache_dir: Seq<char>, r: CacheValidationReport) -> Seq<Seq<char>> {
    let head = seq!["Cache: "@ + cache_dir];
    if r.entries.len() == 0 && r.orphaned_dirs.len() == 0 {
        head + seq!["  (empty)"@]
    } else {
        let n: nat = failed_entries(r.entries@) + r.orphaned_dirs@.len();
        head + r.entries@.map_values(
            |e: CacheEntryReport| "  ["@ + status_label(e.status) + "] "@ + e.bundle_id@ + "@"@ + e.version@,
        ) + texts_of(r.orphaned_dirs@).map_values(|p: Seq<char>| "  [ORPHANED] "@ + p) + seq![
            if n > 0 {
                "\n"@ + decimal(n) + " problem(s) found. Run `engit cache prune --remove-orphans` or remove affected entries and re-fetch."@
            } else {
                "\nNo problems found."@
            },
        ]
    }
}

/// The lines of a validation report (see [`validation_report_text`]).
pub fn validation_report_lines(cache_dir: &str, report: &CacheValidationReport) -> (r: Vec<String>)
    requires
        report.entries.len() + report.orphaned_dirs.len() <= usize::MAX,
    ensures
        texts_of(r@) == validation_report_text(cache_dir@, *report),
{
    let mut out: Vec<String> = Vec::new();
    let mut h = chars_of("Cache: ");
    extend_str(&mut h, cache_dir);
    out.push(string_of(&h));
    let ghost head = seq!["Cache: "@ + cache_dir@];
    assert(texts_of(out@) =~= head);
    if report.entries.len() == 0 && report.orphaned_dirs.len() == 0 {
        out.push("  (empty)".to_owned());
        assert(texts_of(out@) =~= head + seq!["  (empty)"@]);
        return out;
    }
    let ghost el = report.entries@.map_values(
        |e: CacheEntryReport| "  ["@ + status_label(e.status) + "] "@ + e.bundle_id@ + "@"@ + e.version@,
    );
    let mut i: usize = 0;
    while i < report.entries.len()
        invariant
            i <= report.entries.len(),
            el == report.entries@.map_values(
                |e: CacheEntryReport| "  ["@ + status_label(e.status) + "] "@ + e.bundle_id@ + "@"@ + e.version@,
            ),
            texts_of(out@) == head + el.take(i as int),
        decreases report.entries.len() - i,
    {
        let ghost before = texts_of(out@);
        let e = &report.entries[i];
        let mut l = chars_of("  [");
        extend_str(&mut l, e.status.label());
        extend_str(&mut l, "] ");
        extend_str(&mut l, e.bundle_id.as_str());
        extend_str(&mut l, "@");
        extend_str(&mut l, e.version.as_str());
        out.push(string_of(&l));
        assert(texts_of(out@) =~= before.push(el[i as int]));
        assert(el.take(i + 1) =~= el.take(i as int).push(el[i as int]));
        i = i + 1;
    }
    assert(el.take(report.entries.len() as int) =~= el);
    let ghost ol = texts_of(report.orphaned_dirs@).map_values(|p: Seq<char>| "  [ORPHANED] "@ + p);
    let mut j: usize = 0;
    while j < report.orphaned_dirs.len()
        invariant
            j <= report.orphaned_dirs.len(),
            ol == texts_of(report.orphaned_dirs@).map_values(|p: Seq<char>| "  [ORPHANED] "@ + p),
            texts_of(out@) == head + el + ol.take(j as int),
        decreases report.orphaned_dirs.len() - j,
    {
        let ghost before = texts_of(out@);
        let mut l = chars_of("  [ORPHANED] ");
        extend_str(&mut l, report.orphaned_dirs[j].as_str());
        out.push(string_of(&l));
        assert(texts_of(out@) =~= before.push(ol[j as int]));
        assert(ol.take(j + 1) =~= ol.take(j as int).push(ol[j as int]));
        j = j + 1;
    }
    assert(ol.take(report.orphaned_dirs.len() as int) =~= ol);
    let n = report.problem_count();
    if n > 0 {
        let mut l = chars_of("\n");
        push_decimal(&mut l, n as u64);
        extend_str(&mut l, " problem(s) found. Run `engit cache prune --remove-orphans` or remove affected entries and re-fetch.");
        out.push(string_of(&l));
    } else {
        out.push("\nNo problems found.".to_owned());
    }
    out
}

/// The lines a prune prints.
pub open spec fn prune_report_text(outcome: PruneOutcome, dry_run: bool) -> Seq<Seq<char>> {
    let verb = if dry_run {
        "Would remove"@
    } else {
        "Removed"@
    };
    match outcome.default_retention_evicted {
        Some(n) => seq!["Applied default retention policy: "@ + decimal(n as nat) + " entry(ies) evicted."@],
        None => outcome.removed@.map_values(
            |e: (String, String)| verb + " "@ + e.0@ + "@"@ + e.1@,
        ) + texts_of(outcome.removed_orphans@).map_values(
            |p: Seq<char>| verb + " orphaned directory "@ + p,
        ) + if outcome.removed.len() == 0 && outcome.removed_orphans.len() == 0 {
            seq!["Nothing matched the given selector."@]
        } else {
            Seq::empty()
        },
    }
}

/// The lines of a prune summary (see [`prune_report_text`]).
pub fn prune_report_lines(outcome: &PruneOutcome, dry_run: bool) -> (r: Vec<String>)
    ensures
        texts_of(r@) == prune_report_text(*outcome, dry_run),
{
    let mut out: Vec<String> = Vec::new();
    if let Some(n) = outcome.default_retention_evicted {
        let mut l = chars_of("Applied default retention policy: ");
        push_decimal(&mut l, n as u64);
        extend_str(&mut l, " entry(ies) evicted.");
        out.push(string_of(&l));
        assert(texts_of(out@) =~= prune_report_text(*outcome, dry_run));
        return out;
    }
    let verb = if dry_run {
        "Would remove"
    } else {
        "Removed"
    };
    let ghost vb = verb@;
    let ghost rl = outcome.removed@.map_values(|e: (String, String)| vb + " "@ + e.0@ + "@"@ + e.1@);
    let mut i: usize = 0;
    assert(texts_of(out@) =~= rl.take(0));
    while i < outcome.removed.len()
        invariant
            i <= outcome.removed.len(),
            vb == verb@,
            rl == outcome.removed@.map_values(|e: (String, String)| vb + " "@ + e.0@ + "@"@ + e.1@),
            texts_of(out@) == rl.take(i as int),
        decreases outcome.removed.len() - i,
    {
        let ghost before = texts_of(out@);
        let mut l = chars_of(verb);
        extend_str(&mut l, " ");
        extend_str(&mut l, outcome.removed[i].0.as_str());
        extend_str(&mut l, "@");
        extend_str(&mut l, outcome.removed[i].1.as_str());
        out.push(string_of(&l));
        assert(texts_of(out@) =~= before.push(rl[i as int]));
        assert(rl.take(i + 1) =~= rl.take(i as int).push(rl[i as int]));
        i = i + 1;
    }
    assert(rl.take(outcome.removed.len() as int) =~= rl);
    let ghost ol = texts_of(outcome.removed_orphans@).map_values(|p: Seq<char>| vb + " orphaned directory "@ + p);
    let mut j: usize = 0;
    while j < outcome.removed_orphans.len()
        invariant
            j <= outcome.removed_orphans.len(),
            vb == verb@,
            ol == texts_of(outcome.removed_orphans@).map_values(|p: Seq<char>| vb + " orphaned directory "@ + p),
            texts_of(out@) == rl + ol.take(j as int),
        decreases outcome.removed_orphans.len() - j,
    {
        let ghost before = texts_of(out@);
        let mut l = chars_of(verb);
        extend_str(&mut l, " orphaned directory ");
        extend_str(&mut l, outcome.removed_orphans[j].as_str());
        out.push(string_of(&l));
        assert(texts_of(out@) =~= before.push(ol[j as int]));
        assert(ol.take(j + 1) =~= ol.take(j as int).push(ol[j as int]));
        j = j + 1;
    }
    assert(ol.take(outcome.removed_orphans.len() as int) =~= ol);
    if outcome.removed.len() == 0 && outcome.removed_orphans.len() == 0 {
        out.push("Nothing matched the given selector.".to_owned());
        assert(texts_of(out@) =~= rl + ol + seq!["Nothing matched the given selector."@]);
    } else {
        assert(texts_of(out@) =~= rl + ol + Seq::<Seq<char>>::empty());
    }
    out
}

/// The error when validation found problems.
pub fn cache_problems_error() -> (r: EngitError)
    ensures
        r matches EngitError::Cache(m) && m@ == "Cache validation found problems (see above)."@,
{
    EngitError::Cache("Cache validation found problems (see above).".to_owned())
}

/// A prune selector picks a candidate exactly when every selector that is
/// set accepts it: when IDs are given, the candidate's ID is one of them;
/// when a pattern is given, it matches the ID; when an age is given, the
/// candidate's age is known and exceeds it. A selector left unset accepts
/// every candidate.
pub proof fn law_prune_needs_every_selector(selector: PruneSelector, c: PruneCandidate)
    ensures
        picks(selector, c) <==> {
            &&& selector.ids.len() > 0 ==> texts_of(selector.ids@).contains(c.bundle_id@)
            &&& selector.pattern matches Some(p) ==> glob_matches(p@, c.bundle_id@)
            &&& selector.older_than_secs matches Some(max) ==> (c.age_secs matches Some(a) && a > max)
        },
        picks(selector, c) && selector.ids.len() > 0 ==> texts_of(selector.ids@).contains(c.bundle_id@),
        picks(selector, c) && selector.older_than_secs is Some ==> c.age_secs is Some,
{
}

/// The storage directory and metadata file are there and the recomputed
/// hash is the recorded one.
pub open spec fn healthy_probe(probe: Option<CachedEntryProbe>) -> bool {
    match probe {
        Some(p) => {
            &&& p.storage_is_dir
            &&& p.meta_is_file
            &&& p.recomputed_hash matches Some(h) && h@ == p.content_hash@
        },
        None => false,
    }
}

/// A cached entry is healthy exactly when its storage directory and its
/// metadata file are there and its content hashes, recomputed, to the
/// recorded hash; an entry the cache could not read is missing.
pub proof fn law_healthy_only_when_hash_matches(probe: Option<CachedEntryProbe>)
    ensures
        (entry_status(probe) == CacheEntryStatus::Healthy) <==> healthy_probe(probe),
        probe is None ==> entry_status(probe) == CacheEntryStatus::Missing,
{
}

} // verus!
