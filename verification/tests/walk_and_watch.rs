use piui::api::{directory_verdict_result, trust_gate};
use piui::catalog::TrustState;
use piui::catalog_stream::{continuity_digest, CatalogStream, PlatformFileIdentity, SourceFingerprint};
use piui::discovery::{SessionDiscoveryLimits, SessionDiscoveryStats};
use piui::discovery_walk::{
    classify_report_project, CandidateProjectAttribution, CatalogSourceFingerprint, DiscoveryWalk,
    EntryAction, PathKind, ReadFailure,
};
use piui::host_state::{
    directory_verdict, discovery_roots, local_session_root, DirectoryObservation, DirectoryVerdict,
    SessionRevisionAdmission, TimelineProjectionCache,
};
use piui::scan::sha256;
use piui::scanner::scan_bytes;
use piui::watch::{unavailable_hint, watchable_root, WatchState, WATCHER_PROTOCOL};

const SESSION: &[u8] = b"{\"type\":\"session\",\"version\":3,\"id\":\"s1\",\"timestamp\":\"2024-01-01T00:00:00Z\",\"cwd\":\"/work/p\"}\n{\"type\":\"message\",\"id\":\"m1\",\"parentId\":null,\"timestamp\":\"2024-01-01T00:00:01Z\",\"message\":{\"role\":\"user\",\"content\":\"hi\"}}\n";

fn limits() -> SessionDiscoveryLimits {
    SessionDiscoveryLimits { max_files: 2, max_directories: 2, max_entries: 5, max_depth: 1, max_file_bytes: 100 }
}

#[test]
fn walk_schedules_roots_within_the_directory_bound() {
    let roots = vec!["/r1".to_owned(), "/r2".to_owned(), "/r3".to_owned()];
    let mut walk = DiscoveryWalk::begin(&roots, limits());
    assert_eq!(walk.next_directory(), Some(("/r1".to_owned(), 0)));
    assert!(walk.check_directory(PathKind::Directory));
    assert_eq!(walk.examine_entry("/r1/sub", Some("sub"), PathKind::Directory), EntryAction::Skip);
    assert_eq!(walk.next_directory(), Some(("/r2".to_owned(), 0)));
    assert!(!walk.check_directory(PathKind::Symlink));
    assert_eq!(walk.next_directory(), None);
    let (stats, unchanged) = walk.finish();
    assert!(stats.directory_limit_reached);
    assert_eq!(stats.visited_directories, 1);
    assert_eq!(stats.skipped_symlinks, 1);
    assert!(unchanged.is_empty());
    assert!(!stats.is_complete());
}

#[test]
fn walk_reads_candidates_and_stops_at_the_file_bound() {
    let roots = vec!["/r".to_owned()];
    let mut walk = DiscoveryWalk::begin(&roots, limits());
    walk.next_directory();
    walk.check_directory(PathKind::Directory);
    assert!(walk.entry_budget());
    assert_eq!(walk.examine_entry("/r/auth.jsonl", Some("auth.jsonl"), PathKind::File { len: 10 }), EntryAction::Skip);
    assert_eq!(walk.examine_entry("/r/a.jsonl", Some("a.jsonl"), PathKind::File { len: 10 }), EntryAction::ReadEvidence);
    assert_eq!(walk.examine_entry("/r/a.jsonl", Some("a.jsonl"), PathKind::File { len: 10 }), EntryAction::Skip);
    assert_eq!(walk.examine_entry("/r/big.jsonl", Some("big.jsonl"), PathKind::File { len: 1000 }), EntryAction::Skip);
    assert_eq!(walk.examine_entry("/r/c.jsonl", Some("c.jsonl"), PathKind::File { len: 10 }), EntryAction::Stop);
    walk.read_failed(ReadFailure::Other);
    let (stats, _) = walk.finish();
    assert_eq!(stats.scanned_files, 2);
    assert_eq!(stats.skipped_duplicate_candidates, 1);
    assert_eq!(stats.skipped_oversize_files, 1);
    assert_eq!(stats.skipped_inaccessible_entries, 1);
    assert!(stats.file_limit_reached);
    assert_eq!(stats.examined_entries, 5);
}

#[test]
fn walk_skips_unchanged_catalog_sources_of_this_project() {
    let evidence = SourceFingerprint::observed(PlatformFileIdentity::Unix { device: 1, inode: 2 }, 10, Some(5), b"p", b"t");
    let known = vec![CatalogSourceFingerprint { session_id: "s1".to_owned(), path: "/r/a.jsonl".to_owned(), fingerprint: evidence.clone() }];
    let roots = vec!["/r".to_owned()];
    let mut walk = DiscoveryWalk::begin(&roots, SessionDiscoveryLimits::default());
    assert!(!walk.evidence_read("/r/a.jsonl", CandidateProjectAttribution::OtherProject, evidence.clone(), &known));
    assert!(!walk.evidence_read("/r/a.jsonl", CandidateProjectAttribution::MatchesRequestedProject, evidence.clone(), &known));
    let changed = SourceFingerprint::observed(PlatformFileIdentity::Unix { device: 1, inode: 2 }, 11, Some(5), b"p", b"t");
    assert!(walk.evidence_read("/r/a.jsonl", CandidateProjectAttribution::MatchesRequestedProject, changed, &known));
    assert!(walk.catalog_read(CandidateProjectAttribution::MatchesRequestedProject));
    assert!(!walk.catalog_read(CandidateProjectAttribution::Unattributable));
    let (stats, unchanged) = walk.finish();
    assert_eq!(stats.unchanged_sources, 1);
    assert_eq!(stats.matched_files, 2);
    assert_eq!(stats.full_content_scans, 2);
    assert_eq!(stats.unattributable_candidates, 1);
    assert_eq!(unchanged.len(), 1);
    assert_eq!(unchanged[0].session_id, "s1");
}

#[test]
fn candidate_attribution_needs_an_absolute_canonical_cwd() {
    let report = scan_bytes("a.jsonl", SESSION);
    assert_eq!(classify_report_project(&report, Some("/work/p"), "/work/p"), CandidateProjectAttribution::MatchesRequestedProject);
    assert_eq!(classify_report_project(&report, Some("/work/q"), "/work/p"), CandidateProjectAttribution::OtherProject);
    assert_eq!(classify_report_project(&report, None, "/work/p"), CandidateProjectAttribution::Unattributable);
    let headless = scan_bytes("b.jsonl", b"{\"type\":\"message\"}\n");
    assert_eq!(classify_report_project(&headless, Some("/work/p"), "/work/p"), CandidateProjectAttribution::Unattributable);
}

#[test]
fn streamed_catalog_is_independent_of_chunking() {
    let mut whole = CatalogStream::new();
    whole.feed(SESSION);
    let whole = whole.finish("a.jsonl");
    let mut parts = CatalogStream::new();
    for chunk in SESSION.chunks(5) {
        parts.feed(chunk);
    }
    let parts = parts.finish("a.jsonl");
    assert_eq!(whole.report, parts.report);
    assert_eq!(whole.prefix, parts.prefix);
    assert_eq!(whole.tail, parts.tail);
    assert_eq!(whole.total, SESSION.len());
    assert_eq!(whole.report.file_revision, sha256(SESSION));
    assert_eq!(whole.prefix, SESSION.to_vec());
    assert_eq!(whole.report.project_cwd.as_deref(), Some("/work/p"));
}

#[test]
fn continuity_digests_bind_prefix_tail_and_length() {
    let a = continuity_digest(b"head", b"tail", 10);
    assert_eq!(a.len(), 64);
    assert_ne!(a, continuity_digest(b"head", b"tail", 11));
    assert_ne!(a, continuity_digest(b"head", b"tali", 10));
    assert_ne!(a, continuity_digest(b"hea", b"dtail", 10));
    let identity = PlatformFileIdentity::Unix { device: 9, inode: 10 };
    assert_eq!(identity.storage_value(), "unix:9:10");
    assert_eq!(PlatformFileIdentity::from_storage("unix:9:10"), Some(identity));
    assert_eq!(PlatformFileIdentity::from_storage("unix:9"), None);
}

#[test]
fn watcher_hints_coalesce_without_paths() {
    let mut state = WatchState::new();
    assert!(state.admit_root("/r", PathKind::Directory));
    assert!(!state.admit_root("/r", PathKind::Directory));
    assert!(!state.admit_root("/link", PathKind::Symlink));
    state.registration_failed("/r");
    assert!(state.admit_root("/r", PathKind::Directory));
    let first = state.hint(false);
    assert_eq!((first.protocol, first.sequence, first.kind), (WATCHER_PROTOCOL, 1, "changed"));
    let second = state.hint(true);
    assert_eq!((second.sequence, second.kind), (2, "overflow"));
    let unavailable = unavailable_hint();
    assert_eq!((unavailable.sequence, unavailable.kind), (1, "unavailable"));
    assert!(watchable_root(PathKind::Directory));
    assert!(!watchable_root(PathKind::File { len: 1 }));
}

#[test]
fn discovery_roots_put_the_local_root_first_without_duplicates() {
    assert_eq!(
        discovery_roots(Some("/p/.pi/agent-sessions".to_owned()), &["/g".to_owned(), "/p/.pi/agent-sessions".to_owned(), "/g".to_owned()]),
        vec!["/p/.pi/agent-sessions".to_owned(), "/g".to_owned()]
    );
    assert_eq!(discovery_roots(None, &[]), Vec::<String>::new());
    assert_eq!(local_session_root("/p", PathKind::Directory, PathKind::Directory).as_deref(), Some("/p/.pi/agent-sessions"));
    assert_eq!(local_session_root("/p", PathKind::Symlink, PathKind::Directory), None);
    assert_eq!(local_session_root("/p", PathKind::Directory, PathKind::Missing), None);
}

#[test]
fn project_directory_verdicts_answer_unavailable_or_conflict() {
    assert_eq!(directory_verdict(DirectoryObservation::Resolved { identity_matches: true }), DirectoryVerdict::Verified);
    assert_eq!(directory_verdict(DirectoryObservation::Resolved { identity_matches: false }), DirectoryVerdict::Replaced);
    assert_eq!(directory_verdict(DirectoryObservation::Absent), DirectoryVerdict::Missing);
    assert_eq!(directory_verdict(DirectoryObservation::Unresolvable), DirectoryVerdict::Replaced);
    assert!(directory_verdict_result(DirectoryVerdict::Verified).is_ok());
    assert_eq!(directory_verdict_result(DirectoryVerdict::Missing).unwrap_err().code, "PROJECT_UNAVAILABLE");
    assert_eq!(directory_verdict_result(DirectoryVerdict::Replaced).unwrap_err().code, "CONFLICT");
    assert_eq!(trust_gate(true, TrustState::Restricted).unwrap_err().code, "NOT_TRUSTED");
    assert!(trust_gate(true, TrustState::Trusted).is_ok());
    assert!(trust_gate(false, TrustState::Unknown).is_ok());
}

#[test]
fn session_admissions_detect_any_change() {
    let report = scan_bytes("a.jsonl", SESSION);
    let admission = SessionRevisionAdmission::capture("p", "s", "/r/a.jsonl".to_owned(), &report).unwrap();
    assert_eq!(admission.file_revision, report.file_revision);
    assert_eq!(admission.pi_session_id.as_deref(), Some("s1"));
    assert!(admission.unchanged("/r/a.jsonl", &report));
    let appended = scan_bytes("a.jsonl", &[SESSION, b"{\"type\":\"message\",\"id\":\"m2\"}\n"].concat());
    assert!(!admission.unchanged("/r/a.jsonl", &appended));
    assert!(!admission.unchanged("/r/b.jsonl", &report));
    let refreshed = SessionRevisionAdmission::capture("p", "s", "/r/a.jsonl".to_owned(), &appended).unwrap();
    assert!(admission.recapture_accepted(&refreshed, "s1"));
    assert!(!admission.recapture_accepted(&refreshed, "other"));
    let mut bad = report.clone();
    bad.file_revision = "not-a-revision".to_owned();
    assert_eq!(SessionRevisionAdmission::capture("p", "s", "/x".to_owned(), &bad).unwrap_err().code, "IO_ERROR");
}

#[test]
fn cached_projections_are_rejected_cheaply_on_metadata_change() {
    let mut report = scan_bytes("a.jsonl", SESSION);
    report.source_modified = Some((100, 5));
    let cache = TimelineProjectionCache::new("p", "s", report);
    assert!(cache.serves("p", "s", &sha256(SESSION)));
    assert!(!cache.serves("p", "other", &sha256(SESSION)));
    assert!(cache.source_metadata_matches(SESSION.len() as u64, Some((100, 5))));
    assert!(!cache.source_metadata_matches(SESSION.len() as u64 + 1, Some((100, 5))));
    assert!(!cache.source_metadata_matches(SESSION.len() as u64, Some((100, 6))));
    assert!(!cache.source_metadata_matches(SESSION.len() as u64, None));
    let unknown = TimelineProjectionCache::new("p", "s", scan_bytes("a.jsonl", SESSION));
    assert!(unknown.source_metadata_matches(SESSION.len() as u64, Some((1, 1))));
    let _ = SessionDiscoveryStats::default();
}
