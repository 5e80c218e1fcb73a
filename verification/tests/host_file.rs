use piui::catalog::IndexError;
use piui::catalog_stream::{PlatformFileIdentity, SourceFingerprint, DISCOVERY_HEADER_PREFIX_BYTES};
use piui::host_file::{
    check_no_follow_open, discovered_scan_binding, evidence_bound, evidence_confirmed,
    evidence_plan, file_name, metadata_stamp, report_verification_limit, rescan_reproduces,
    safe_display_path, source_name_of, BoundedScan, BoundedScanError, DiscoveredSession,
    FileObservation, HostSessionFile, StreamedRevision,
};
use piui::scan::sha256;
use piui::scanner::scan_bytes;

const SESSION: &[u8] = b"{\"type\":\"session\",\"version\":3,\"id\":\"s1\",\"timestamp\":\"2024-01-01T00:00:00Z\",\"cwd\":\"/work/p\"}\n";

fn identity() -> PlatformFileIdentity {
    PlatformFileIdentity::Unix { device: 7, inode: 42 }
}

fn observation(length: u64, modified: Option<(u64, u32)>) -> FileObservation {
    FileObservation { identity: identity(), length, modified }
}

fn bound_file(revision: &str, limit: usize) -> HostSessionFile {
    HostSessionFile::from_verified("/sessions/a.jsonl".to_owned(), identity(), revision.to_owned(), limit)
}

#[test]
fn file_names_follow_unix_path_components() {
    assert_eq!(file_name("/a/b/c.jsonl").as_deref(), Some("c.jsonl"));
    assert_eq!(file_name("a/b/").as_deref(), Some("b"));
    assert_eq!(file_name("a/.").as_deref(), Some("a"));
    assert_eq!(file_name("a/.."), None);
    assert_eq!(file_name("/"), None);
    assert_eq!(file_name(""), None);
    assert_eq!(source_name_of("/x/session-1.jsonl"), "session-1.jsonl");
    assert_eq!(source_name_of("/"), "session.jsonl");
}

#[test]
fn display_paths_reveal_only_a_normalized_leaf() {
    assert_eq!(safe_display_path("/home/user/My   Project"), "…/My Project");
    assert_eq!(safe_display_path("/"), "…/Project");
    assert_eq!(safe_display_path("/tmp/\u{7}"), "…/Project");
}

#[test]
fn modification_stamps_are_nanoseconds_that_fit() {
    assert_eq!(metadata_stamp(Some((1, 5))), Some(1_000_000_005));
    assert_eq!(metadata_stamp(None), None);
    assert_eq!(metadata_stamp(Some((u64::MAX, 0))), None);
    assert_eq!(metadata_stamp(Some((9_223_372_036, 854_775_807))), Some(i64::MAX));
    assert_eq!(metadata_stamp(Some((9_223_372_036, 854_775_808))), None);
}

#[test]
fn stored_session_files_need_identity_and_revision() {
    let file = HostSessionFile::from_stored("/s.jsonl".to_owned(), "unix:1:2".to_owned(), "rev".to_owned()).unwrap();
    assert_eq!(file.expected_identity(), Some(PlatformFileIdentity::Unix { device: 1, inode: 2 }));
    assert_eq!(file.expected_revision(), Some("rev"));
    assert_eq!(file.verification_limit(), None);
    assert_eq!(file.as_path(), "/s.jsonl");
    assert!(matches!(
        HostSessionFile::from_stored("/s".to_owned(), "bad".to_owned(), "rev".to_owned()),
        Err(IndexError::SessionIdentityUnavailable)
    ));
    assert!(matches!(
        HostSessionFile::from_stored("/s".to_owned(), "unix:1:2".to_owned(), String::new()),
        Err(IndexError::SessionIdentityUnavailable)
    ));
}

#[test]
fn no_follow_open_refuses_links_and_non_files() {
    assert_eq!(check_no_follow_open(true, true, true), Err(BoundedScanError::Symlink));
    assert_eq!(check_no_follow_open(false, false, true), Err(BoundedScanError::NotRegularFile));
    assert_eq!(check_no_follow_open(false, true, false), Err(BoundedScanError::NotRegularFile));
    assert_eq!(check_no_follow_open(false, true, true), Ok(()));
}

#[test]
fn bounded_rescan_checks_limit_identity_revision_and_stability() {
    let revision = sha256(SESSION);
    let file = bound_file(&revision, 4096);
    assert!(matches!(BoundedScan::begin(&file, 0, true), Err(BoundedScanError::InvalidByteLimit)));
    assert!(matches!(BoundedScan::begin(&file, usize::MAX, true), Err(BoundedScanError::InvalidByteLimit)));
    let stored = HostSessionFile::from_stored("/s".to_owned(), "unix:7:42".to_owned(), "rev".to_owned()).unwrap();
    assert!(BoundedScan::begin(&stored, 10, false).is_ok());

    let mut scan = BoundedScan::begin(&file, 4096, true).unwrap();
    let other = FileObservation { identity: PlatformFileIdentity::Unix { device: 7, inode: 43 }, length: 10, modified: None };
    assert_eq!(scan.opened(other), Err(BoundedScanError::Changed));
    assert_eq!(scan.opened(observation(5000, None)), Err(BoundedScanError::FileTooLarge { limit: 4096 }));
    assert_eq!(scan.opened(observation(SESSION.len() as u64, Some((10, 1)))), Ok(()));
    let report = scan.scanned("a.jsonl", SESSION, false, None).unwrap();
    assert_eq!(report.file_revision, revision);
    assert_eq!(report.project_cwd.as_deref(), Some("/work/p"));

    let changed = scan.confirmed(report.clone(), SESSION.len(), observation(SESSION.len() as u64 + 1, Some((10, 1))));
    assert_eq!(changed.unwrap_err(), BoundedScanError::Changed);
    let touched = scan.confirmed(report.clone(), SESSION.len(), observation(SESSION.len() as u64, Some((11, 1))));
    assert_eq!(touched.unwrap_err(), BoundedScanError::Changed);
    let confirmed = scan.confirmed(report, SESSION.len(), observation(SESSION.len() as u64, Some((10, 1)))).unwrap();
    assert_eq!(confirmed.source_modified, Some((10, 1)));

    let mismatched = bound_file(&sha256(b"other"), 4096);
    let scan = BoundedScan::begin(&mismatched, 4096, true).unwrap();
    assert_eq!(scan.scanned("a.jsonl", SESSION, false, None).unwrap_err(), BoundedScanError::RevisionMismatch);
    let scan = BoundedScan::begin(&mismatched, 4096, false).unwrap();
    assert!(scan.scanned("a.jsonl", SESSION, false, None).is_ok());
    let small = BoundedScan::begin(&mismatched, 8, false).unwrap();
    assert_eq!(small.scanned("a.jsonl", SESSION, false, None).unwrap_err(), BoundedScanError::FileTooLarge { limit: 8 });
}

#[test]
fn streamed_revision_hashes_all_chunks_and_keeps_the_header_prefix() {
    let revision = sha256(SESSION);
    let file = bound_file(&revision, 4096);
    let mut stream = StreamedRevision::begin(&file, 4096).unwrap();
    stream.opened(observation(SESSION.len() as u64, None)).unwrap();
    for chunk in SESSION.chunks(7) {
        stream.feed(chunk);
    }
    assert_eq!(stream.read_done(), Ok(()));
    let prefix = stream
        .confirmed(observation(SESSION.len() as u64, None), observation(SESSION.len() as u64, None), &revision)
        .unwrap();
    assert_eq!(prefix, SESSION.to_vec());

    let mut stream = StreamedRevision::begin(&file, 4096).unwrap();
    stream.opened(observation(SESSION.len() as u64, None)).unwrap();
    stream.feed(SESSION);
    let wrong = stream.confirmed(observation(SESSION.len() as u64, None), observation(SESSION.len() as u64, None), &sha256(b"x"));
    assert_eq!(wrong.unwrap_err(), BoundedScanError::RevisionMismatch);

    let mut stream = StreamedRevision::begin(&file, 4096).unwrap();
    stream.opened(observation(SESSION.len() as u64, None)).unwrap();
    stream.feed(SESSION);
    let grown = stream.confirmed(observation(SESSION.len() as u64 + 3, None), observation(SESSION.len() as u64, None), &revision);
    assert_eq!(grown.unwrap_err(), BoundedScanError::Changed);

    let mut stream = StreamedRevision::begin(&file, 16).unwrap();
    stream.opened(observation(10, None)).unwrap();
    stream.feed(SESSION);
    assert_eq!(stream.read_done(), Err(BoundedScanError::FileTooLarge { limit: 16 }));

    let big = vec![b'a'; DISCOVERY_HEADER_PREFIX_BYTES + 100];
    let file = bound_file(&sha256(&big), big.len() + 1);
    let mut stream = StreamedRevision::begin(&file, big.len() + 1).unwrap();
    stream.opened(observation(big.len() as u64, None)).unwrap();
    stream.feed(&big[..1000]);
    stream.feed(&big[1000..]);
    let prefix = stream
        .confirmed(observation(big.len() as u64, None), observation(big.len() as u64, None), &sha256(&big))
        .unwrap();
    assert_eq!(prefix.len(), DISCOVERY_HEADER_PREFIX_BYTES);
}

#[test]
fn discovery_evidence_is_bounded_and_stability_checked() {
    assert_eq!(evidence_plan(observation(10, None), 5), Err(BoundedScanError::FileTooLarge { limit: 5 }));
    assert_eq!(evidence_plan(observation(10, None), 10), Ok((10, 10)));
    assert_eq!(evidence_plan(observation(1 << 20, None), 1 << 21), Ok((65536, 65536)));

    let prefix = SESSION.to_vec();
    let tail = SESSION[SESSION.len() - 5..].to_vec();
    let before = observation(SESSION.len() as u64, Some((3, 4)));
    let evidence = evidence_confirmed(before, prefix.clone(), tail.clone(), before, before).unwrap();
    assert_eq!(evidence.header_prefix, prefix);
    assert_eq!(evidence.fingerprint.identity, identity());
    assert_eq!(evidence.fingerprint.length, SESSION.len() as u64);
    assert_eq!(evidence.fingerprint.modified_stamp, Some(3_000_000_004));
    assert_eq!(evidence.fingerprint.continuity_digest.len(), 64);
    let other_tail = evidence_confirmed(before, prefix.clone(), b"other".to_vec(), before, before).unwrap();
    assert_ne!(other_tail.fingerprint.continuity_digest, evidence.fingerprint.continuity_digest);

    let moved = FileObservation { identity: PlatformFileIdentity::Unix { device: 8, inode: 42 }, ..before };
    assert!(matches!(evidence_confirmed(before, prefix.clone(), tail.clone(), before, moved), Err(BoundedScanError::Changed)));
    let touched = observation(SESSION.len() as u64, Some((3, 5)));
    assert!(matches!(evidence_confirmed(before, prefix, tail, touched, before), Err(BoundedScanError::Changed)));
}

fn fingerprint(digest_seed: &[u8]) -> SourceFingerprint {
    SourceFingerprint::observed(identity(), SESSION.len() as u64, Some(1), digest_seed, b"")
}

#[test]
fn discovered_sessions_are_reverified_before_commit() {
    let revision = sha256(SESSION);
    let report = scan_bytes("a.jsonl", SESSION);
    let session = DiscoveredSession {
        file: bound_file(&revision, SESSION.len()),
        report: report.clone(),
        fingerprint: fingerprint(b"a"),
        catalog_only: true,
    };
    assert_eq!(session.verification_limit(), Ok(SESSION.len()));
    let unbound = DiscoveredSession {
        file: HostSessionFile::from_stored("/s".to_owned(), "unix:7:42".to_owned(), revision.clone()).unwrap(),
        report: report.clone(),
        fingerprint: fingerprint(b"a"),
        catalog_only: false,
    };
    assert_eq!(unbound.verification_limit(), Err(IndexError::SessionIdentityUnavailable));

    let same = Ok(piui::host_file::DiscoveryEvidence { header_prefix: Vec::new(), fingerprint: fingerprint(b"a") });
    assert_eq!(session.evidence_unchanged(&same), Ok(()));
    let different = Ok(piui::host_file::DiscoveryEvidence { header_prefix: Vec::new(), fingerprint: fingerprint(b"b") });
    assert_eq!(session.evidence_unchanged(&different), Err(IndexError::SessionIdentityChanged));
    assert_eq!(session.evidence_unchanged(&Err(BoundedScanError::Read)), Err(IndexError::SessionIdentityChanged));

    assert!(matches!(session.revision_verified(Err(BoundedScanError::RevisionMismatch)), Err(IndexError::SessionIdentityChanged)));
}

#[test]
fn discovered_scans_bind_identity_revision_and_limit() {
    let revision = sha256(SESSION);
    let report = scan_bytes("a.jsonl", SESSION);
    assert_eq!(report_verification_limit(&report), Ok(SESSION.len()));
    assert_eq!(report_verification_limit(&scan_bytes("e.jsonl", b"")), Ok(1));

    assert_eq!(discovered_scan_binding(&bound_file(&revision, 10), &report), Ok((identity(), 10)));
    assert_eq!(discovered_scan_binding(&bound_file(&revision, 0), &report), Err(IndexError::SessionIdentityUnavailable));
    assert_eq!(discovered_scan_binding(&bound_file("other", 10), &report), Err(IndexError::SessionIdentityChanged));

    assert_eq!(rescan_reproduces(&report, &Ok(report.clone())), Ok(()));
    assert_eq!(rescan_reproduces(&report, &Ok(scan_bytes("a.jsonl", b"x\n"))), Err(IndexError::SessionIdentityChanged));
    assert_eq!(rescan_reproduces(&report, &Err(BoundedScanError::Symlink)), Err(IndexError::SessionIdentityChanged));

    let evidence = piui::host_file::DiscoveryEvidence { header_prefix: Vec::new(), fingerprint: fingerprint(b"a") };
    assert_eq!(evidence_bound(identity(), Ok(evidence)), Ok(fingerprint(b"a")));
    let evidence = piui::host_file::DiscoveryEvidence { header_prefix: Vec::new(), fingerprint: fingerprint(b"a") };
    assert_eq!(
        evidence_bound(PlatformFileIdentity::Unix { device: 1, inode: 1 }, Ok(evidence)),
        Err(IndexError::SessionIdentityChanged)
    );
}
