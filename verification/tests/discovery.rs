use piui::discovery::{is_session_jsonl, DiscoveryError, SessionDiscoveryLimits, SessionDiscoveryStats};

#[test]
fn discovery_completeness_fails_closed_on_any_coverage_gap() {
    assert!(SessionDiscoveryStats::default().is_complete());
    let incomplete = [
        SessionDiscoveryStats {
            directory_limit_reached: true,
            ..SessionDiscoveryStats::default()
        },
        SessionDiscoveryStats {
            entry_limit_reached: true,
            ..SessionDiscoveryStats::default()
        },
        SessionDiscoveryStats {
            file_limit_reached: true,
            ..SessionDiscoveryStats::default()
        },
        SessionDiscoveryStats {
            skipped_symlinks: 1,
            ..SessionDiscoveryStats::default()
        },
        SessionDiscoveryStats {
            skipped_oversize_files: 1,
            ..SessionDiscoveryStats::default()
        },
        SessionDiscoveryStats {
            skipped_depth_directories: 1,
            ..SessionDiscoveryStats::default()
        },
        SessionDiscoveryStats {
            skipped_inaccessible_entries: 1,
            ..SessionDiscoveryStats::default()
        },
        SessionDiscoveryStats {
            unattributable_candidates: 1,
            ..SessionDiscoveryStats::default()
        },
    ];
    assert!(incomplete.iter().all(|stats| !stats.is_complete()));
}

#[test]
fn duplicate_candidates_do_not_block_completeness() {
    let stats = SessionDiscoveryStats {
        skipped_duplicate_candidates: 3,
        full_content_scans: 2,
        ..SessionDiscoveryStats::default()
    };
    assert!(stats.is_complete());
}

#[test]
fn discovery_limits_must_admit_work() {
    assert_eq!(SessionDiscoveryLimits::default().validate(), Ok(()));
    let zero_files = SessionDiscoveryLimits {
        max_files: 0,
        ..SessionDiscoveryLimits::default()
    };
    assert_eq!(zero_files.validate(), Err(DiscoveryError::InvalidLimits));
    let unbounded = SessionDiscoveryLimits {
        max_file_bytes: usize::MAX,
        ..SessionDiscoveryLimits::default()
    };
    assert_eq!(unbounded.validate(), Err(DiscoveryError::InvalidLimits));
}

#[test]
fn only_session_jsonl_files_are_candidates() {
    assert!(is_session_jsonl("2024-01-01_abc.jsonl"));
    assert!(!is_session_jsonl("AUTH.JSONL"));
    assert!(!is_session_jsonl("settings.jsonl"));
    assert!(!is_session_jsonl("notes.json"));
    assert!(!is_session_jsonl(".jsonl"));
    assert!(is_session_jsonl("a.b.jsonl"));
}
