use piui::catalog::{IndexError, StoredField, TitleSource, TrustState};
use piui::catalog_stream::PlatformFileIdentity;
use piui::discovery::SessionDiscoveryStats;
use piui::registry::{
    allocate_generation, batch_complete, catalog_fingerprint_from_row, check_project_generation,
    escape_like_pattern, indexed_session_file, new_project_name, parse_project_generation,
    persisted_session_summary, plan_session_search, project_generation_key,
    project_summary_from_row, registration_action, sanitize_project_name, search_project_limit,
    session_search_pattern, session_summary_from_row, sorted_distinct, sweep_permitted,
    validated_project_name, ProjectRegistration,
};
use piui::report::ParseState;
use piui::scanner::scan_bytes;

const DIGEST: &str = "0123456789abcdef0123456789abcdef0123456789ABCDEF0123456789abcdef";

#[test]
fn generation_keys_and_values_are_strict() {
    assert_eq!(project_generation_key("p1"), "project-discovery-generation:p1");
    assert_eq!(parse_project_generation("5"), Ok(5));
    assert_eq!(parse_project_generation("+7"), Ok(7));
    assert_eq!(parse_project_generation("9223372036854775807"), Ok(i64::MAX));
    for bad in ["0", "-1", "", "abc", " 3", "9223372036854775808"] {
        assert_eq!(parse_project_generation(bad), Err(IndexError::ProjectDiscoveryGenerationUnavailable), "{bad}");
    }
}

#[test]
fn generations_advance_only_for_registered_projects() {
    assert_eq!(allocate_generation(false, None), Err(IndexError::ProjectNotRegistered));
    assert_eq!(allocate_generation(true, None), Ok(1));
    assert_eq!(allocate_generation(true, Some("4")), Ok(5));
    assert_eq!(
        allocate_generation(true, Some("9223372036854775807")),
        Err(IndexError::ProjectDiscoveryGenerationUnavailable)
    );
    assert_eq!(allocate_generation(true, Some("x")), Err(IndexError::ProjectDiscoveryGenerationUnavailable));

    assert_eq!(check_project_generation(false, Some("3"), 3), Err(IndexError::ProjectNotRegistered));
    assert_eq!(check_project_generation(true, Some("3"), 3), Ok(()));
    assert_eq!(check_project_generation(true, Some("4"), 3), Err(IndexError::ProjectDiscoveryGenerationUnavailable));
    assert_eq!(check_project_generation(true, None, 3), Err(IndexError::ProjectDiscoveryGenerationUnavailable));
}

#[test]
fn incomplete_passes_never_sweep() {
    let incomplete = SessionDiscoveryStats { skipped_symlinks: 1, ..SessionDiscoveryStats::default() };
    assert_eq!(sweep_permitted(&incomplete, false, None, 1), Ok(false));
    let complete = SessionDiscoveryStats::default();
    assert_eq!(sweep_permitted(&complete, true, Some("2"), 2), Ok(true));
    assert_eq!(sweep_permitted(&complete, true, Some("3"), 2), Err(IndexError::ProjectDiscoveryGenerationUnavailable));
    assert_eq!(sweep_permitted(&complete, false, Some("2"), 2), Err(IndexError::ProjectNotRegistered));

    assert!(batch_complete(&complete, 2, 2));
    assert!(!batch_complete(&complete, 1, 2));
    assert!(!batch_complete(&incomplete, 2, 2));
}

#[test]
fn project_names_are_sanitized_and_never_empty() {
    assert_eq!(sanitize_project_name("  My\u{7}   Project \n").as_deref(), Some("My Project"));
    assert_eq!(sanitize_project_name("\u{0}\t \n"), None);
    assert_eq!(validated_project_name(" "), Err(IndexError::InvalidProjectName));
    assert_eq!(validated_project_name("Renamed").as_deref(), Ok("Renamed"));
    let long = "x".repeat(300);
    assert_eq!(sanitize_project_name(&long).unwrap().chars().count(), 120);

    assert_eq!(new_project_name(Some("Named"), "/home/u/repo"), "Named");
    assert_eq!(new_project_name(Some("   "), "/home/u/repo"), "repo");
    assert_eq!(new_project_name(None, "/"), "Project");
}

#[test]
fn registration_keeps_only_the_same_identity() {
    assert_eq!(registration_action(false, None, "id"), ProjectRegistration::Insert);
    assert_eq!(registration_action(true, Some("id"), "id"), ProjectRegistration::Existing);
    assert_eq!(registration_action(true, Some("old"), "id"), ProjectRegistration::ReplaceIdentity);
    assert_eq!(registration_action(true, None, "id"), ProjectRegistration::ReplaceIdentity);
}

#[test]
fn search_patterns_are_trimmed_lowercase_and_literal() {
    assert_eq!(escape_like_pattern("50%_a\\b"), "50\\%\\_a\\\\b");
    assert_eq!(session_search_pattern("  Hello_World ").as_deref(), Ok("%hello\\_world%"));
    assert_eq!(session_search_pattern("ÄB").as_deref(), Ok("%äb%"));
    assert_eq!(session_search_pattern("   "), Err(IndexError::InvalidSessionSearchQuery));
    assert_eq!(session_search_pattern(&"q".repeat(121)), Err(IndexError::InvalidSessionSearchQuery));
    assert!(session_search_pattern(&"q".repeat(120)).is_ok());

    assert_eq!(search_project_limit(0), None);
    assert_eq!(search_project_limit(3), Some(3));
    assert_eq!(search_project_limit(1000), Some(64));
}

#[test]
fn multi_project_search_plans_are_bounded_and_never_global() {
    let ids = vec!["b".to_owned(), "a".to_owned(), "b".to_owned()];
    let plan = plan_session_search(&ids, "Q", 100).unwrap().unwrap();
    assert_eq!(plan.project_ids, vec!["a".to_owned(), "b".to_owned()]);
    assert_eq!(plan.pattern, "%q%");
    assert_eq!(plan.candidates_per_project, 128);
    assert_eq!(plan.result_limit, 50);

    assert!(plan_session_search(&[], "q", 10).unwrap().is_none());
    assert!(plan_session_search(&ids, "q", 0).unwrap().is_none());
    let many: Vec<String> = (0..65).map(|i| format!("p{i}")).collect();
    assert!(matches!(plan_session_search(&many, "q", 10), Err(IndexError::SessionSearchProjectLimitExceeded)));
    assert!(matches!(plan_session_search(&ids, " ", 10), Err(IndexError::InvalidSessionSearchQuery)));
    let all: Vec<String> = (0..64).map(|i| format!("p{i:02}")).collect();
    let plan = plan_session_search(&all, "q", 7).unwrap().unwrap();
    assert_eq!(plan.candidates_per_project, 4);
    assert_eq!(plan.result_limit, 7);

    assert_eq!(
        sorted_distinct(&["é".to_owned(), "z".to_owned(), "a".to_owned(), "z".to_owned()]),
        vec!["a".to_owned(), "z".to_owned(), "é".to_owned()]
    );
}

#[test]
fn stored_rows_fail_closed_on_invalid_spellings() {
    let project = project_summary_from_row("p".into(), "Name".into(), "…/n".into(), "trusted", 1, Some(5), None).unwrap();
    assert_eq!(project.trust_state, TrustState::Trusted);
    assert!(project.pinned);
    assert!(project.missing);
    assert_eq!(
        project_summary_from_row("p".into(), "n".into(), "d".into(), "trusted", 2, None, None),
        Err(IndexError::InvalidStoredValue(StoredField::Pinned))
    );
    assert_eq!(
        project_summary_from_row("p".into(), "n".into(), "d".into(), "bogus", 0, None, None),
        Err(IndexError::InvalidStoredValue(StoredField::TrustState))
    );

    let session = session_summary_from_row(
        "s".into(), Some("p".into()), "T".into(), "pi-name", None, None,
        Some("first".into()), Some("last".into()), 3, Some(1), "partial", None,
    )
    .unwrap();
    assert_eq!(session.preview.as_deref(), Some("last"));
    assert_eq!(session.title_source, TitleSource::PiName);
    assert_eq!(session.parse_state, ParseState::Partial);
    assert_eq!(session.branch_count, Some(1));
    let session = session_summary_from_row(
        "s".into(), None, "T".into(), "date-id", None, None, Some("first".into()), None, 0, None, "healthy", None,
    )
    .unwrap();
    assert_eq!(session.preview.as_deref(), Some("first"));
    assert_eq!(
        session_summary_from_row("s".into(), None, "T".into(), "nope", None, None, None, None, 0, None, "nope", None),
        Err(IndexError::InvalidStoredValue(StoredField::TitleSource))
    );
    assert_eq!(
        session_summary_from_row("s".into(), None, "T".into(), "ui-alias", None, None, None, None, 0, None, "nope", None),
        Err(IndexError::InvalidStoredValue(StoredField::ParseState))
    );
}

#[test]
fn persisted_rows_list_the_reports_metadata() {
    let bytes = b"{\"type\":\"session\",\"version\":3,\"id\":\"s1\",\"timestamp\":\"2024-01-01T00:00:00Z\",\"cwd\":\"/p\"}\n{\"type\":\"message\",\"id\":\"m1\",\"parentId\":null,\"timestamp\":\"2024-01-01T00:00:01Z\",\"message\":{\"role\":\"user\",\"content\":\"Hello there\"}}\n";
    let report = scan_bytes("a.jsonl", bytes);
    let summary = persisted_session_summary("abcdef123456".into(), Some("p"), &report, true);
    assert_eq!(summary.project_id.as_deref(), Some("p"));
    assert_eq!(summary.branch_count, None);
    assert_eq!(summary.entry_count, report.entry_count);
    assert_eq!(summary.title, "Hello there");
    assert_eq!(summary.title_source, TitleSource::FirstUserMessage);
    let full = persisted_session_summary("abcdef123456".into(), None, &scan_bytes("b.jsonl", b""), false);
    assert_eq!(full.branch_count, Some(0));
    assert_eq!(full.title, "Session abcdef12");
    assert_eq!(full.title_source, TitleSource::DateId);
}

#[test]
fn catalog_rows_with_incomplete_evidence_are_omitted() {
    let row = catalog_fingerprint_from_row("s".into(), "/x.jsonl".into(), "unix:3:4", 10, 20, DIGEST.into(), 1).unwrap();
    assert_eq!(row.session_id, "s");
    assert_eq!(row.fingerprint.identity, PlatformFileIdentity::Unix { device: 3, inode: 4 });
    assert_eq!(row.fingerprint.length, 10);
    assert_eq!(row.fingerprint.modified_stamp, Some(20));
    assert!(catalog_fingerprint_from_row("s".into(), "/x".into(), "win:3:4", 10, 20, DIGEST.into(), 1).is_none());
    assert!(catalog_fingerprint_from_row("s".into(), "/x".into(), "unix:3:4", -1, 20, DIGEST.into(), 1).is_none());
    assert!(catalog_fingerprint_from_row("s".into(), "/x".into(), "unix:3:4", 10, -1, DIGEST.into(), 1).is_none());
    assert!(catalog_fingerprint_from_row("s".into(), "/x".into(), "unix:3:4", 10, 20, DIGEST.into(), 2).is_none());
    assert!(catalog_fingerprint_from_row("s".into(), "/x".into(), "unix:3:4", 10, 20, "zz".into(), 1).is_none());
}

#[test]
fn indexed_session_rows_need_a_stored_identity() {
    assert!(matches!(indexed_session_file(None), Ok(None)));
    assert!(matches!(
        indexed_session_file(Some(("/s".into(), None, "rev".into()))),
        Err(IndexError::SessionIdentityUnavailable)
    ));
    let file = indexed_session_file(Some(("/s".into(), Some("unix:1:2".into()), "rev".into()))).unwrap().unwrap();
    assert_eq!(file.as_path(), "/s");
    assert!(matches!(
        indexed_session_file(Some(("/s".into(), Some("unix:1".into()), "rev".into()))),
        Err(IndexError::SessionIdentityUnavailable)
    ));
}
