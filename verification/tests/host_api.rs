use piui::api::{
    catalog_snapshot, fake_run_gate, fake_run_request, finish_refresh, parse_trust_request, FakeScenario,
    RefreshOutcome, refresh_failed_event, refresh_snapshot_event,
    refresh_started_event, valid_project_path, ApiSessionCatalogEvent, SESSION_CATALOG_PROTOCOL,
    MAX_PROJECT_PATH_BYTES,
};
use piui::catalog::{SessionSummary, TitleSource, TrustState};
use piui::extensions::{entrypoint_status, EntrypointStatus};
use piui::host_state::{CatalogFreshness, CatalogRefreshStatus, CatalogRefreshStore};
use piui::redact::{
    project_path_variants, redact_display_paths, redact_display_text, replace_known_path_prefix,
};
use piui::report::ParseState;

fn summary(id: &str, project: &str) -> SessionSummary {
    SessionSummary {
        id: id.to_owned(),
        project_id: Some(project.to_owned()),
        title: "Chat".to_owned(),
        title_source: TitleSource::FirstUserMessage,
        created_at: None,
        updated_at: None,
        preview: None,
        entry_count: 2,
        branch_count: None,
        parse_state: ParseState::Healthy,
        model_ref: None,
    }
}

#[test]
fn project_paths_must_be_non_blank_and_bounded() {
    assert!(valid_project_path("/home/user/project"));
    assert!(!valid_project_path(""));
    assert!(!valid_project_path(" \t\n"));
    let at_limit = "a".repeat(MAX_PROJECT_PATH_BYTES);
    assert!(valid_project_path(&at_limit));
    let over_limit = "a".repeat(MAX_PROJECT_PATH_BYTES + 1);
    assert!(!valid_project_path(&over_limit));
}

#[test]
fn trust_requests_accept_only_stored_spellings() {
    assert_eq!(parse_trust_request("trusted").ok(), Some(TrustState::Trusted));
    assert_eq!(parse_trust_request("restricted").ok(), Some(TrustState::Restricted));
    assert_eq!(parse_trust_request("unknown").ok(), Some(TrustState::Unknown));
    for bad in ["Trusted", "", " trusted", "yes"] {
        let error = parse_trust_request(bad).err().expect("refused");
        assert_eq!(error.code, "INVALID_ARGUMENT", "{bad}");
    }
}

#[test]
fn catalog_snapshots_name_their_scope_and_hide_personal_ids() {
    let status = CatalogRefreshStatus { freshness: CatalogFreshness::Current, sequence: 9 };
    let project = catalog_snapshot("p1", false, status, vec![summary("s1", "p1")]);
    assert_eq!(project.protocol, SESSION_CATALOG_PROTOCOL);
    assert_eq!(project.scope, "project");
    assert_eq!(project.project_id.as_deref(), Some("p1"));
    assert_eq!(project.sequence, 9);
    assert_eq!(project.freshness, "current");
    assert_eq!(project.sessions.len(), 1);
    assert_eq!(project.sessions[0].project_id.as_deref(), Some("p1"));

    let degraded = CatalogRefreshStatus { freshness: CatalogFreshness::Degraded, sequence: 3 };
    let personal = catalog_snapshot("host", true, degraded, vec![summary("s2", "host")]);
    assert_eq!(personal.scope, "personal");
    assert!(personal.project_id.is_none());
    assert_eq!(personal.freshness, "degraded");
    assert!(personal.sessions[0].project_id.is_none());

    match refresh_snapshot_event(personal) {
        ApiSessionCatalogEvent::Snapshot { protocol, snapshot } => {
            assert_eq!(protocol, SESSION_CATALOG_PROTOCOL);
            assert_eq!(snapshot.sequence, 3);
        }
        other => panic!("unexpected event {other:?}"),
    }
}

#[test]
fn refresh_events_carry_scope_sequence_and_a_fixed_summary() {
    match refresh_started_event("p1", false, 4) {
        ApiSessionCatalogEvent::RefreshStarted { protocol, scope, project_id, sequence } => {
            assert_eq!(protocol, SESSION_CATALOG_PROTOCOL);
            assert_eq!(scope, "project");
            assert_eq!(project_id.as_deref(), Some("p1"));
            assert_eq!(sequence, 4);
        }
        other => panic!("unexpected event {other:?}"),
    }
    match refresh_failed_event("host", true, true, 5) {
        ApiSessionCatalogEvent::RefreshFailed { scope, project_id, sequence, safe_summary, .. } => {
            assert_eq!(scope, "personal");
            assert!(project_id.is_none());
            assert_eq!(sequence, 5);
            assert_eq!(
                safe_summary,
                "Some local sessions could not be verified. Showing the last indexed catalog."
            );
        }
        other => panic!("unexpected event {other:?}"),
    }
    match refresh_failed_event("p2", false, false, 6) {
        ApiSessionCatalogEvent::RefreshFailed { project_id, safe_summary, .. } => {
            assert_eq!(project_id.as_deref(), Some("p2"));
            assert_eq!(
                safe_summary,
                "Local sessions could not be refreshed. Showing the last indexed catalog."
            );
        }
        other => panic!("unexpected event {other:?}"),
    }
}

#[test]
fn entrypoints_resolve_only_to_regular_files_inside_the_package() {
    let root = "/opt/packages/demo";
    assert_eq!(entrypoint_status(None, root, true), EntrypointStatus::Missing);
    assert_eq!(
        entrypoint_status(Some("/opt/packages/demo/dist/index.js"), root, true),
        EntrypointStatus::Regular
    );
    assert_eq!(
        entrypoint_status(Some("/opt/packages/demo/dist"), root, false),
        EntrypointStatus::Missing
    );
    assert_eq!(
        entrypoint_status(Some("/opt/packages/demo-evil/index.js"), root, true),
        EntrypointStatus::EscapesPackage
    );
    assert_eq!(entrypoint_status(Some("/etc/passwd"), root, true), EntrypointStatus::EscapesPackage);
    assert_eq!(entrypoint_status(Some("relative/index.js"), root, true), EntrypointStatus::EscapesPackage);
}

#[test]
fn project_roots_are_redacted_in_every_spelling() {
    assert_eq!(
        project_path_variants("C:\\work\\repo\\"),
        vec!["C:\\work\\repo".to_owned(), "C:/work/repo".to_owned()]
    );
    assert_eq!(project_path_variants("/home/u/proj/"), vec!["/home/u/proj".to_owned(), "\\home\\u\\proj".to_owned()]);
    assert!(project_path_variants("///").is_empty());

    assert_eq!(replace_known_path_prefix("at /r/x and /r2", "/r"), "at <workspace>/x and /r2");
    assert_eq!(replace_known_path_prefix("unchanged", ""), "unchanged");

    assert_eq!(
        redact_display_paths("see /home/u/proj/src/a.rs and /etc/passwd.", Some("/home/u/proj/")),
        "see <workspace>/src/a.rs and <external-path>/passwd"
    );
    assert_eq!(
        redact_display_paths("open /home/u/project2/notes", Some("/home/u/proj")),
        "open <external-path>/notes"
    );
    assert_eq!(
        redact_display_paths("C:/work/repo/main.rs failed", Some("C:\\work\\repo")),
        "<workspace>/main.rs failed"
    );
    assert_eq!(redact_display_paths("no paths here", None), "no paths here");
}

#[test]
fn redacted_text_holds_no_path_and_redacts_to_itself() {
    let cases = [
        ("cp /a/b /c/d", "cp <external-path>/b <external-path>/d"),
        ("//srv/share/report.pdf", "/<external-path>/report.pdf"),
        (r"\\server\share\doc.txt done", "<external-path>/doc.txt done"),
        ("see /tmp/ now", "see <external-path>/path now"),
        ("look at D:/work/notes.md!", "look at <external-path>/notes.md"),
    ];
    for (input, expected) in cases {
        let once = redact_display_text(input);
        assert_eq!(once, expected, "{input}");
        assert_eq!(redact_display_text(&once), once, "{input}");
    }
}

#[test]
fn finished_refreshes_move_the_store_and_name_their_event() {
    let mut store = CatalogRefreshStore::new();
    let start = store.begin("p1").expect("started");
    let (current, event) = finish_refresh(&mut store, "p1", false, start.full_integrity, RefreshOutcome::Complete);
    assert_eq!(current.freshness, CatalogFreshness::Current);
    assert_eq!(current.sequence, start.status.sequence + 1);
    assert!(event.is_none());
    assert_eq!(store.status("p1"), current);

    store.begin("p1").expect("started again");
    let (degraded, event) = finish_refresh(&mut store, "p1", false, false, RefreshOutcome::Incomplete);
    assert_eq!(degraded.freshness, CatalogFreshness::Degraded);
    match event {
        Some(ApiSessionCatalogEvent::RefreshFailed { sequence, safe_summary, project_id, scope, .. }) => {
            assert_eq!(sequence, degraded.sequence);
            assert_eq!(scope, "project");
            assert_eq!(project_id.as_deref(), Some("p1"));
            assert_eq!(safe_summary, "Some local sessions could not be verified. Showing the last indexed catalog.");
        }
        other => panic!("unexpected event {other:?}"),
    }

    store.begin("host").expect("personal started");
    let (failed, event) = finish_refresh(&mut store, "host", true, false, RefreshOutcome::Failed);
    match event {
        Some(ApiSessionCatalogEvent::RefreshFailed { sequence, safe_summary, project_id, scope, .. }) => {
            assert_eq!(sequence, failed.sequence);
            assert_eq!(scope, "personal");
            assert!(project_id.is_none());
            assert_eq!(safe_summary, "Local sessions could not be refreshed. Showing the last indexed catalog.");
        }
        other => panic!("unexpected event {other:?}"),
    }
}

#[test]
fn fixture_runs_check_safe_mode_then_project_then_slot() {
    assert_eq!(fake_run_gate(true, true).expect_err("safe mode").code, "NOT_SUPPORTED");
    assert_eq!(fake_run_gate(false, true).expect_err("personal").code, "INVALID_ARGUMENT");
    assert!(fake_run_gate(false, false).is_ok());
    let busy = fake_run_request(true, "nonsense", "").expect_err("busy");
    assert_eq!(busy.message, "A foundation runtime is already active.");
    assert_eq!(fake_run_request(false, "nonsense", "hi").expect_err("unknown").code, "INVALID_ARGUMENT");
    let (scenario, text) = fake_run_request(false, "crash", "go").expect("valid");
    assert_eq!(scenario, FakeScenario::Crash);
    assert_eq!(text, "go");
}
