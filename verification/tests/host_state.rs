use piui::host_state::{
    session_roots_from, CatalogFreshness, CatalogRefreshStore, TimelineCursorRecord,
    TimelineCursorStore, FULL_CATALOG_INTEGRITY_INTERVAL, MAX_TIMELINE_CURSORS,
};

#[test]
fn catalog_refresh_status_coalesces_and_monotonically_advances() {
    let mut store = CatalogRefreshStore::default();
    assert_eq!(store.status("project").freshness, CatalogFreshness::Cached);
    let started = store.begin("project").expect("starts first refresh");
    assert_eq!(started.status.freshness, CatalogFreshness::Refreshing);
    assert!(!started.full_integrity);
    assert!(store.begin("project").is_none());
    let complete = store.complete("project", started.full_integrity);
    assert_eq!(complete.freshness, CatalogFreshness::Current);
    assert!(complete.sequence > started.status.sequence);
    let failed = store.fail("project");
    assert_eq!(failed.freshness, CatalogFreshness::Degraded);
    assert!(failed.sequence > complete.sequence);
}

#[test]
fn incomplete_catalog_passes_do_not_count_toward_integrity_interval() {
    let mut store = CatalogRefreshStore::default();
    for _ in 0..=FULL_CATALOG_INTEGRITY_INTERVAL {
        let started = store.begin("project").expect("starts refresh");
        assert!(!started.full_integrity);
        store.fail("project");
    }
}

#[test]
fn periodic_catalog_integrity_scan_is_forced_after_incremental_refreshes() {
    let mut store = CatalogRefreshStore::default();
    for _ in 0..FULL_CATALOG_INTEGRITY_INTERVAL {
        let started = store.begin("project").expect("starts refresh");
        assert!(!started.full_integrity);
        store.complete("project", false);
    }
    let integrity = store.begin("project").expect("starts integrity refresh");
    assert!(integrity.full_integrity);
    store.complete("project", true);
    assert!(!store.begin("project").expect("resets counter").full_integrity);
}

#[test]
fn explicit_pi_session_directory_takes_precedence_over_agent_directory() {
    let session_dir = String::from("C:/pi/custom-sessions");
    let roots = session_roots_from(
        Some(session_dir.clone()),
        Some(String::from("C:/pi/agent")),
        Some(String::from("C:/fixture/home")),
    );

    assert_eq!(roots, vec![session_dir]);
}

#[test]
fn default_session_directory_uses_the_pi_agent_sessions_tree() {
    let roots = session_roots_from(
        None,
        Some(String::from("C:/pi/agent")),
        Some(String::from("C:/fixture/home")),
    );

    assert_eq!(roots, vec![String::from("C:/pi/agent/sessions")]);
}

#[test]
fn home_directory_is_the_fallback_for_session_roots() {
    let roots = session_roots_from(None, None, Some(String::from("/home/user/")));
    assert_eq!(roots, vec![String::from("/home/user/.pi/agent/sessions")]);
    assert!(session_roots_from(None, None, None).is_empty());
}

#[test]
fn refresh_of_one_project_leaves_others_cached() {
    let mut store = CatalogRefreshStore::default();
    store.begin("a").expect("starts a");
    assert_eq!(store.status("b").freshness, CatalogFreshness::Cached);
    assert_eq!(store.status("b").sequence, 0);
    assert!(store.begin("b").is_some());
}

#[test]
fn timeline_cursors_remember_records_within_the_bound() {
    let mut store = TimelineCursorStore::default();
    let first = store.insert(TimelineCursorRecord {
        project_id: "p".into(),
        session_id: "s".into(),
        file_revision: "r".into(),
        older_before: 7,
    });
    assert_eq!(store.get(&first).map(|record| record.older_before), Some(7));
    for index in 0..MAX_TIMELINE_CURSORS {
        store.insert(TimelineCursorRecord {
            project_id: "p".into(),
            session_id: "s".into(),
            file_revision: "r".into(),
            older_before: index,
        });
    }
    assert!(store.get(&first).is_none());
    assert!(store.get("unknown-token").is_none());
}

fn cursor(older_before: usize) -> TimelineCursorRecord {
    TimelineCursorRecord {
        project_id: "p".into(),
        session_id: "s".into(),
        file_revision: "r".into(),
        older_before,
    }
}

#[test]
fn a_full_cursor_store_forgets_exactly_its_oldest_cursor() {
    let mut store = TimelineCursorStore::new();
    let tokens: Vec<String> = (0..MAX_TIMELINE_CURSORS).map(|index| store.insert(cursor(index))).collect();
    for (index, token) in tokens.iter().enumerate() {
        assert_eq!(store.get(token).map(|record| record.older_before), Some(index));
    }
    let newest = store.insert(cursor(9999));
    assert!(store.get(&tokens[0]).is_none());
    for (index, token) in tokens.iter().enumerate().skip(1) {
        assert_eq!(store.get(token).map(|record| record.older_before), Some(index), "{index}");
    }
    assert_eq!(store.get(&newest).map(|record| record.older_before), Some(9999));
}

#[test]
fn a_cursor_survives_one_less_than_the_bound_of_later_insertions() {
    let mut store = TimelineCursorStore::new();
    let kept = store.insert(cursor(1));
    for index in 0..(MAX_TIMELINE_CURSORS - 1) {
        store.insert(cursor(index));
    }
    assert_eq!(store.get(&kept).map(|record| record.older_before), Some(1));
    store.insert(cursor(5));
    assert!(store.get(&kept).is_none());
}
