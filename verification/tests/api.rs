use piui::api::{
    api_extensions, api_session_summaries, api_tree, completed_fake_transport_state, expected_fake_completion,
    extension_resource_id, fake_scenario_request, fake_start_snapshot, fake_stop_state, fake_stopped_snapshot,
    live_slot_request, live_start_snapshot, retires_project_runtime, fake_scenario_result, fake_scenario_steps, fake_scenario_summary,
    find_extension, last_replayed_fake_state, map_runtime_error, parse_chat_width_preference,
    parse_font_size_preference, prompt_text, rpc_identifier, runtime_snapshot,
    runtime_snapshot_named, runtime_state_is_usable, safe_fake_text, safe_file_revision,
    session_name, thinking_level, update_preference_values, valid_extension_ui_response,
    valid_opaque_surface_id, valid_runtime_id, ApiError, ApiPreferences, ApiProjectSummary,
    ApiTimelineBlock, ApiTimelineStatus, ExtensionOrigin, FakeScenario, FakeStep, ExtensionResource, ExtensionUiResponse,
    ReplayedEvent, RuntimeFailure, MAX_TREE_RENDER_DEPTH, MAX_TREE_RENDER_ROWS,
};
use piui::catalog::{ProjectSummary, SessionSummary, TitleSource, TrustState};
use piui::contracts::{ProjectId, RuntimeEvent, RuntimeId, RuntimeState, RuntimeStateEvent};
use piui::prefs::{
    ChatWidthPreference, DensityPreference, FontSizePreference, Preferences,
    ReducedMotionPreference, ThemePreference,
};
use piui::report::{GenericBlockKind, GenericBlockStatus, GenericTimelineBlock, ParseState, SessionTreeNode};

#[test]
fn v8_appearance_values_are_validated_and_v2_callers_keep_existing_choices() {
    assert_eq!(
        parse_font_size_preference(None, FontSizePreference::Large)
            .expect("v2 caller preserves font size"),
        FontSizePreference::Large
    );
    assert_eq!(
        parse_chat_width_preference(None, ChatWidthPreference::Focused)
            .expect("v2 caller preserves width"),
        ChatWidthPreference::Focused
    );
    assert_eq!(
        parse_font_size_preference(Some("small"), FontSizePreference::Large)
            .expect("accepts known font size"),
        FontSizePreference::Small
    );
    assert_eq!(
        parse_chat_width_preference(Some("centered"), ChatWidthPreference::Wide)
            .expect("accepts known width"),
        ChatWidthPreference::Centered
    );
    assert!(parse_font_size_preference(Some("gigantic"), FontSizePreference::Medium).is_err());
    assert!(parse_chat_width_preference(Some("edge-to-edge"), ChatWidthPreference::Wide).is_err());
}

#[test]
fn personal_catalog_summaries_hide_the_host_workspace_id() {
    let summaries = api_session_summaries(
        vec![SessionSummary {
            id: "session".to_owned(),
            project_id: Some("host-personal-workspace".to_owned()),
            title: "Personal chat".to_owned(),
            title_source: TitleSource::PiName,
            created_at: None,
            updated_at: None,
            preview: None,
            entry_count: 1,
            branch_count: None,
            parse_state: ParseState::Healthy,
            model_ref: None,
        }],
        true,
    );

    assert_eq!(summaries.len(), 1);
    assert!(summaries[0].project_id.is_none());
}

#[test]
fn tree_dto_flattens_a_deep_chain_with_a_hard_depth_budget() {
    let total = MAX_TREE_RENDER_DEPTH + 20;
    let nodes: Vec<_> = (0..total)
        .map(|index| SessionTreeNode {
            entry_id: format!("entry-{index}"),
            parent_id: if index > 0 { Some(format!("entry-{}", index - 1)) } else { None },
            children: if index + 1 < total {
                vec![format!("entry-{}", index + 1)]
            } else {
                Vec::new()
            },
        })
        .collect();
    let tree = api_tree(&nodes, &["entry-0".to_owned()], Some("entry-0"), 0, &[], &[]);

    assert!(tree.nodes.len() <= MAX_TREE_RENDER_ROWS);
    assert!(tree.nodes.iter().all(|node| node.depth <= MAX_TREE_RENDER_DEPTH));
    assert!(tree.diagnostic_count > 0);
}

#[test]
fn live_runtime_control_arguments_are_bounded_and_typed() {
    assert_eq!(
        prompt_text("  preserve trailing newline\n"),
        Some("  preserve trailing newline\n".into())
    );
    assert!(prompt_text(" \t\n").is_none());
    assert!(valid_runtime_id("piui-live-42-7"));
    assert!(!valid_runtime_id("piui_live_42"));
    assert_eq!(rpc_identifier("openai-codex"), Some("openai-codex".into()));
    assert!(rpc_identifier("invalid model").is_none());
    assert_eq!(thinking_level("xhigh"), Some("xhigh".into()));
    assert_eq!(thinking_level("off"), Some("off".into()));
    assert!(thinking_level("not-a-level").is_none());
    assert!(runtime_state_is_usable(RuntimeState::Ready));
    assert!(runtime_state_is_usable(RuntimeState::Running));
    assert!(!runtime_state_is_usable(RuntimeState::Failed));
    assert_eq!(session_name("  My session  "), Some("My session".into()));
    assert!(session_name("bad\u{0000}name").is_none());

    let dialog_id = format!("piui-extension-dialog-{}", "a".repeat(64));
    let option_id = format!("piui-extension-option-{}", "b".repeat(64));
    assert!(valid_opaque_surface_id(&dialog_id, "piui-extension-dialog-"));
    assert!(!valid_opaque_surface_id("piui-extension-dialog-private", "piui-extension-dialog-"));
    assert!(valid_extension_ui_response(&ExtensionUiResponse::Selected { option_id }));
    assert!(!valid_extension_ui_response(&ExtensionUiResponse::Submitted {
        value: "x".repeat(128 * 1024 + 1),
    }));
}

#[test]
fn appearance_preferences_are_serialized_as_a_path_free_v8_projection() {
    let preferences = ApiPreferences::from(Preferences {
        theme: ThemePreference::Dark,
        density: DensityPreference::Compact,
        reduced_motion: ReducedMotionPreference::Reduce,
        font_size: FontSizePreference::Large,
        chat_width: ChatWidthPreference::Centered,
    });

    assert_eq!(preferences.font_size, "large");
    assert_eq!(preferences.chat_width, "centered");
    assert_eq!(preferences.theme, "dark");
    assert_eq!(preferences.density, "compact");
    assert_eq!(preferences.reduced_motion, "reduce");
}

fn stored_preferences() -> Preferences {
    Preferences {
        theme: ThemePreference::System,
        density: DensityPreference::Comfortable,
        reduced_motion: ReducedMotionPreference::System,
        font_size: FontSizePreference::Large,
        chat_width: ChatWidthPreference::Focused,
    }
}

#[test]
fn preference_update_checks_base_values_before_reading_storage() {
    let invalid = update_preference_values("neon", "compact", "reduce", None, None, None)
        .expect_err("unknown theme is invalid");
    assert_eq!(invalid.code, "INVALID_ARGUMENT");
    let unreadable = update_preference_values("dark", "compact", "reduce", None, None, None)
        .expect_err("storage failure surfaces after valid base values");
    assert_eq!(unreadable.code, "IO_ERROR");
    let updated = update_preference_values(
        "dark",
        "compact",
        "reduce",
        None,
        Some("wide"),
        Some(stored_preferences()),
    )
    .expect("valid update");
    assert_eq!(updated.theme, ThemePreference::Dark);
    assert_eq!(updated.font_size, FontSizePreference::Large);
    assert_eq!(updated.chat_width, ChatWidthPreference::Wide);
    let bad_width = update_preference_values(
        "dark",
        "compact",
        "reduce",
        Some("small"),
        Some("edge"),
        Some(stored_preferences()),
    )
    .expect_err("unknown width is invalid");
    assert_eq!(bad_width.code, "INVALID_ARGUMENT");
}

#[test]
fn api_errors_carry_fixed_codes_and_messages() {
    let errors = [
        (ApiError::invalid(), "INVALID_ARGUMENT"),
        (ApiError::not_found(), "NOT_FOUND"),
        (ApiError::not_trusted(), "NOT_TRUSTED"),
        (ApiError::conflict(), "CONFLICT"),
        (ApiError::session_conflict(), "CONFLICT"),
        (ApiError::project_unavailable(), "PROJECT_UNAVAILABLE"),
        (ApiError::safe_mode(), "NOT_SUPPORTED"),
        (ApiError::runtime_busy(), "RUNTIME_FAILED"),
        (ApiError::runtime(), "RUNTIME_FAILED"),
        (ApiError::io(), "IO_ERROR"),
        (ApiError::internal(), "INTERNAL_ERROR"),
    ];
    for (error, code) in errors {
        assert_eq!(error.code, code);
        assert!(error.recoverable);
        assert!(!error.message.contains('/'));
    }
    assert_eq!(map_runtime_error(RuntimeFailure::Timeout).message, ApiError::runtime_timeout().message);
    assert_eq!(map_runtime_error(RuntimeFailure::Channel).message, ApiError::runtime_gone().message);
    assert_eq!(map_runtime_error(RuntimeFailure::InvalidExtensionUiResponse).code, "INVALID_ARGUMENT");
}

#[test]
fn session_summary_redacts_title_and_preview_paths() {
    let summaries = api_session_summaries(
        vec![SessionSummary {
            id: "s".to_owned(),
            project_id: Some("p".to_owned()),
            title: "Edit /home/alice/project/notes.md".to_owned(),
            title_source: TitleSource::FirstUserMessage,
            created_at: Some("2024-01-01T00:00:00Z".to_owned()),
            updated_at: None,
            preview: Some("see /home/alice/private/key.txt".to_owned()),
            entry_count: 3,
            branch_count: Some(2),
            parse_state: ParseState::Partial,
            model_ref: None,
        }],
        false,
    );
    assert_eq!(summaries[0].project_id.as_deref(), Some("p"));
    assert!(!summaries[0].title.contains("/home/alice"));
    assert!(!summaries[0].preview.as_deref().unwrap().contains("/home/alice"));
    assert_eq!(summaries[0].title_source, "first-user-message");
    assert_eq!(summaries[0].parse_state, "partial");
    assert_eq!(summaries[0].branch_count, Some(2));
}

#[test]
fn project_summary_names_trust_and_spells_the_open_time() {
    let summary = ApiProjectSummary::from(ProjectSummary {
        id: "p".to_owned(),
        name: "Project".to_owned(),
        display_path: "~/project".to_owned(),
        trust_state: TrustState::Restricted,
        pinned: true,
        missing: false,
        last_opened_at: Some(-42),
    });
    assert_eq!(summary.trust_state, "restricted");
    assert_eq!(summary.last_opened_at.as_deref(), Some("-42"));
}

fn block(kind: GenericBlockKind, preview: Option<&str>, truncated: bool) -> GenericTimelineBlock {
    GenericTimelineBlock {
        id: "block-1".to_owned(),
        parent_id: None,
        kind,
        source_type: "message".to_owned(),
        created_at: None,
        preview: preview.map(str::to_owned),
        has_image: false,
        title: None,
        tool_name: None,
        collapsible: false,
        truncated,
        fallback: false,
        status: GenericBlockStatus::Running,
    }
}

#[test]
fn timeline_blocks_without_text_get_a_fixed_summary() {
    let omitted = ApiTimelineBlock::from(&block(GenericBlockKind::User, None, true));
    assert_eq!(
        omitted.safe_summary.as_deref(),
        Some("Earlier content was omitted by the bounded session projection.")
    );
    assert_eq!(omitted.status, ApiTimelineStatus::Streaming);
    let tool = ApiTimelineBlock::from(&block(GenericBlockKind::Tool, None, false));
    assert_eq!(tool.kind, "tool");
    assert_eq!(tool.label, "Tool activity");
    assert_eq!(
        tool.safe_summary.as_deref(),
        Some("Tool activity retained in the read-only projection.")
    );
    let user = ApiTimelineBlock::from(&block(GenericBlockKind::User, None, false));
    assert!(user.safe_summary.is_none());
    let texted = ApiTimelineBlock::from(&block(GenericBlockKind::Thinking, Some("hmm"), true));
    assert!(texted.safe_summary.is_none());
    assert_eq!(texted.text.as_deref(), Some("hmm"));
}

fn node(id: &str, parent: Option<&str>, children: &[&str]) -> SessionTreeNode {
    SessionTreeNode {
        entry_id: id.to_owned(),
        parent_id: parent.map(str::to_owned),
        children: children.iter().map(|c| (*c).to_owned()).collect(),
    }
}

#[test]
fn tree_rows_mark_the_current_path_and_issues_in_depth_first_order() {
    let nodes = vec![
        node("a", None, &["b", "c"]),
        node("b", Some("a"), &["d"]),
        node("c", Some("a"), &[]),
        node("d", Some("b"), &["a"]),
    ];
    let tree = api_tree(
        &nodes,
        &["a".to_owned(), "missing".to_owned()],
        Some("d"),
        2,
        &["c".to_owned()],
        &["d".to_owned()],
    );
    let ids: Vec<_> = tree.nodes.iter().map(|n| n.entry_id.as_str()).collect();
    assert_eq!(ids, vec!["a", "b", "d", "c"]);
    let depths: Vec<_> = tree.nodes.iter().map(|n| n.depth).collect();
    assert_eq!(depths, vec![0, 1, 2, 1]);
    let on_path: Vec<_> = tree.nodes.iter().map(|n| n.is_current_path).collect();
    assert_eq!(on_path, vec![true, true, true, false]);
    assert_eq!(tree.nodes[2].issue, Some("cycle"));
    assert_eq!(tree.nodes[3].issue, Some("orphan"));
    assert_eq!(tree.nodes[0].issue, None);
    // The revisit of `a` below `d` and the missing root add two diagnostics.
    assert_eq!(tree.diagnostic_count, 4);
    assert!(!tree.navigation_supported);
}

#[test]
fn revision_tokens_and_fixture_text_are_bounded() {
    assert!(safe_file_revision(&"0123456789abcdef".repeat(4)));
    assert!(!safe_file_revision(&"0123456789ABCDEF".repeat(4)));
    assert!(!safe_file_revision("abc"));
    assert_eq!(safe_fake_text("a\u{0007}b\nc"), "abc");
    assert_eq!(safe_fake_text(&"x".repeat(5000)).chars().count(), 4000);
}

#[test]
fn fixture_state_comes_from_the_last_replayed_lifecycle_event() {
    assert!(last_replayed_fake_state(&[]).is_none());
    assert!(last_replayed_fake_state(&[ReplayedEvent::Other]).is_none());
    assert_eq!(
        completed_fake_transport_state(&[ReplayedEvent::Other], true, RuntimeState::Ready)
            .expect("malformed frame forces failure"),
        RuntimeState::Failed
    );
    let error = completed_fake_transport_state(&[ReplayedEvent::Other], false, RuntimeState::Ready)
        .expect_err("no lifecycle event replayed");
    assert_eq!(error.code, "RUNTIME_FAILED");
}

#[test]
fn runtime_snapshots_advertise_fixed_capabilities() {
    let live = runtime_snapshot_named("piui-live-1", RuntimeState::Ready, 3, None);
    assert_eq!(live.state, "ready");
    assert!(live.capabilities.rpc && live.capabilities.session_tree_read);
    assert!(!live.capabilities.ui_standard_dialogs);
    let fake = runtime_snapshot(RuntimeState::Stopping, 4, Some("done".to_owned()));
    assert_eq!(fake.runtime_id, "fake-runtime");
    assert_eq!(fake.state, "stopping");
    assert!(fake.capabilities.ui_standard_dialogs);
}

#[test]
fn extension_ids_are_opaque_digests_of_the_path() {
    let id = extension_resource_id("/home/alice/.pi/extensions/tool.ts");
    assert_eq!(id.len(), 36);
    assert!(id.starts_with("ext-"));
    assert!(!id.contains("alice"));
    assert_ne!(id, extension_resource_id("/home/alice/.pi/extensions/other.ts"));
    let resources = vec![
        ExtensionResource {
            name: "first".to_owned(),
            path: "/a".to_owned(),
            package_root: None,
            origin: ExtensionOrigin::TopLevel,
            enabled: true,
        },
        ExtensionResource {
            name: "second".to_owned(),
            path: "/b".to_owned(),
            package_root: None,
            origin: ExtensionOrigin::Package,
            enabled: false,
        },
    ];
    let target = extension_resource_id("/b");
    assert_eq!(find_extension(&resources, &target).expect("found"), 1);
    assert_eq!(find_extension(&resources, "ext-short").expect_err("bad shape").code, "INVALID_ARGUMENT");
    let unknown = format!("ext-{}", "0".repeat(32));
    assert_eq!(find_extension(&resources, &unknown).expect_err("unknown").code, "NOT_FOUND");
    let listed = api_extensions(resources);
    assert_eq!(listed.len(), 2);
    assert_eq!(listed[0].id, extension_resource_id("/a"));
    assert_eq!((listed[0].name.as_str(), listed[0].source, listed[0].enabled), ("first", "Global", true));
    assert_eq!(listed[1].id, target);
    assert_eq!((listed[1].name.as_str(), listed[1].source, listed[1].enabled), ("second", "Package", false));
}

fn lifecycle(state: RuntimeState) -> ReplayedEvent {
    ReplayedEvent::Contract(RuntimeEvent::State(RuntimeStateEvent {
        runtime_id: RuntimeId("fake-runtime".to_owned()),
        project_id: ProjectId("p1".to_owned()),
        session_id: None,
        state,
        previous_state: None,
        reason_code: None,
        safe_summary: None,
    }))
}

#[test]
fn fixture_requests_name_a_scenario_and_a_visible_prompt() {
    let (scenario, text) = fake_scenario_request("abort", "hi\u{7}there").expect("valid");
    assert_eq!(scenario, FakeScenario::Abort);
    assert_eq!(text, "hithere");
    assert_eq!(fake_scenario_request("explode", "hi").expect_err("unknown").code, "INVALID_ARGUMENT");
    assert_eq!(fake_scenario_request("stream", "\u{1}\u{2}").expect_err("blank").code, "INVALID_ARGUMENT");
    assert_eq!(fake_scenario_steps(FakeScenario::Stream), vec![FakeStep::Prompt, FakeStep::Stop]);
    assert_eq!(fake_scenario_steps(FakeScenario::Abort), vec![FakeStep::Prompt, FakeStep::Abort, FakeStep::Stop]);
    assert_eq!(fake_scenario_steps(FakeScenario::Crash), vec![FakeStep::Prompt]);
    assert_eq!(fake_scenario_steps(FakeScenario::Malformed), vec![FakeStep::Prompt]);
}

#[test]
fn fixture_runs_overlay_the_prompt_reply_and_notice() {
    let events = vec![
        lifecycle(RuntimeState::Running),
        ReplayedEvent::TextDelta("Hel".to_owned()),
        ReplayedEvent::Other,
        ReplayedEvent::TextDelta("lo\u{0}".to_owned()),
        lifecycle(RuntimeState::Dormant),
    ];
    let result = fake_scenario_result(7, FakeScenario::Abort, "hi".to_owned(), &events, false, 5).expect("clean run");
    assert!(result.ephemeral);
    assert_eq!(result.runtime.state, "dormant");
    assert_eq!(result.runtime.revision, 5);
    assert_eq!(
        result.runtime.safe_summary.as_deref(),
        Some("Deterministic turn was aborted locally. No fake runtime remains active.")
    );
    assert_eq!(result.blocks.len(), 2);
    assert_eq!(result.blocks[0].id, "fake-7-user");
    assert_eq!(result.blocks[0].text.as_deref(), Some("hi"));
    assert_eq!(result.blocks[0].label, "You · fake scenario");
    assert_eq!(result.blocks[1].id, "fake-7-assistant");
    assert_eq!(result.blocks[1].parent_id.as_deref(), Some("fake-7-user"));
    assert_eq!(result.blocks[1].text.as_deref(), Some("Hello"));
    assert_eq!(result.blocks[1].status, ApiTimelineStatus::Interrupted);

    let crash = fake_scenario_result(8, FakeScenario::Crash, "go".to_owned(), &[lifecycle(RuntimeState::Failed)], false, 1)
        .expect("crash ends failed");
    assert_eq!(crash.runtime.state, "failed");
    assert_eq!(crash.blocks.len(), 2);
    assert_eq!(crash.blocks[1].id, "fake-8-runtime-notice");
    assert_eq!(crash.blocks[1].kind, "error");
    assert_eq!(
        crash.blocks[1].safe_summary.as_deref(),
        Some("The deterministic fake runtime simulated a process crash; no Pi process was started.")
    );

    let malformed = fake_scenario_result(9, FakeScenario::Malformed, "go".to_owned(), &[], true, 2)
        .expect("protocol failure is reported, not an error");
    assert_eq!(malformed.runtime.state, "failed");
    assert_eq!(
        malformed.blocks[1].safe_summary.as_deref(),
        Some("The deterministic fake runtime emitted malformed protocol bytes; no raw bytes were retained.")
    );

    let stale = fake_scenario_result(10, FakeScenario::Stream, "go".to_owned(), &[lifecycle(RuntimeState::Running)], false, 3)
        .expect_err("never reached dormant");
    assert_eq!(stale.code, "RUNTIME_FAILED");
    assert_eq!(expected_fake_completion(FakeScenario::Stream), RuntimeState::Dormant);
    assert_eq!(fake_scenario_summary(FakeScenario::Malformed), "Deterministic malformed-frame scenario completed locally.");
}

#[test]
fn fixture_start_and_stop_report_only_replayed_states() {
    let ready = fake_start_snapshot(&[lifecycle(RuntimeState::Starting), lifecycle(RuntimeState::Ready)], 2)
        .expect("ready");
    assert_eq!(ready.state, "ready");
    assert_eq!(ready.revision, 2);
    assert_eq!(
        ready.safe_summary.as_deref(),
        Some("Deterministic fake runtime is ready; no Pi process was started.")
    );
    assert_eq!(fake_start_snapshot(&[lifecycle(RuntimeState::Starting)], 2).expect_err("not ready").code, "RUNTIME_FAILED");

    let stopped = [lifecycle(RuntimeState::Stopping), lifecycle(RuntimeState::Dormant)];
    assert_eq!(fake_stop_state(&stopped, true).expect("stopped"), RuntimeState::Dormant);
    assert!(fake_stop_state(&stopped, false).is_err());
    assert!(fake_stop_state(&[lifecycle(RuntimeState::Stopping)], true).is_err());
    let clean = fake_stopped_snapshot(RuntimeState::Dormant, 6, false);
    assert_eq!(clean.state, "dormant");
    assert_eq!(
        clean.safe_summary.as_deref(),
        Some("Fake runtime stopped. Real Pi descendant containment is not exercised here.")
    );
    assert_eq!(
        fake_stopped_snapshot(RuntimeState::Dormant, 6, true).safe_summary.as_deref(),
        Some("Fake runtime stopped after session admission invalidation; PiUI did not merge session JSONL.")
    );
}

#[test]
fn live_runtime_slots_expose_only_usable_states_to_their_owner() {
    let started = live_start_snapshot("piui-live-3", RuntimeState::Ready, 1, "system pi").expect("usable");
    assert_eq!(started.runtime_id, "piui-live-3");
    assert_eq!(started.safe_summary.as_deref(), Some("Pi runtime ready (system pi)."));
    assert!(!started.capabilities.ui_standard_dialogs);
    let failed = live_start_snapshot("piui-live-3", RuntimeState::Failed, 1, "system pi").expect_err("failed");
    assert_eq!(failed.message, "Pi reported an unexpected protocol error.");

    assert!(live_slot_request(Some("piui-live-3"), "piui-live-3").is_ok());
    assert_eq!(live_slot_request(Some("piui-live-3"), "piui-live-4").expect_err("other").code, "RUNTIME_FAILED");
    assert_eq!(live_slot_request(None, "piui-live-3").expect_err("empty").code, "RUNTIME_FAILED");
    assert_eq!(live_slot_request(Some("x"), "bad id!").expect_err("shape").code, "INVALID_ARGUMENT");

    for code in ["CONFLICT", "PROJECT_UNAVAILABLE", "NOT_TRUSTED"] {
        assert!(retires_project_runtime(&ApiError { code, message: "m", recoverable: true }), "{code}");
    }
    assert!(!retires_project_runtime(&ApiError::invalid()));
}
