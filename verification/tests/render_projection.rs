use piui::contracts::{SessionId, TimelineBlockKind};
use piui::display::{DISPLAY_MESSAGE_LIMIT, DISPLAY_TOTAL_LIMIT};
use piui::prefs::{
    decode_preferences, ChatWidthPreference, DensityPreference, FontSizePreference, Preferences,
    ReducedMotionPreference, ThemePreference,
};
use piui::report_ops::TIMELINE_SLICE_MAX_LIMIT;
use piui::redact::redact_display_text;
use piui::report::{GenericBlockKind, GenericBlockStatus, ParseState};
use piui::scan::{lf_frames, PREVIEW_LIMIT};
use piui::scanner::{scan_bytes, scan_bytes_for_display, scan_bytes_for_display_with_root};
use piui::tree::{TREE_MAX_DEPTH, TREE_MAX_NODES, TREE_MAX_OUTPUT_NODES};

fn json_string(value: &str) -> String {
    let mut out = String::from("\"");
    for c in value.chars() {
        match c {
            '"' => out.push_str("\\\""),
            '\\' => out.push_str("\\\\"),
            '\n' => out.push_str("\\n"),
            '\t' => out.push_str("\\t"),
            c if (c as u32) < 0x20 => out.push_str(&format!("\\u{:04x}", c as u32)),
            c => out.push(c),
        }
    }
    out.push('"');
    out
}

#[test]
fn display_text_redacts_windows_and_unicode_absolute_paths() {
    assert_eq!(
        redact_display_text(r"D:\\Users\\example\\Private\\result.txt"),
        "<external-path>/result.txt"
    );
    assert_eq!(
        redact_display_text("/home/Тест/Секреты/result.txt"),
        "<external-path>/result.txt"
    );
}

#[test]
fn render_projection_correlates_v3_tools_and_keeps_display_detail_separate_from_preview() {
    let markdown = format!("# Detailed markdown\n{}", "x".repeat(PREVIEW_LIMIT + 80));
    let input = format!(
        "{{\"type\":\"message\",\"message\":{{\"role\":\"assistant\",\"content\":[{{\"type\":\"toolCall\",\"id\":\"private-call-id\",\"name\":\"bash\",\"arguments\":\"pwd\"}}]}}}}\n{{\"type\":\"message\",\"message\":{{\"role\":\"toolResult\",\"toolCallId\":\"private-call-id\",\"content\":\"/safe/output\"}}}}\n{{\"type\":\"message\",\"message\":{{\"role\":\"user\",\"content\":{}}}}}\n",
        json_string(&markdown)
    );
    let indexed = scan_bytes("session.jsonl", input.as_bytes());
    assert_eq!(
        indexed.entries[2].preview.as_ref().map(String::len),
        Some(PREVIEW_LIMIT)
    );

    let rendered = scan_bytes_for_display("session.jsonl", input.as_bytes());
    assert_eq!(rendered.timeline_blocks.len(), 2);
    let tool = &rendered.timeline_blocks[0];
    assert_eq!(tool.kind, GenericBlockKind::Tool);
    assert_eq!(tool.tool_name.as_deref(), Some("bash"));
    assert_eq!(tool.status, GenericBlockStatus::Complete);
    assert_eq!(tool.preview.as_deref(), Some("<external-path>/output"));
    assert!(!tool.fallback);
    assert!(!format!("{:?}", tool).contains("private-call-id"));
    let user = &rendered.timeline_blocks[1];
    assert_eq!(user.kind, GenericBlockKind::User);
    assert!(user
        .preview
        .as_ref()
        .is_some_and(|text| text.len() > PREVIEW_LIMIT));
}

#[test]
fn render_projection_redacts_known_project_and_external_paths() {
    let content = "Read /workspace/PiUI/src/main.rs and /private/cache/result.txt";
    let input = format!(
        "{{\"type\":\"message\",\"message\":{{\"role\":\"assistant\",\"content\":{}}}}}\n",
        json_string(content)
    );
    let blocks =
        scan_bytes_for_display_with_root("session.jsonl", input.as_bytes(), Some("/workspace/PiUI"))
            .timeline_blocks;
    assert_eq!(
        blocks[0].preview.as_deref(),
        Some("Read <workspace>/src/main.rs and <external-path>/result.txt")
    );
    let serialized = format!("{:?}", blocks);
    assert!(!serialized.contains("/workspace/PiUI"));
    assert!(!serialized.contains("/private/cache"));
}

#[test]
fn render_projection_preserves_assistant_content_order() {
    let input = "{\"type\":\"message\",\"message\":{\"role\":\"assistant\",\"content\":[{\"type\":\"text\",\"text\":\"before\"},{\"type\":\"thinking\",\"thinking\":\"reason\"},{\"type\":\"toolCall\",\"id\":\"call\",\"name\":\"read\",\"arguments\":{\"path\":\"private/path\"}},{\"type\":\"text\",\"text\":\"after\"}]}}\n";
    let blocks = scan_bytes_for_display("session.jsonl", input.as_bytes()).timeline_blocks;
    assert_eq!(
        blocks.iter().map(|block| block.kind).collect::<Vec<_>>(),
        vec![
            GenericBlockKind::Assistant,
            GenericBlockKind::Thinking,
            GenericBlockKind::Tool,
            GenericBlockKind::Assistant,
        ]
    );
    assert_eq!(blocks[0].preview.as_deref(), Some("before"));
    assert_eq!(blocks[3].preview.as_deref(), Some("after"));
    assert_eq!(blocks[2].title.as_deref(), Some("Read file"));
    assert!(!format!("{:?}", blocks).contains("private/path"));
}

#[test]
fn render_projection_does_not_treat_a_real_ellipsis_as_truncation() {
    let input = "{\"type\":\"message\",\"message\":{\"role\":\"toolResult\",\"toolName\":\"bash\",\"content\":\"waiting…\"}}\n";
    let blocks = scan_bytes_for_display("session.jsonl", input.as_bytes()).timeline_blocks;
    assert_eq!(blocks[0].preview.as_deref(), Some("waiting…"));
    assert!(!blocks[0].truncated);
}

#[test]
fn render_projection_caps_multibyte_content_in_bytes() {
    let content = "🦀".repeat(DISPLAY_MESSAGE_LIMIT);
    let input = format!(
        "{{\"type\":\"message\",\"message\":{{\"role\":\"user\",\"content\":{}}}}}\n",
        json_string(&content)
    );
    let blocks = scan_bytes_for_display("session.jsonl", input.as_bytes()).timeline_blocks;
    let block = &blocks[0];
    assert!(block
        .preview
        .as_ref()
        .is_some_and(|text| text.len() <= DISPLAY_MESSAGE_LIMIT));
    assert!(block.truncated);
}

#[test]
fn render_projection_marks_aborted_tool_calls_interrupted() {
    let input = "{\"type\":\"message\",\"message\":{\"role\":\"assistant\",\"stopReason\":\"aborted\",\"content\":[{\"type\":\"toolCall\",\"id\":\"call\",\"name\":\"bash\",\"arguments\":{}}]}}\n";
    let blocks = scan_bytes_for_display("session.jsonl", input.as_bytes()).timeline_blocks;
    assert_eq!(blocks.len(), 1);
    assert_eq!(blocks[0].status, GenericBlockStatus::Interrupted);
}

#[test]
fn render_projection_preserves_bounded_assistant_failure_text() {
    let input = "{\"type\":\"message\",\"message\":{\"role\":\"assistant\",\"content\":[],\"stopReason\":\"error\",\"errorMessage\":\"Provider request failed\"}}\n";
    let blocks = scan_bytes_for_display("session.jsonl", input.as_bytes()).timeline_blocks;
    assert_eq!(blocks.len(), 1);
    assert_eq!(blocks[0].kind, GenericBlockKind::Assistant);
    assert_eq!(blocks[0].status, GenericBlockStatus::Failed);
    assert_eq!(
        blocks[0].preview.as_deref(),
        Some("Provider request failed")
    );
}

#[test]
fn render_projection_allowlists_unknown_tool_names() {
    let input = r#"{"type":"message","message":{"role":"assistant","content":[{"type":"toolCall","id":"call","name":"D:\\private\\tool","arguments":{}}]}}
"#;
    let blocks = scan_bytes_for_display("session.jsonl", input.as_bytes()).timeline_blocks;
    assert_eq!(blocks[0].title.as_deref(), Some("Tool activity"));
    assert_eq!(blocks[0].tool_name.as_deref(), Some("Tool activity"));
    assert!(!format!("{:?}", blocks).contains("private"));
}

#[test]
fn render_projection_never_copies_raw_tool_arguments_into_content() {
    let input = "{\"type\":\"message\",\"message\":{\"role\":\"assistant\",\"content\":[{\"type\":\"toolCall\",\"id\":\"call\",\"name\":\"write\",\"arguments\":{\"path\":\"src/file.rs\",\"content\":\"private argument body\"}}]}}\n";
    let blocks = scan_bytes_for_display("session.jsonl", input.as_bytes()).timeline_blocks;
    assert_eq!(blocks.len(), 1);
    assert_eq!(blocks[0].kind, GenericBlockKind::Tool);
    assert_eq!(blocks[0].title.as_deref(), Some("Write file"));
    assert!(blocks[0].preview.is_none());
    assert!(!format!("{:?}", blocks).contains("private argument body"));
}

#[test]
fn render_projection_suppresses_hidden_custom_state_and_projects_bash_and_compaction() {
    let input = [
        "{\"type\":\"custom\",\"content\":\"state\"}\n",
        "{\"type\":\"custom_message\",\"display\":false,\"content\":\"hidden\"}\n",
        "{\"type\":\"custom_message\",\"content\":\"shown\"}\n",
        "{\"type\":\"bashExecution\",\"command\":\"git status\\nignored\",\"output\":\"clean\",\"cancelled\":true,\"truncated\":true}\n",
        "{\"type\":\"message\",\"message\":{\"role\":\"bashExecution\",\"content\":{\"command\":\"pwd\",\"output\":\"repo\"}}}\n",
        "{\"type\":\"compaction\",\"summary\":\"Earlier context summarized\"}\n"
    ]
    .concat();
    let blocks = scan_bytes_for_display("session.jsonl", input.as_bytes()).timeline_blocks;
    assert_eq!(blocks.len(), 4);
    assert_eq!(blocks[0].kind, GenericBlockKind::Custom);
    assert_eq!(blocks[0].preview.as_deref(), Some("shown"));
    assert_eq!(blocks[1].kind, GenericBlockKind::Tool);
    assert_eq!(blocks[1].title.as_deref(), Some("bash"));
    assert_eq!(blocks[1].preview.as_deref(), Some("clean…"));
    assert_eq!(blocks[1].status, GenericBlockStatus::Interrupted);
    assert!(blocks[1].truncated);
    assert_eq!(blocks[2].kind, GenericBlockKind::Tool);
    assert_eq!(blocks[2].title.as_deref(), Some("bash"));
    assert_eq!(blocks[2].preview.as_deref(), Some("repo"));
    assert_eq!(blocks[3].kind, GenericBlockKind::Compaction);
    assert_eq!(
        blocks[3].preview.as_deref(),
        Some("Earlier context summarized")
    );
}

#[test]
fn render_projection_trims_oldest_display_before_newest_content() {
    let message = "x".repeat(DISPLAY_MESSAGE_LIMIT);
    let mut input = String::new();
    for index in 0..70 {
        input.push_str(&format!(
            "{{\"type\":\"message\",\"message\":{{\"role\":\"assistant\",\"content\":\"{index}:{message}\"}}}}\n"
        ));
    }
    let blocks = scan_bytes_for_display("session.jsonl", input.as_bytes()).timeline_blocks;
    let total: usize = blocks
        .iter()
        .filter_map(|block| block.preview.as_ref())
        .map(String::len)
        .sum();
    assert!(total <= DISPLAY_TOTAL_LIMIT);
    assert!(blocks.first().is_some_and(|block| block.preview.is_none()));
    assert!(blocks.last().is_some_and(|block| {
        block
            .preview
            .as_deref()
            .is_some_and(|text| text.starts_with("69:"))
    }));
}

#[test]
fn lf_only_unicode_separator_and_partial_tail_are_safe() {
    let source = b"{\"type\":\"session\",\"id\":\"s\"}\n{\"type\":\"message\",\"id\":\"complete\",\"message\":{\"role\":\"user\",\"content\":\"a\xe2\x80\xa8b\"}}\n{\"type\":\"message\",\"id\":\"tail\"}";
    let report = scan_bytes("synthetic.jsonl", source);
    assert_eq!(report.parse_state, ParseState::Partial);
    assert_eq!(report.entry_count, 1);
    assert_eq!(report.entries[0].preview.as_deref(), Some("a b"));
    assert_eq!(report.partial_tail_bytes, 30);
    let (frames, complete) = lf_frames("a\u{2028}b\nc".as_bytes());
    assert_eq!(frames.len(), 1);
    assert_eq!(complete, "a\u{2028}b\n".len());
}

#[test]
fn header_cwd_is_exact_host_only_and_bounded() {
    let exact_cwd = "  /private/project with spaces\t  ";
    let mut bytes = format!(
        "{{\"type\":\"session\",\"id\":\"s\",\"cwd\":{}}}",
        json_string(exact_cwd)
    )
    .into_bytes();
    bytes.push(b'\n');
    let report = scan_bytes("cwd.jsonl", &bytes);
    assert_eq!(report.project_cwd.as_deref(), Some(exact_cwd));

    let oversized = "x".repeat(32 * 1024 + 1);
    let mut bytes = format!("{{\"type\":\"session\",\"cwd\":{}}}", json_string(&oversized)).into_bytes();
    bytes.push(b'\n');
    let report = scan_bytes("oversized-cwd.jsonl", &bytes);
    assert!(report.project_cwd.is_none());
    assert!(report
        .diagnostics
        .iter()
        .any(|diagnostic| diagnostic.code == "header-cwd-too-long"));
}

#[test]
fn tree_projection_has_linear_bounded_chain_and_output_fallbacks() {
    let mut input = String::from("{\"type\":\"session\",\"id\":\"s\"}\n");
    for index in 0..(TREE_MAX_DEPTH + 2) {
        let parent = index
            .checked_sub(1)
            .map(|parent| format!(",\"parentId\":\"n{parent}\""));
        input.push_str(&format!(
            "{{\"type\":\"message\",\"id\":\"n{index}\"{} }}\n",
            parent.unwrap_or_default()
        ));
    }
    let report = scan_bytes("deep.jsonl", input.as_bytes());
    assert!(report.tree.len() <= TREE_MAX_OUTPUT_NODES);
    assert!(report
        .diagnostics
        .iter()
        .any(|diagnostic| diagnostic.code == "tree-depth-limit"));

    let mut wide = String::from("{\"type\":\"session\",\"id\":\"s\"}\n");
    for index in 0..(TREE_MAX_NODES + 1) {
        wide.push_str(&format!("{{\"type\":\"message\",\"id\":\"w{index}\"}}\n"));
    }
    let report = scan_bytes("wide.jsonl", wide.as_bytes());
    assert_eq!(report.tree.len(), TREE_MAX_OUTPUT_NODES);
    assert!(report
        .diagnostics
        .iter()
        .any(|diagnostic| diagnostic.code == "tree-node-limit"));
    assert!(report
        .diagnostics
        .iter()
        .any(|diagnostic| diagnostic.code == "tree-output-limit"));
}

#[test]
fn unknown_payload_never_enters_projection() {
    let input = [
        "{\"type\":\"future_header\",\"prompt\":\"TOP SECRET\",\"opaque\":true}\n",
        "{\"type\":\"future_entry\",\"id\":\"next\",\"content\":\"DO NOT LEAK\"}\n"
    ]
    .concat();
    let report = scan_bytes("future.jsonl", input.as_bytes());
    let encoded = format!("{:?}", report);
    assert_eq!(report.parse_state, ParseState::Unsupported);
    assert_eq!(report.unknown_entries.len(), 2);
    assert!(report.entries.iter().all(|entry| entry.preview.is_none()));
    assert!(report
        .timeline_blocks
        .iter()
        .all(|block| block.kind == GenericBlockKind::Unknown));
    assert!(!encoded.contains("TOP SECRET"));
    assert!(!encoded.contains("DO NOT LEAK"));
    assert!(!encoded.contains("opaque"));
}

#[test]
fn corrupt_duplicate_orphan_and_cycle_only_change_projection() {
    let input = [
        "{\"type\":\"session\",\"id\":\"s\"}\n",
        "{\"type\":\"message\",\"id\":\"root\",\"message\":{\"role\":\"user\",\"content\":\"root\"}}\n",
        "{\"type\":\"message\",\"id\":\"orphan\",\"parentId\":\"missing\"}\n",
        "{\"type\":\"message\",\"id\":\"cycle-a\",\"parentId\":\"cycle-b\"}\n",
        "{\"type\":\"message\",\"id\":\"cycle-b\",\"parentId\":\"cycle-a\"}\n",
        "{\"type\":\"message\",\"id\":\"duplicate\",\"message\":{\"role\":\"user\",\"content\":\"first\"}}\n",
        "{\"type\":\"message\",\"id\":\"duplicate\",\"prompt\":\"RAW DUPLICATE\",\"message\":{\"role\":\"assistant\",\"content\":\"second\"}}\n",
        "{\"type\":\"message\",\"id\":\"broken\",\"message\":\n"
    ]
    .concat();
    let original = input.as_bytes().to_vec();
    let report = scan_bytes("corrupt.jsonl", &original);
    assert_eq!(report.parse_state, ParseState::Corrupt);
    assert_eq!(report.orphan_ids, vec!["orphan"]);
    assert_eq!(report.cycle_ids, vec!["cycle-a", "cycle-b"]);
    assert!(report.roots.contains(&"cycle-a".into()));
    assert_eq!(
        report
            .tree
            .iter()
            .filter(|node| node.entry_id == "duplicate")
            .count(),
        1
    );
    assert!(report
        .diagnostics
        .iter()
        .any(|diagnostic| diagnostic.code == "duplicate-entry-id"));
    assert_eq!(original, input.as_bytes());
}

#[test]
fn timeline_blocks_hide_ambiguous_source_ids_and_keep_only_safe_links() {
    let raw_root = "RAW_ROOT_IDENTIFIER";
    let raw_duplicate = "RAW_DUPLICATE_IDENTIFIER";
    let input = [
        "{\"type\":\"session\",\"id\":\"session\"}\n".to_string(),
        format!("{{\"type\":\"message\",\"id\":\"{raw_root}\",\"message\":{{\"role\":\"user\",\"content\":\"root\"}}}}\n"),
        format!("{{\"type\":\"message\",\"id\":\"{raw_duplicate}\",\"parentId\":\"{raw_root}\",\"message\":{{\"role\":\"assistant\",\"content\":\"first duplicate\"}}}}\n"),
        format!("{{\"type\":\"message\",\"id\":\"{raw_duplicate}\",\"parentId\":\"{raw_root}\",\"message\":{{\"role\":\"assistant\",\"content\":\"second duplicate\"}}}}\n"),
        format!("{{\"type\":\"message\",\"id\":\"\",\"parentId\":\"{raw_root}\",\"message\":{{\"role\":\"assistant\",\"content\":\"malformed id\"}}}}\n"),
        format!("{{\"type\":\"message\",\"id\":\"child\",\"parentId\":\"{raw_duplicate}\",\"message\":{{\"role\":\"assistant\",\"content\":\"ambiguous parent\"}}}}\n"),
        "{\"type\":\"message\",\"id\":\"cycle-a\",\"parentId\":\"cycle-b\",\"message\":{\"role\":\"assistant\",\"content\":\"cycle a\"}}\n".to_string(),
        "{\"type\":\"message\",\"id\":\"cycle-b\",\"parentId\":\"cycle-a\",\"message\":{\"role\":\"assistant\",\"content\":\"cycle b\"}}\n".to_string(),
    ]
    .concat();
    let report = scan_bytes("duplicate-ids.jsonl", input.as_bytes());
    let blocks = &report.timeline_blocks;
    assert_eq!(
        blocks.iter().map(|block| block.id.as_str()).collect::<Vec<_>>(),
        vec![
            "timeline-0",
            "timeline-1",
            "timeline-2",
            "timeline-3",
            "timeline-4",
            "timeline-5",
            "timeline-6",
        ]
    );
    assert_eq!(blocks[1].parent_id.as_deref(), Some("timeline-0"));
    assert_eq!(blocks[2].parent_id.as_deref(), Some("timeline-0"));
    assert_eq!(blocks[3].parent_id.as_deref(), Some("timeline-0"));
    assert!(blocks[4].parent_id.is_none(), "duplicate source parent is unsafe");
    assert!(blocks[5].parent_id.is_none(), "cycle links are unsafe");
    assert!(blocks[6].parent_id.is_none(), "cycle links are unsafe");
    let encoded = format!("{:?}", blocks);
    assert!(!encoded.contains(raw_root));
    assert!(!encoded.contains(raw_duplicate));
}

#[test]
fn invalid_utf8_complete_frame_is_corrupt_but_tail_is_excluded() {
    let report = scan_bytes("bytes.jsonl", b"{\"type\":\"session\",\"id\":\"s\"}\n\xff\n\xff");
    assert_eq!(report.parse_state, ParseState::Corrupt);
    assert_eq!(report.partial_tail_bytes, 1);
    assert_eq!(report.diagnostics[0].code, "invalid-utf8");
}

#[test]
fn scanner_projects_known_types_and_generic_blocks_deterministically() {
    let input = [
        "{\"type\":\"session\",\"version\":3,\"id\":\"sess\",\"name\":\"Fixture\",\"cwd\":\"/private/project\"}\n",
        "{\"type\":\"message\",\"id\":\"root\",\"message\":{\"role\":\"user\",\"content\":\"Hello world 👋\"}}\n",
        "{\"type\":\"message\",\"id\":\"assistant\",\"parentId\":\"root\",\"message\":{\"role\":\"assistant\",\"content\":[{\"type\":\"text\",\"text\":\"Answer\"}]}}\n",
        "{\"type\":\"compaction\",\"id\":\"compact\",\"parentId\":\"assistant\"}\n",
        "{\"type\":\"message\",\"id\":\"image\",\"parentId\":\"compact\",\"message\":{\"role\":\"user\",\"content\":[{\"type\":\"image\",\"data\":\"x\"}]}}\n",
    ]
    .concat();
    let first = scan_bytes("fixture.jsonl", input.as_bytes());
    let second = scan_bytes("fixture.jsonl", input.as_bytes());
    assert_eq!(first, second);
    assert_eq!(first.parse_state, ParseState::Healthy);
    assert_eq!(first.pi_session_id.as_deref(), Some("sess"));
    assert_eq!(first.entry_count, 4);
    assert_eq!(first.image_entry_count, 1);
    assert_eq!(first.compaction_entry_count, 1);
    assert_eq!(first.roots, vec!["root"]);
    assert_eq!(first.current_leaf_id.as_deref(), Some("image"));
    assert_eq!(first.timeline_blocks[2].kind, GenericBlockKind::Compaction);
    let contract_page = first.timeline_page(SessionId::new("opaque-session".to_owned()));
    assert_eq!(contract_page.blocks.len(), 4);
    assert_eq!(contract_page.blocks[2].kind, TimelineBlockKind::Compaction);
    assert_eq!(contract_page.blocks[0].source.session_id.as_str(), "opaque-session");
    let contract_tree = first.read_only_tree(SessionId::new("opaque-session".to_owned()));
    assert!(contract_tree.nodes.iter().any(|node| node.role_or_type == "user"));
    let projection = first.contract_projection(SessionId::new("opaque-session".to_owned()), None);
    let encoded_projection = format!("{projection:?}");
    assert!(!encoded_projection.contains("/private/project"));
}

#[test]
fn timeline_slices_are_bounded_chronological_and_page_without_overlap() {
    let mut input = String::from("{\"type\":\"session\",\"id\":\"session\"}\n");
    for index in 0..(TIMELINE_SLICE_MAX_LIMIT + 5) {
        input.push_str(&format!(
            "{{\"type\":\"message\",\"id\":\"source-{index}\",\"message\":{{\"role\":\"user\",\"content\":\"entry {index}\"}}}}\n"
        ));
    }
    let report = scan_bytes("pagination.jsonl", input.as_bytes());
    let latest = report.timeline_slice_latest(usize::MAX);
    assert_eq!(latest.total, TIMELINE_SLICE_MAX_LIMIT + 5);
    assert_eq!(latest.start, 5);
    assert_eq!(latest.end, TIMELINE_SLICE_MAX_LIMIT + 5);
    assert_eq!(latest.blocks.len(), TIMELINE_SLICE_MAX_LIMIT);
    assert_eq!(latest.blocks[0].id, "timeline-5");
    assert_eq!(latest.blocks.last().map(|block| block.id.as_str()), Some("timeline-204"));
    let older = report.timeline_slice_older(latest.start, 3);
    assert_eq!((older.start, older.end, older.total), (2, 5, TIMELINE_SLICE_MAX_LIMIT + 5));
    assert_eq!(
        older.blocks.iter().map(|block| block.id.as_str()).collect::<Vec<_>>(),
        vec!["timeline-2", "timeline-3", "timeline-4"]
    );
    let clamped = report.timeline_slice_older(usize::MAX, 2);
    assert_eq!((clamped.start, clamped.end), (TIMELINE_SLICE_MAX_LIMIT + 3, TIMELINE_SLICE_MAX_LIMIT + 5));
}

#[test]
fn v1_preferences_preserve_existing_values_and_default_new_appearance_controls() {
    assert_eq!(
        decode_preferences("v1|light|compact|reduce"),
        Some(Preferences {
            theme: ThemePreference::Light,
            density: DensityPreference::Compact,
            reduced_motion: ReducedMotionPreference::Reduce,
            font_size: FontSizePreference::Medium,
            chat_width: ChatWidthPreference::Wide,
        })
    );
    assert_eq!(decode_preferences("v1|light|compact|reduce|extra"), None);
}
